//! Conversation messages.

use vstd::prelude::*;

verus! {

/// One message of a conversation: who speaks, and what is said.
#[derive(Debug, Clone)]
pub struct ChatMessage {
    pub role: String,
    pub content: String,
}

/// The texts that a message holds.
pub struct MessageView {
    pub role: Seq<char>,
    pub content: Seq<char>,
}

impl View for ChatMessage {
    type V = MessageView;

    open spec fn view(&self) -> MessageView {
        MessageView { role: self.role@, content: self.content@ }
    }
}

/// The messages of a conversation, each by its texts.
pub open spec fn message_views(messages: Seq<ChatMessage>) -> Seq<MessageView> {
    Seq::new(messages.len(), |i: int| messages[i]@)
}

impl ChatMessage {
    /// A message from the user.
    pub fn user(content: &str) -> (message: Self)
        ensures
            message@ == (MessageView { role: "user"@, content: content@ }),
    {
        ChatMessage { role: "user".to_owned(), content: content.to_owned() }
    }

    /// A message from the assistant.
    pub fn assistant(content: &str) -> (message: Self)
        ensures
            message@ == (MessageView { role: "assistant"@, content: content@ }),
    {
        ChatMessage { role: "assistant".to_owned(), content: content.to_owned() }
    }

    /// A message that carries the result of a tool.
    pub fn tool(content: &str) -> (message: Self)
        ensures
            message@ == (MessageView { role: "tool"@, content: content@ }),
    {
        ChatMessage { role: "tool".to_owned(), content: content.to_owned() }
    }
}

} // verus!
