//! The `sessions_send` tool.

use super::{invalid_session_id_text, valid_session_id, validate_session_id};
use crate::json::{json_of, object_schema, object_schema_value, property, property_value,
    text_member, Json, Members};
use crate::message::{ChatMessage, MessageView};
use crate::text::{trim_text, trimmed};
use crate::tool::{decision_of, failure_reason, failure_of, success_of, Decision, MissingParameter,
    Refusal, ToolOperation, ToolResult, ToolResultView};
use serde_json::Value;
use vstd::prelude::*;

verus! {

/// A message to append to a session.
#[derive(Debug, Clone)]
pub struct SendRequest {
    pub session_id: String,
    pub message: ChatMessage,
}

/// What a request to append a message holds.
pub struct SendRequestView {
    pub session_id: Seq<char>,
    pub message: MessageView,
}

impl View for SendRequest {
    type V = SendRequestView;

    open spec fn view(&self) -> SendRequestView {
        SendRequestView { session_id: self.session_id@, message: self.message@ }
    }
}

/// What is made of a call: a denied one is answered with the reason, one
/// without a session ID or without a message fails, one with an ID that names
/// no session or with a blank message is turned down, and any other one asks to
/// append the message as the user's.
pub open spec fn send_decision(denial: Option<Seq<char>>, args: Json) -> Decision<
    SendRequestView,
> {
    match denial {
        Some(reason) => Decision::Answer(failure_of(reason)),
        None => match args.text_member("session_id"@) {
            None => Decision::Missing(MissingParameter::SessionId),
            Some(id) => if !valid_session_id(id) {
                Decision::Answer(failure_of(invalid_session_id_text()))
            } else {
                match args.text_member("message"@) {
                    None => Decision::Missing(MissingParameter::Message),
                    Some(content) => if trimmed(content).len() == 0 {
                        Decision::Answer(failure_of("Message content must not be empty."@))
                    } else {
                        Decision::Proceed(
                            SendRequestView {
                                session_id: id,
                                message: MessageView { role: "user"@, content },
                            },
                        )
                    },
                }
            },
        },
    }
}

/// The answer after the backend took the message, or failed for the reason
/// `failure`.
pub open spec fn send_answer(session_id: Seq<char>, failure: Option<Seq<char>>) -> ToolResultView {
    match failure {
        None => success_of("Message sent to session '"@ + session_id + "'."@),
        Some(reason) => failure_of("Failed to send message: "@ + reason),
    }
}

/// The parameters of the tool.
pub open spec fn send_schema() -> Json {
    object_schema(
        map![
            "session_id"@ => property(
                "string"@,
                "The target session ID (e.g. telegram__user123)"@,
            ),
            "message"@ => property("string"@, "The message content to send"@),
        ],
        seq!["session_id"@, "message"@],
    )
}

/// Sends a message to a specific session, enabling inter-agent communication.
pub struct SessionsSendTool<B, S> {
    /// Where the sessions are kept.
    pub backend: B,
    /// What decides whether the tool may be used.
    pub security: S,
}

impl<B, S> SessionsSendTool<B, S> {
    /// The tool on the sessions that `backend` keeps, under the policy
    /// `security`.
    pub fn new(backend: B, security: S) -> (tool: Self)
        ensures
            tool.backend == backend,
            tool.security == security,
    {
        SessionsSendTool { backend, security }
    }

    /// The name of the tool.
    pub fn name(&self) -> (name: &'static str)
        ensures
            name@ == "sessions_send"@,
    {
        "sessions_send"
    }

    /// What the tool does.
    pub fn description(&self) -> (text: &'static str)
        ensures
            text@
                == "Send a message to a specific session by its session ID. The message is appended to the session's conversation history as a 'user' message, enabling inter-agent communication."@,
    {
        "Send a message to a specific session by its session ID. The message is appended to the session's conversation history as a 'user' message, enabling inter-agent communication."
    }

    /// What the tool needs permission for.
    pub fn operation(&self) -> (operation: ToolOperation)
        ensures
            operation == ToolOperation::Act,
    {
        ToolOperation::Act
    }

    /// The parameters of the tool.
    pub fn parameters_schema(&self) -> (schema: Value)
        ensures
            json_of(schema) == send_schema(),
    {
        let mut properties = Members::new();
        properties.push(
            "session_id",
            property_value("string", "The target session ID (e.g. telegram__user123)"),
        );
        properties.push("message", property_value("string", "The message content to send"));
        let required = ["session_id", "message"];
        let schema = object_schema_value(properties, &required);
        assert(Seq::new(required@.len(), |i: int| required@[i]@) =~= seq![
            "session_id"@,
            "message"@,
        ]);
        schema
    }

    /// What is made of a call with `args`, where the security policy gave
    /// `permission`: a message to append, or the reason why there is none.
    pub fn prepare(&self, permission: Result<(), String>, args: &Value) -> (outcome: Result<
        SendRequest,
        Refusal,
    >)
        ensures
            decision_of(outcome) == send_decision(failure_reason(permission), json_of(*args)),
    {
        match permission {
            Err(reason) => {
                return Err(Refusal::Answered(ToolResult::failed(reason)));
            },
            Ok(_) => {},
        }
        let session_id = match text_member(args, "session_id") {
            Some(id) => id,
            None => {
                return Err(Refusal::Missing(MissingParameter::SessionId));
            },
        };
        match validate_session_id(session_id) {
            Err(answer) => {
                return Err(Refusal::Answered(answer));
            },
            Ok(_) => {},
        }
        let content = match text_member(args, "message") {
            Some(text) => text,
            None => {
                return Err(Refusal::Missing(MissingParameter::Message));
            },
        };
        if trim_text(content).as_str().is_empty() {
            return Err(
                Refusal::Answered(
                    ToolResult::failed("Message content must not be empty.".to_owned()),
                ),
            );
        }
        Ok(SendRequest { session_id: session_id.to_owned(), message: ChatMessage::user(content) })
    }

    /// The answer to a request, once the backend took the message or failed.
    pub fn answer(&self, request: &SendRequest, outcome: Result<(), String>) -> (result:
        ToolResult)
        ensures
            result@ == send_answer(request@.session_id, failure_reason(outcome)),
    {
        match outcome {
            Ok(_) => {
                let mut output = "Message sent to session '".to_owned();
                output.append(request.session_id.as_str());
                output.append("'.");
                ToolResult::succeeded(output)
            },
            Err(reason) => {
                let mut error = "Failed to send message: ".to_owned();
                error.append(reason.as_str());
                ToolResult::failed(error)
            },
        }
    }
}

} // verus!
