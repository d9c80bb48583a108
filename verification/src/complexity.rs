//! Automatic message complexity scoring for model routing.
//!
//! Analyzes conversation history to determine whether a request is simple
//! (suitable for a cheap/fast model), moderate (default model), or complex
//! (needs a reasoning model). Uses pure heuristics.

use crate::message::ChatMessage;
use crate::text::{contains_text, count_matches, has_part, matches_from, same_text};
use vstd::prelude::*;
use vstd::utf8::encode_utf8;

verus! {

/// Complexity tier for a conversation, used to select a model route.
#[derive(Debug, Clone, Copy, PartialEq, Eq, Structural)]
pub enum MessageComplexity {
    /// Short, single-turn, no code: route to a cheap/fast model.
    Simple,
    /// Moderate conversation depth or content: use the default model.
    Moderate,
    /// Long context, many tool calls, code-heavy: use a reasoning model.
    Complex,
}

impl MessageComplexity {
    /// Map complexity to the route hint that the router should use.
    pub fn route_hint(self) -> (hint: &'static str)
        ensures
            hint@ == (match self {
                MessageComplexity::Simple => "hint:cheap"@,
                MessageComplexity::Moderate => "hint:default"@,
                MessageComplexity::Complex => "hint:reasoning"@,
            }),
    {
        match self {
            MessageComplexity::Simple => "hint:cheap",
            MessageComplexity::Moderate => "hint:default",
            MessageComplexity::Complex => "hint:reasoning",
        }
    }
}

/// A message of the user.
pub open spec fn from_user(message: ChatMessage) -> bool {
    message.role@ == "user"@
}

/// A message that shows the use of a tool.
pub open spec fn shows_tool(message: ChatMessage) -> bool {
    message.role@ == "tool"@ || has_part(message.content@, "\"tool_calls\""@)
}

/// The length in bytes of the last message of the user, or 0.
pub open spec fn last_user_length(messages: Seq<ChatMessage>) -> nat
    decreases messages.len(),
{
    if messages.len() == 0 {
        0
    } else if from_user(messages.last()) {
        encode_utf8(messages.last().content@).len()
    } else {
        last_user_length(messages.drop_last())
    }
}

/// How many messages are the user's.
pub open spec fn user_turns(messages: Seq<ChatMessage>) -> nat
    decreases messages.len(),
{
    if messages.len() == 0 {
        0
    } else {
        user_turns(messages.drop_last()) + if from_user(messages.last()) {
            1nat
        } else {
            0nat
        }
    }
}

/// How many messages show the use of a tool.
pub open spec fn tool_indicators(messages: Seq<ChatMessage>) -> nat
    decreases messages.len(),
{
    if messages.len() == 0 {
        0
    } else {
        tool_indicators(messages.drop_last()) + if shows_tool(messages.last()) {
            1nat
        } else {
            0nat
        }
    }
}

/// How many code blocks a message holds: an opening and a closing fence are one
/// block.
pub open spec fn blocks_in(message: ChatMessage) -> nat {
    matches_from(message.content@, "```"@, 0) / 2
}

/// How many code blocks the messages hold.
pub open spec fn code_blocks(messages: Seq<ChatMessage>) -> nat
    decreases messages.len(),
{
    if messages.len() == 0 {
        0
    } else {
        code_blocks(messages.drop_last()) + blocks_in(messages.last())
    }
}

/// The points for the length of the last user message.
pub open spec fn length_points(length: nat) -> nat {
    if length < 100 {
        0
    } else if length < 500 {
        1
    } else if length <= 2000 {
        2
    } else {
        3
    }
}

/// The points for the number of conversation turns.
pub open spec fn turn_points(turns: nat) -> nat {
    if turns <= 1 {
        0
    } else if turns <= 4 {
        1
    } else if turns <= 10 {
        2
    } else {
        3
    }
}

/// The points for the number of tool-call indicators.
pub open spec fn tool_points(indicators: nat) -> nat {
    if indicators == 0 {
        0
    } else if indicators <= 2 {
        1
    } else if indicators <= 5 {
        2
    } else {
        3
    }
}

/// The points for the number of code blocks.
pub open spec fn code_points(blocks: nat) -> nat {
    if blocks == 0 {
        0
    } else if blocks == 1 {
        1
    } else if blocks <= 3 {
        2
    } else {
        3
    }
}

/// The raw score of a conversation.
pub open spec fn score_of(messages: Seq<ChatMessage>) -> nat {
    length_points(last_user_length(messages)) + turn_points(user_turns(messages)) + tool_points(
        tool_indicators(messages),
    ) + code_points(code_blocks(messages))
}

/// The tier of a raw score.
pub open spec fn tier_of(score: nat) -> MessageComplexity {
    if score <= 3 {
        MessageComplexity::Simple
    } else if score <= 7 {
        MessageComplexity::Moderate
    } else {
        MessageComplexity::Complex
    }
}

/// Score the complexity of a conversation based on simple heuristics.
///
/// Scoring dimensions (each contributes 0 to 3 points):
///
/// | Signal                        | 0        | 1          | 2           | 3            |
/// |-------------------------------|----------|------------|-------------|--------------|
/// | Last-user-message length      | < 100    | 100-499    | 500-2000    | > 2000       |
/// | Conversation turns            | 0-1      | 2-4        | 5-10        | > 10         |
/// | Tool-call indicators          | 0        | 1-2        | 3-5         | > 5          |
/// | Code-block indicators         | 0        | 1          | 2-3         | > 3          |
///
/// Total 0-3 is Simple, 4-7 is Moderate, 8-12 is Complex.
pub fn score_complexity(messages: &[ChatMessage]) -> (tier: MessageComplexity)
    ensures
        tier == tier_of(score_of(messages@)),
{
    let score = compute_score(messages);
    if score <= 3 {
        MessageComplexity::Simple
    } else if score <= 7 {
        MessageComplexity::Moderate
    } else {
        MessageComplexity::Complex
    }
}

/// Compute the raw numeric score.
pub fn compute_score(messages: &[ChatMessage]) -> (score: u32)
    ensures
        score == score_of(messages@),
        score <= 12,
{
    let mut length: usize = 0;
    let mut turns: usize = 0;
    let mut tools: usize = 0;
    // Beyond four blocks the points do not change, so the count stops there.
    let mut blocks: usize = 0;
    let mut i: usize = 0;
    while i < messages.len()
        invariant
            i <= messages@.len(),
            turns <= i,
            tools <= i,
            length == last_user_length(messages@.take(i as int)),
            turns == user_turns(messages@.take(i as int)),
            tools == tool_indicators(messages@.take(i as int)),
            blocks == code_blocks(messages@.take(i as int)) || (blocks == 4 && code_blocks(
                messages@.take(i as int),
            ) >= 4),
            blocks <= 4,
        decreases messages@.len() - i,
    {
        let message = &messages[i];
        assert(messages@.take(i + 1).drop_last() == messages@.take(i as int));
        assert(messages@.take(i + 1).last() == message);
        if same_text(message.role.as_str(), "user") {
            length = message.content.as_str().as_bytes().len();
            turns = turns + 1;
        }
        if same_text(message.role.as_str(), "tool") || contains_text(
            message.content.as_str(),
            "\"tool_calls\"",
        ) {
            tools = tools + 1;
        }
        proof {
            reveal_strlit("```");
        }
        let fenced = count_matches(message.content.as_str(), "```") / 2;
        blocks = if fenced > 4 - blocks {
            4
        } else {
            blocks + fenced
        };
        i = i + 1;
    }
    assert(messages@.take(messages@.len() as int) == messages@);
    let length_score: u32 = if length < 100 {
        0
    } else if length < 500 {
        1
    } else if length <= 2000 {
        2
    } else {
        3
    };
    let turn_score: u32 = if turns <= 1 {
        0
    } else if turns <= 4 {
        1
    } else if turns <= 10 {
        2
    } else {
        3
    };
    let tool_score: u32 = if tools == 0 {
        0
    } else if tools <= 2 {
        1
    } else if tools <= 5 {
        2
    } else {
        3
    };
    let code_score: u32 = if blocks == 0 {
        0
    } else if blocks == 1 {
        1
    } else if blocks <= 3 {
        2
    } else {
        3
    };
    length_score + turn_score + tool_score + code_score
}

/// Each signal gives at most three points, so a score is at most twelve.
pub proof fn law_score_is_at_most_twelve(messages: Seq<ChatMessage>)
    ensures
        score_of(messages) <= 12,
{
}

/// One signal alone never lifts a conversation out of the simple tier.
pub proof fn law_one_signal_stays_simple(messages: Seq<ChatMessage>)
    ensures
        ({
            let l = length_points(last_user_length(messages));
            let u = turn_points(user_turns(messages));
            let t = tool_points(tool_indicators(messages));
            let c = code_points(code_blocks(messages));
            (u == 0 && t == 0 && c == 0) || (l == 0 && t == 0 && c == 0) || (l == 0 && u == 0 && c
                == 0) || (l == 0 && u == 0 && t == 0)
        }) ==> tier_of(score_of(messages)) == MessageComplexity::Simple,
{
}

/// A further message of anyone but the user never lowers the score.
pub proof fn law_replies_never_lower_the_score(messages: Seq<ChatMessage>, reply: ChatMessage)
    requires
        !from_user(reply),
    ensures
        score_of(messages) <= score_of(messages.push(reply)),
{
    assert(messages.push(reply).drop_last() == messages);
}

} // verus!
