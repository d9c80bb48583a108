//! Session-to-session messaging tools for inter-agent communication.
//!
//! - `sessions_list` lists active sessions with their metadata.
//! - `sessions_history` reads the message history of one session.
//! - `sessions_send` sends a message to one session.
//! - `sessions_await` waits for one or more sessions to complete.

pub mod history;
pub mod laws;
pub mod list;
pub mod run;
pub mod send;
pub mod waiting;
pub mod whole;

use crate::message::{message_views, ChatMessage, MessageView};
use crate::text::{contains_text, has_part, trimmed, white_space, without_leading, without_trailing};
use crate::tool::{failure_of, ToolResult};
use vstd::prelude::*;
use vstd::utf8::is_ascii_chars;

verus! {

/// Whether a character is alphanumeric in the sense of Unicode.
pub uninterp spec fn alphanumeric(c: char) -> bool;

/// A letter or a digit of ASCII.
pub open spec fn ascii_alphanumeric(c: char) -> bool {
    ('0' <= c && c <= '9') || ('A' <= c && c <= 'Z') || ('a' <= c && c <= 'z')
}

/// A text with a letter or a digit of ASCII in it.
pub open spec fn has_ascii_alphanumeric(s: Seq<char>) -> bool {
    exists|i: int| 0 <= i < s.len() && ascii_alphanumeric(#[trigger] s[i])
}

/// `char::is_alphanumeric` tells letters and numbers of Unicode; among the
/// characters of ASCII these are the letters and the digits. White space is
/// neither.
pub assume_specification[ char::is_alphanumeric ](c: char) -> (found: bool)
    ensures
        found == alphanumeric(c),
        (c as u32) < 128 ==> found == ascii_alphanumeric(c),
        white_space(c) ==> !found,
;

/// The upper-case form of a text in the sense of Unicode.
pub uninterp spec fn uppercase(s: Seq<char>) -> Seq<char>;

/// The upper-case form of a character of ASCII.
pub open spec fn ascii_uppercase(c: char) -> char {
    if 'a' <= c && c <= 'z' {
        (c as u32 - 32) as char
    } else {
        c
    }
}

/// `str::to_uppercase` gives the upper-case form of a text; in a text of ASCII
/// characters it changes each small letter to the capital one, and nothing else.
pub assume_specification[ str::to_uppercase ](s: &str) -> (text: String)
    ensures
        text@ == uppercase(s@),
        is_ascii_chars(s@) ==> text@ == s@.map_values(|c: char| ascii_uppercase(c)),
;

/// A session ID that names a session: it holds at least one alphanumeric
/// character.
pub open spec fn valid_session_id(id: Seq<char>) -> bool {
    exists|i: int| 0 <= i < id.len() && alphanumeric(#[trigger] id[i])
}

/// White space in a text is not alphanumeric.
spec fn white_space_apart(s: Seq<char>) -> bool {
    forall|i: int| 0 <= i < s.len() && white_space(#[trigger] s[i]) ==> !alphanumeric(s[i])
}

proof fn lemma_leading(s: Seq<char>)
    requires
        white_space_apart(s),
    ensures
        white_space_apart(without_leading(s)),
        valid_session_id(without_leading(s)) == valid_session_id(s),
    decreases s.len(),
{
    if s.len() > 0 && white_space(s[0]) {
        let rest = s.drop_first();
        assert forall|i: int| 0 <= i < rest.len() implies #[trigger] rest[i] == s[i + 1] by {}
        lemma_leading(rest);
        if valid_session_id(s) {
            let i = choose|i: int| 0 <= i < s.len() && alphanumeric(#[trigger] s[i]);
            assert(rest[i - 1] == s[i]);
        }
    }
}

proof fn lemma_trailing(s: Seq<char>)
    requires
        white_space_apart(s),
    ensures
        valid_session_id(without_trailing(s)) == valid_session_id(s),
    decreases s.len(),
{
    if s.len() > 0 && white_space(s.last()) {
        let rest = s.drop_last();
        assert forall|i: int| 0 <= i < rest.len() implies #[trigger] rest[i] == s[i] by {}
        lemma_trailing(rest);
        if valid_session_id(s) {
            let i = choose|i: int| 0 <= i < s.len() && alphanumeric(#[trigger] s[i]);
            assert(i < rest.len());
            assert(rest[i] == s[i]);
        }
    }
}

/// What the caller is told of a session ID that names no session.
pub open spec fn invalid_session_id_text() -> Seq<char> {
    "Invalid 'session_id': must be non-empty and contain at least one alphanumeric character."@
}

/// Validate that a session ID is non-empty and contains at least one
/// alphanumeric character (prevents blank keys after sanitization).
///
/// It does not matter whether the white space around the ID is looked at.
pub fn validate_session_id(session_id: &str) -> (result: Result<(), ToolResult>)
    ensures
        match result {
            Ok(_) => valid_session_id(session_id@),
            Err(answer) => !valid_session_id(session_id@) && answer@ == failure_of(
                invalid_session_id_text(),
            ),
        },
        result is Ok <==> valid_session_id(trimmed(session_id@)),
        has_ascii_alphanumeric(session_id@) ==> result is Ok,
        is_ascii_chars(session_id@) && !has_ascii_alphanumeric(session_id@) ==> result is Err,
        trimmed(session_id@).len() == 0 ==> result is Err,
{
    let mut found = false;
    for c in it: session_id.chars()
        invariant
            it.seq() == session_id@,
            found == exists|i: int|
                0 <= i < it.index() && alphanumeric(#[trigger] session_id@[i]),
            forall|i: int|
                0 <= i < it.index() && (session_id@[i] as u32) < 128 ==> alphanumeric(
                    #[trigger] session_id@[i],
                ) == ascii_alphanumeric(session_id@[i]),
            forall|i: int|
                0 <= i < it.index() && white_space(#[trigger] session_id@[i]) ==> !alphanumeric(
                    session_id@[i],
                ),
    {
        if c.is_alphanumeric() {
            found = true;
        }
        assert(alphanumeric(session_id@[it.index() as int]) == alphanumeric(c));
    }
    proof {
        lemma_leading(session_id@);
        lemma_trailing(without_leading(session_id@));
    }
    if found {
        Ok(())
    } else {
        Err(
            ToolResult::failed(
                "Invalid 'session_id': must be non-empty and contain at least one alphanumeric character.".to_owned(),
            ),
        )
    }
}

/// An upper-case text that holds one of the markers of completed work.
pub open spec fn marks_completion(upper: Seq<char>) -> bool {
    has_part(upper, "[DONE]"@) || has_part(upper, "[COMPLETE]"@)
}

/// Whether an upper-case text holds one of the markers of completed work.
pub fn holds_completion_marker(upper: &str) -> (found: bool)
    ensures
        found == marks_completion(upper@),
{
    contains_text(upper, "[DONE]") || contains_text(upper, "[COMPLETE]")
}

/// A session whose last message holds a completion marker, in whatever case.
pub open spec fn completed_by_marker(messages: Seq<MessageView>) -> bool {
    messages.len() > 0 && marks_completion(uppercase(messages.last().content))
}

/// Check whether the last of the messages of a session contains a completion
/// marker.
pub fn has_completion_marker(messages: &Vec<ChatMessage>) -> (found: bool)
    ensures
        found == completed_by_marker(message_views(messages@)),
        messages@.len() > 0 && is_ascii_chars(messages@.last().content@) ==> found
            == marks_completion(messages@.last().content@.map_values(|c: char| ascii_uppercase(c))),
{
    if messages.len() == 0 {
        return false;
    }
    let upper = messages[messages.len() - 1].content.as_str().to_uppercase();
    holds_completion_marker(upper.as_str())
}

/// One line of a transcript.
pub open spec fn transcript_line(message: MessageView) -> Seq<char> {
    "["@ + message.role + "] "@ + message.content + "\n"@
}

/// The lines of a transcript, one for each message.
pub open spec fn transcript(messages: Seq<MessageView>) -> Seq<char>
    decreases messages.len(),
{
    if messages.len() == 0 {
        Seq::empty()
    } else {
        transcript(messages.drop_last()) + transcript_line(messages.last())
    }
}

/// One line of a transcript.
fn transcript_line_text(message: &ChatMessage) -> (line: String)
    ensures
        line@ == transcript_line(message@),
{
    let mut line = "[".to_owned();
    line.append(message.role.as_str());
    line.append("] ");
    line.append(message.content.as_str());
    line.append("\n");
    line
}

/// Appends the transcript of the messages from position `start` on.
pub(crate) fn push_transcript(output: &mut String, messages: &Vec<ChatMessage>, start: usize)
    requires
        start <= messages@.len(),
    ensures
        final(output)@ == old(output)@ + transcript(message_views(messages@).skip(start as int)),
{
    let ghost tail = message_views(messages@).skip(start as int);
    let mut i: usize = start;
    assert(tail.take(0) == Seq::<MessageView>::empty());
    while i < messages.len()
        invariant
            start <= i <= messages@.len(),
            tail == message_views(messages@).skip(start as int),
            output@ == old(output)@ + transcript(tail.take(i - start)),
        decreases messages@.len() - i,
    {
        let message = &messages[i];
        output.append(transcript_line_text(message).as_str());
        proof {
            let k = i - start;
            assert(tail.take(k + 1).drop_last() == tail.take(k));
            assert(tail.take(k + 1).last() == message@);
            assert(output@ == old(output)@ + (transcript(tail.take(k)) + transcript_line(message@)));
        }
        i = i + 1;
    }
    assert(tail.take(tail.len() as int) == tail);
}

} // verus!
