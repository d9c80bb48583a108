//! What the score of a conversation counts.

use super::text::{law_counting_goes_on, law_no_place, lemma_begins_after};
use crate::complexity::{blocks_in, code_blocks, last_user_length, score_of, tier_of,
    tool_indicators, user_turns, MessageComplexity};
use crate::message::ChatMessage;
use crate::text::{has_part, matches_from, occurs_at};
use vstd::prelude::*;
use vstd::utf8::encode_utf8;

verus! {

/// The conversation turns are the messages with the role of the user.
pub proof fn law_turns_are_the_users_messages(messages: Seq<ChatMessage>)
    ensures
        user_turns(messages) == messages.filter(|m: ChatMessage| m.role@ == "user"@).len(),
    decreases messages.len(),
{
    reveal_with_fuel(Seq::filter, 2);
    if messages.len() > 0 {
        law_turns_are_the_users_messages(messages.drop_last());
    }
}

/// The tool-call indicators are the messages with the role of a tool, and those
/// that hold a list of tool calls.
pub proof fn law_indicators_are_the_messages_of_tools(messages: Seq<ChatMessage>)
    ensures
        tool_indicators(messages) == messages.filter(
            |m: ChatMessage| m.role@ == "tool"@ || has_part(m.content@, "\"tool_calls\""@),
        ).len(),
    decreases messages.len(),
{
    reveal_with_fuel(Seq::filter, 2);
    if messages.len() > 0 {
        law_indicators_are_the_messages_of_tools(messages.drop_last());
    }
}

/// The length that counts is that of the last message of the user, in bytes,
/// whatever others say after it.
pub proof fn law_length_is_that_of_the_last_user_message(
    before: Seq<ChatMessage>,
    message: ChatMessage,
    after: Seq<ChatMessage>,
)
    requires
        message.role@ == "user"@,
        forall|i: int| 0 <= i < after.len() ==> (#[trigger] after[i]).role@ != "user"@,
    ensures
        last_user_length(before.push(message) + after) == encode_utf8(message.content@).len(),
    decreases after.len(),
{
    let all = before.push(message) + after;
    if after.len() == 0 {
        assert(all =~= before.push(message));
    } else {
        assert(all.last() == after.last());
        assert(all.drop_last() =~= before.push(message) + after.drop_last());
        law_length_is_that_of_the_last_user_message(before, message, after.drop_last());
    }
}

/// Without a message of the user the length that counts is 0.
pub proof fn law_no_user_message_has_no_length(messages: Seq<ChatMessage>)
    requires
        forall|i: int| 0 <= i < messages.len() ==> (#[trigger] messages[i]).role@ != "user"@,
    ensures
        last_user_length(messages) == 0,
    decreases messages.len(),
{
    if messages.len() > 0 {
        law_no_user_message_has_no_length(messages.drop_last());
    }
}

/// The code blocks of a message are half of its fences, whoever it is from.
pub proof fn law_blocks_are_pairs_of_fences(message: ChatMessage, other: ChatMessage)
    ensures
        ({
            let fences = matches_from(message.content@, "```"@, 0);
            2 * blocks_in(message) <= fences <= 2 * blocks_in(message) + 1
        }),
        message.content@ == other.content@ ==> blocks_in(message) == blocks_in(other),
{
}

/// A text without a backtick.
pub open spec fn unquoted(s: Seq<char>) -> bool {
    forall|i: int| 0 <= i < s.len() ==> #[trigger] s[i] != '`'
}

/// A code block: what stands before it, and what stands in it.
pub struct Block {
    pub before: Seq<char>,
    pub code: Seq<char>,
}

/// A text with code blocks, and with `after` after the last one.
pub open spec fn with_blocks(blocks: Seq<Block>, after: Seq<char>) -> Seq<char>
    decreases blocks.len(),
{
    if blocks.len() == 0 {
        after
    } else {
        blocks[0].before + "```"@ + blocks[0].code + "```"@ + with_blocks(
            blocks.drop_first(),
            after,
        )
    }
}

proof fn lemma_fence(a: Seq<char>, b: Seq<char>)
    requires
        unquoted(a),
    ensures
        matches_from(a + "```"@ + b, "```"@, 0) == 1 + matches_from(b, "```"@, 0),
{
    reveal_strlit("```");
    lemma_begins_after(a, "```"@, b);
    law_counting_goes_on(a, "```"@, b);
}

proof fn lemma_unquoted_has_no_fence(s: Seq<char>)
    requires
        unquoted(s),
    ensures
        matches_from(s, "```"@, 0) == 0,
{
    reveal_strlit("```");
    assert(!has_part(s, "```"@)) by {
        if has_part(s, "```"@) {
            let i = choose|i: int| occurs_at(s, "```"@, i);
            assert(s.subrange(i, i + 3)[0] == s[i]);
        }
    }
    law_no_place(s, "```"@);
}

proof fn lemma_fences_of_blocks(blocks: Seq<Block>, after: Seq<char>)
    requires
        forall|i: int|
            0 <= i < blocks.len() ==> unquoted((#[trigger] blocks[i]).before) && unquoted(
                blocks[i].code,
            ),
    ensures
        matches_from(with_blocks(blocks, after), "```"@, 0) == 2 * blocks.len() + matches_from(
            after,
            "```"@,
            0,
        ),
    decreases blocks.len(),
{
    if blocks.len() > 0 {
        let rest = blocks.drop_first();
        assert forall|i: int| 0 <= i < rest.len() implies unquoted((#[trigger] rest[i]).before)
            && unquoted(rest[i].code) by {
            assert(rest[i] == blocks[i + 1]);
        }
        lemma_fences_of_blocks(rest, after);
        let fence = "```"@;
        let tail = with_blocks(rest, after);
        let first = blocks[0];
        assert(first.before + fence + first.code + fence + tail =~= first.before + fence + (
        first.code + fence + tail));
        lemma_fence(first.before, first.code + fence + tail);
        lemma_fence(first.code, tail);
    }
}

/// A message with some code blocks, and no other backticks, has just these; so
/// has one with one more fence that nothing closes. It does not matter who it is
/// from.
pub proof fn law_fenced_blocks_are_counted(
    message: ChatMessage,
    blocks: Seq<Block>,
    after: Seq<char>,
    open: Seq<char>,
)
    requires
        forall|i: int|
            0 <= i < blocks.len() ==> unquoted((#[trigger] blocks[i]).before) && unquoted(
                blocks[i].code,
            ),
        unquoted(after),
        unquoted(open),
    ensures
        message.content@ == with_blocks(blocks, after) ==> blocks_in(message) == blocks.len(),
        message.content@ == with_blocks(blocks, after + "```"@ + open) ==> blocks_in(message)
            == blocks.len(),
{
    lemma_fences_of_blocks(blocks, after);
    lemma_unquoted_has_no_fence(after);
    lemma_fences_of_blocks(blocks, after + "```"@ + open);
    lemma_fence(after, open);
    lemma_unquoted_has_no_fence(open);
}

/// The code blocks of two conversations in a row add up, and those of one message
/// are the blocks in it.
pub proof fn law_blocks_add_up(a: Seq<ChatMessage>, b: Seq<ChatMessage>, message: ChatMessage)
    ensures
        code_blocks(a + b) == code_blocks(a) + code_blocks(b),
        code_blocks(seq![message]) == blocks_in(message),
        code_blocks(Seq::empty()) == 0,
    decreases b.len(),
{
    if b.len() == 0 {
        assert(a + b =~= a);
    } else {
        assert((a + b).last() == b.last());
        assert((a + b).drop_last() =~= a + b.drop_last());
        law_blocks_add_up(a, b.drop_last(), message);
    }
    assert(seq![message].drop_last() =~= Seq::<ChatMessage>::empty());
    assert(code_blocks(Seq::<ChatMessage>::empty()) == 0);
}

/// 1 for what holds, and 0 for what does not.
pub open spec fn point(holds: bool) -> nat {
    if holds {
        1
    } else {
        0
    }
}

/// A conversation has one point for each mark that one of its signals reaches,
/// and its tier goes by the points.
pub proof fn law_points_are_the_marks_reached(messages: Seq<ChatMessage>)
    ensures
        ({
            let length = last_user_length(messages);
            let turns = user_turns(messages);
            let tools = tool_indicators(messages);
            let blocks = code_blocks(messages);
            score_of(messages) == point(length >= 100) + point(length >= 500) + point(length > 2000)
                + point(turns >= 2) + point(turns >= 5) + point(turns > 10) + point(tools >= 1)
                + point(tools >= 3) + point(tools > 5) + point(blocks >= 1) + point(blocks >= 2)
                + point(blocks > 3)
        }),
        tier_of(score_of(messages)) == MessageComplexity::Simple <==> score_of(messages) < 4,
        tier_of(score_of(messages)) == MessageComplexity::Complex <==> score_of(messages) >= 8,
{
}

} // verus!
