//! What a report on awaited sessions says.

use super::sessions::{law_transcripts_hold_every_message, law_transcripts_take_up, shown_message,
    transcript_size};
use crate::message::MessageView;
use crate::sessions::history::last_messages;
use crate::sessions::run::{completed_count, pending_ids, report, report_head, report_section,
    report_sections, report_tail, PollView};
use crate::sessions::transcript;
use crate::text::{decimal, has_part, joined, lemma_has_in_longer};
use vstd::prelude::*;

verus! {

/// The completed sessions of two lists in a row add up, and each complete session
/// counts as one.
pub proof fn law_completed_sessions_add_up(a: Seq<PollView>, b: Seq<PollView>, state: PollView)
    ensures
        completed_count(a + b) == completed_count(a) + completed_count(b),
        completed_count(seq![state]) == (if state.completed {
            1nat
        } else {
            0nat
        }),
        completed_count(Seq::empty()) == 0,
    decreases b.len(),
{
    if b.len() == 0 {
        assert(a + b =~= a);
    } else {
        law_completed_sessions_add_up(a, b.drop_last(), state);
        assert((a + b).last() == b.last());
        assert((a + b).drop_last() =~= a + b.drop_last());
    }
    assert(seq![state].drop_last() =~= Seq::<PollView>::empty());
    assert(completed_count(Seq::<PollView>::empty()) == 0);
}

/// The pending sessions of two lists in a row are the ones and then the others;
/// a session is pending exactly where it is not complete.
pub proof fn law_pending_sessions_in_order(a: Seq<PollView>, b: Seq<PollView>, state: PollView)
    ensures
        pending_ids(a + b) == pending_ids(a) + pending_ids(b),
        state.completed ==> pending_ids(seq![state]).len() == 0,
        !state.completed ==> pending_ids(seq![state]) == seq![state.id],
        pending_ids(Seq::empty()) == Seq::<Seq<char>>::empty(),
    decreases b.len(),
{
    if b.len() == 0 {
        assert(a + b =~= a);
        assert(pending_ids(a) + Seq::<Seq<char>>::empty() =~= pending_ids(a));
    } else {
        law_pending_sessions_in_order(a, b.drop_last(), state);
        assert((a + b).last() == b.last());
        assert((a + b).drop_last() =~= a + b.drop_last());
        if !b.last().completed {
            let x = pending_ids(a);
            let y = pending_ids(b.drop_last());
            assert((x + y).push(b.last().id) =~= x + y.push(b.last().id));
        }
    }
    assert(seq![state].drop_last() =~= Seq::<PollView>::empty());
    assert(pending_ids(Seq::<PollView>::empty()) == Seq::<Seq<char>>::empty());
    assert(Seq::<Seq<char>>::empty().push(state.id) =~= seq![state.id]);
}

/// The sections on two lists of sessions are the ones and then the others, each
/// with the messages of its own sessions; a session that is not complete has no
/// section.
pub proof fn law_sections_in_order(
    a: Seq<PollView>,
    b: Seq<PollView>,
    of_a: Seq<Seq<MessageView>>,
    of_b: Seq<Seq<MessageView>>,
)
    requires
        of_a.len() == completed_count(a),
        of_b.len() == completed_count(b),
    ensures
        report_sections(a + b, of_a + of_b) == report_sections(a, of_a) + report_sections(b, of_b),
    decreases b.len(),
{
    let all = of_a + of_b;
    if b.len() == 0 {
        assert(a + b =~= a);
        assert(all =~= of_a);
        assert(report_sections(a, of_a) + Seq::<char>::empty() =~= report_sections(a, of_a));
    } else {
        assert((a + b).last() == b.last());
        assert((a + b).drop_last() =~= a + b.drop_last());
        let x = report_sections(a, of_a);
        if b.last().completed {
            law_sections_in_order(a, b.drop_last(), of_a, of_b.drop_last());
            assert(all.drop_last() =~= of_a + of_b.drop_last());
            assert(all.last() == of_b.last());
            let y = report_sections(b.drop_last(), of_b.drop_last());
            let z = report_section(b.last().id, of_b.last());
            assert(x + y + z =~= x + (y + z));
        } else {
            law_sections_in_order(a, b.drop_last(), of_a, of_b);
        }
    }
}

/// A list of one session has one section where it is complete, and else none.
pub proof fn law_section_of_one_session(state: PollView, messages: Seq<MessageView>)
    ensures
        state.completed ==> report_sections(seq![state], seq![messages]) == report_section(
            state.id,
            messages,
        ),
        !state.completed ==> report_sections(seq![state], Seq::empty()).len() == 0,
        report_sections(Seq::empty(), Seq::empty()).len() == 0,
{
    assert(seq![state].drop_last() =~= Seq::<PollView>::empty());
    let none = report_sections(Seq::<PollView>::empty(), seq![messages].drop_last());
    assert(report_sections(Seq::<PollView>::empty(), Seq::empty()) == Seq::<char>::empty());
    assert(none + report_section(state.id, messages) =~= report_section(state.id, messages));
}

/// A section names its session between dashes, and shows the last five messages,
/// or all where there are fewer, each in full.
pub proof fn law_section_shows_the_last_messages(
    id: Seq<char>,
    messages: Seq<MessageView>,
    i: int,
)
    ensures
        ({
            let section = report_section(id, messages);
            let n = messages.len() as int;
            let t = if n > 5 {
                5
            } else {
                n
            };
            let h = 5 + id.len() as int;
            &&& section.take(5) == "\n--- "@
            &&& section.subrange(5, h) == id
            &&& section.subrange(h, h + 5) == " ---\n"@
            &&& section.len() == h + 5 + transcript_size(messages.skip(n - t))
            &&& section.skip(h + 5) == transcript(messages.skip(n - t))
            &&& n - t <= i < n ==> has_part(section, shown_message(messages[i]))
        }),
{
    reveal_strlit("\n--- ");
    reveal_strlit(" ---\n");
    let section = report_section(id, messages);
    let n = messages.len() as int;
    let t = if n > 5 {
        5
    } else {
        n
    };
    let h = 5 + id.len() as int;
    let shown = messages.skip(n - t);
    assert(last_messages(messages, 5) =~= shown);
    assert(section.take(5) =~= "\n--- "@);
    assert(section.subrange(5, h) =~= id);
    assert(section.subrange(h, h + 5) =~= " ---\n"@);
    assert(section.skip(h + 5) =~= transcript(shown));
    law_transcripts_take_up(shown);
    if n - t <= i < n {
        let k = i - (n - t);
        assert(shown[k] == messages[i]);
        law_transcripts_hold_every_message(shown, k);
        let head = "\n--- "@ + id + " ---\n"@;
        let text = transcript(shown);
        lemma_has_in_longer(head, text, Seq::empty(), shown_message(messages[i]));
        assert(head + text + Seq::<char>::empty() =~= section);
    }
}

/// The first line of a report tells how many sessions are complete, and after a
/// timeout out of how many; the last line names those that are pending, with
/// commas between them, and is there exactly where there are any. Between the two
/// stand the sections.
pub proof fn law_report_by_its_lines(
    states: Seq<PollView>,
    histories: Seq<Seq<MessageView>>,
    timed_out: bool,
)
    ensures
        ({
            let text = report(states, histories, timed_out);
            let count = decimal(completed_count(states));
            let head = if timed_out {
                "Timeout reached. "@ + count + "/"@ + decimal(states.len())
                    + " session(s) completed.\n"@
            } else {
                count + " session(s) completed.\n"@
            };
            let sections = report_sections(states, histories);
            let pending = pending_ids(states);
            let tail = if pending.len() > 0 {
                "\nPending sessions: "@ + joined(pending, ", "@) + "\n"@
            } else {
                Seq::empty()
            };
            &&& text.len() == head.len() + sections.len() + tail.len()
            &&& text.take(head.len() as int) == head
            &&& text.subrange(head.len() as int, head.len() + sections.len() as int) == sections
            &&& text.skip(head.len() + sections.len() as int) == tail
        }),
{
    let text = report(states, histories, timed_out);
    let head = report_head(states, timed_out);
    let sections = report_sections(states, histories);
    let tail = report_tail(states);
    assert(text.take(head.len() as int) =~= head);
    assert(text.subrange(head.len() as int, head.len() + sections.len() as int) =~= sections);
    assert(text.skip(head.len() + sections.len() as int) =~= tail);
}

} // verus!
