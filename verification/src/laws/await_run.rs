//! What a run of the `sessions_await` tool does with the times and with the
//! sessions, step by step.

use crate::message::MessageView;
use crate::sessions::completed_by_marker;
use crate::sessions::run::{ActionView, AwaitPhase, RunView};
use crate::sessions::waiting::AwaitRequestView;
use vstd::prelude::*;

verus! {

/// A run begins with the sessions and the terms of its request, at the time that
/// it is given, with no session complete and none counted.
pub proof fn law_runs_begin_with_the_request(request: AwaitRequestView, now: u128, i: int)
    ensures
        ({
            let run = RunView::begun(request, now);
            &&& run.states.len() == request.session_ids.len()
            &&& 0 <= i < request.session_ids.len() ==> run.states[i].id == request.session_ids[i]
                && !run.states[i].completed && run.states[i].last_change == now
            &&& run.started == now
            &&& run.timeout_secs == request.timeout_secs
            &&& run.idle_timeout_secs == request.idle_timeout_secs
            &&& run.wait_all == request.wait_all
            &&& run.histories.len() == 0
            &&& run.wanted() == Some(0int)
        }),
{
}

/// The time of a run is up from its start on after the seconds of the timeout,
/// and a session is idle from its last change on after the seconds of the idle
/// timeout, to the nanosecond.
pub proof fn law_times_are_kept_to_the_nanosecond(run: RunView, i: int, now: u128)
    requires
        0 <= i < run.states.len(),
        run.states[i].last_change <= now,
    ensures
        run.expired(now) <==> now - run.started >= run.timeout_secs * 1_000_000_000,
        run.idle(run.states[i], now) <==> now - run.states[i].last_change >= run.idle_timeout_secs
            * 1_000_000_000,
{
}

/// A load of a session asks for it by its ID, and a sleep is for two seconds.
pub proof fn law_loads_ask_by_id(run: RunView)
    requires
        run.sound(),
    ensures
        run.phase is Sleeping <==> run.action() == (ActionView::Sleep { secs: 2 }),
        run.wanted() matches Some(i) ==> 0 <= i < run.states.len() && run.action()
            == (ActionView::Load { session_id: run.states[i].id }),
{
}

/// `next` is the first session from `from` on that is not complete, or there is
/// none.
pub open spec fn first_pending(run: RunView, from: int, next: Option<int>) -> bool {
    match next {
        Some(n) => {
            &&& from <= n < run.states.len()
            &&& !run.states[n].completed
            &&& forall|j: int| from <= j < n ==> (#[trigger] run.states[j]).completed
        },
        None => forall|j: int|
            from <= j < run.states.len() ==> (#[trigger] run.states[j]).completed,
    }
}

/// A run that wakes in time looks at the first session that is not complete. Each
/// session that it looks at is looked at for a marker and, without one, counted.
/// After that comes the next one that is not complete, so that none is left out;
/// only after the last one does the run sleep again or report.
pub proof fn law_each_pending_session_is_looked_at(
    run: RunView,
    messages: Seq<MessageView>,
    now: u128,
)
    requires
        run.sound(),
    ensures
        run.phase is Sleeping && now - run.started < run.timeout_secs * 1_000_000_000 ==> {
            let after = run.after_sleep(now);
            after.phase matches AwaitPhase::Checking { next } && first_pending(
                after,
                0,
                Some(next as int),
            )
        },
        run.phase matches AwaitPhase::Checking { next } ==> {
            let after = run.after_load(messages, now);
            if completed_by_marker(messages) {
                match after.phase {
                    AwaitPhase::Checking { next: n } => first_pending(
                        after,
                        next + 1,
                        Some(n as int),
                    ),
                    AwaitPhase::Sleeping => first_pending(after, next + 1, None),
                    AwaitPhase::Reporting { timed_out, .. } => !timed_out && first_pending(
                        after,
                        next + 1,
                        None,
                    ),
                    _ => false,
                }
            } else {
                after.phase == (AwaitPhase::Recounting { next }) && after.states == run.states
            }
        },
        run.phase matches AwaitPhase::Recounting { next } ==> {
            let after = run.after_load(messages, now);
            match after.phase {
                AwaitPhase::Checking { next: n } => first_pending(after, next + 1, Some(n as int)),
                AwaitPhase::Sleeping => first_pending(after, next + 1, None),
                AwaitPhase::Reporting { timed_out, .. } => !timed_out && first_pending(
                    after,
                    next + 1,
                    None,
                ),
                _ => false,
            }
        },
{
    match run.phase {
        AwaitPhase::Sleeping => {
            crate::sessions::run::lemma_next_with(run.states, 0, false);
            if crate::sessions::run::next_with(run.states, 0, false) is None {
                if !run.wait_all {
                    assert(run.states[0].completed);
                }
                assert(run.met());
            }
        },
        AwaitPhase::Checking { next } => {
            let state = run.states[next as int];
            let marked = run.with(
                next as int,
                crate::sessions::run::PollView { completed: true, ..state },
            );
            crate::sessions::run::lemma_next_with(marked.states, next + 1, false);
            crate::sessions::run::lemma_next_with(marked.states, 0, true);
            assert(marked.states[next as int].completed);
        },
        AwaitPhase::Recounting { next } => {
            let state = run.states[next as int];
            let counted = run.with(
                next as int,
                run.recounted(state, messages.len(), now),
            );
            crate::sessions::run::lemma_next_with(counted.states, next + 1, false);
            crate::sessions::run::lemma_next_with(counted.states, 0, true);
            if counted.met() {
                if counted.wait_all {
                    assert(counted.states[0].completed);
                }
            }
        },
        _ => {},
    }
}

/// A run that wakes late counts each session that is not complete once more, one
/// after the other, and then reports.
pub proof fn law_late_runs_count_each_pending_session(
    run: RunView,
    messages: Seq<MessageView>,
    now: u128,
)
    requires
        run.sound(),
    ensures
        run.phase is Sleeping && now - run.started >= run.timeout_secs * 1_000_000_000 ==> {
            let after = run.after_sleep(now);
            &&& after.states == run.states
            &&& match after.phase {
                AwaitPhase::Closing { next } => first_pending(after, 0, Some(next as int)),
                AwaitPhase::Reporting { timed_out, .. } => timed_out && first_pending(
                    after,
                    0,
                    None,
                ),
                AwaitPhase::Finished { timed_out } => timed_out && first_pending(after, 0, None),
                _ => false,
            }
        },
        run.phase matches AwaitPhase::Closing { next } ==> {
            let after = run.after_load(messages, now);
            match after.phase {
                AwaitPhase::Closing { next: n } => first_pending(after, next + 1, Some(n as int)),
                AwaitPhase::Reporting { timed_out, .. } => timed_out && first_pending(
                    after,
                    next + 1,
                    None,
                ),
                AwaitPhase::Finished { timed_out } => timed_out && first_pending(
                    after,
                    next + 1,
                    None,
                ),
                _ => false,
            }
        },
{
    match run.phase {
        AwaitPhase::Sleeping => {
            crate::sessions::run::lemma_next_with(run.states, 0, false);
        },
        AwaitPhase::Closing { next } => {
            let state = run.states[next as int];
            let counted = run.with(next as int, run.recounted(state, messages.len(), now));
            crate::sessions::run::lemma_next_with(counted.states, next + 1, false);
        },
        _ => {},
    }
}

/// A look for a marker changes nothing but whether the session is complete. A
/// count finds the session active where the number of messages is another than
/// before, and else complete where the idle timeout has passed; every other
/// session is left as it is.
pub proof fn law_looks_change_one_session(
    run: RunView,
    messages: Seq<MessageView>,
    now: u128,
    i: int,
)
    requires
        run.sound(),
        0 <= i < run.states.len(),
        run.wanted() is Some,
    ensures
        ({
            let before = run.states[i];
            let after = run.after_load(messages, now).states[i];
            let looked = run.wanted() == Some(i);
            &&& after.id == before.id
            &&& !looked ==> after == before
            &&& looked && run.phase is Counting ==> after.last_message_count == messages.len()
                && after.last_change == before.last_change && !after.completed
            &&& looked && (run.phase is Marking || run.phase is Checking) ==> {
                &&& after.completed == completed_by_marker(messages)
                &&& after.last_message_count == before.last_message_count
                &&& after.last_change == before.last_change
            }
            &&& looked && (run.phase is Recounting || run.phase is Closing) ==> {
                &&& after.last_message_count == messages.len()
                &&& messages.len() != before.last_message_count ==> !after.completed
                    && after.last_change == now
                &&& messages.len() == before.last_message_count ==> after.last_change
                    == before.last_change
                &&& messages.len() == before.last_message_count && before.last_change <= now ==> (
                after.completed <==> now - before.last_change >= run.idle_timeout_secs
                    * 1_000_000_000)
            }
            &&& run.phase is Reporting ==> after == before
        }),
{
}

/// While a run reports, the messages of each completed session are kept as they
/// are loaded, in the order of the sessions.
pub proof fn law_reports_keep_what_is_loaded(run: RunView, messages: Seq<MessageView>, now: u128)
    requires
        run.sound(),
        run.phase is Reporting,
    ensures
        ({
            let after = run.after_load(messages, now);
            let i = run.wanted()->0;
            &&& run.states[i].completed
            &&& after.histories == run.histories.push(messages)
            &&& after.states == run.states
            &&& match after.phase {
                AwaitPhase::Reporting { next, timed_out } => {
                    &&& i < next < run.states.len() && run.states[next as int].completed
                    &&& forall|j: int| i < j < next ==> !(#[trigger] run.states[j]).completed
                    &&& timed_out == run.phase->Reporting_timed_out
                },
                AwaitPhase::Finished { timed_out } => {
                    &&& forall|j: int|
                        i < j < run.states.len() ==> !(#[trigger] run.states[j]).completed
                    &&& timed_out == run.phase->Reporting_timed_out
                },
                _ => false,
            }
        }),
{
    let i = run.wanted()->0;
    crate::sessions::run::lemma_next_with(run.states, i + 1, true);
}

/// A run waits for all sessions or for one: what it waits for has come exactly
/// where no session is left to complete, or exactly where one is complete.
pub proof fn law_what_a_run_waits_for(run: RunView)
    ensures
        run.wait_all ==> (run.met() <==> !exists|i: int|
            0 <= i < run.states.len() && !(#[trigger] run.states[i]).completed),
        !run.wait_all ==> (run.met() <==> !forall|i: int|
            0 <= i < run.states.len() ==> !(#[trigger] run.states[i]).completed),
{
}

} // verus!
