//! What holds of a whole run of the `sessions_await` tool, from the request to
//! the answer.

use super::completed_by_marker;
use super::run::{completed_count, continues, law_completed_sessions_stay_complete,
    law_loads_between_sleeps_are_bounded, law_steps_keep_the_run_sound,
    law_timeout_is_found_on_waking, loads_left, pending_ids, report, timed_out, ActionView,
    AwaitPhase, PollView, RunView, NANOS_PER_SEC, POLL_SECS};
use super::waiting::AwaitRequestView;
use crate::clock::time_between;
use crate::message::MessageView;
use crate::tool::success_of;
use vstd::prelude::*;

verus! {

/// What comes of an action of a run, and when.
pub enum RunEvent {
    Loaded { messages: Seq<MessageView>, now: u128 },
    Slept { now: u128 },
}

impl RunEvent {
    /// When the event happened.
    pub open spec fn now(self) -> u128 {
        match self {
            RunEvent::Loaded { now, .. } => now,
            RunEvent::Slept { now } => now,
        }
    }
}

impl RunView {
    /// The event is one that the run asks for.
    pub open spec fn asks_for(self, event: RunEvent) -> bool {
        match event {
            RunEvent::Loaded { .. } => self.wanted() is Some,
            RunEvent::Slept { .. } => self.phase is Sleeping,
        }
    }

    /// How many messages of session `i` the event lets the run count, where it
    /// does.
    pub open spec fn counts(self, event: RunEvent, i: int) -> Option<nat> {
        match event {
            RunEvent::Loaded { messages, .. } => match self.phase {
                AwaitPhase::Counting { next } if next == i => Some(messages.len()),
                AwaitPhase::Recounting { next } if next == i => Some(messages.len()),
                AwaitPhase::Closing { next } if next == i => Some(messages.len()),
                _ => None,
            },
            RunEvent::Slept { .. } => None,
        }
    }

    /// The event shows the run a completion marker in the last message of session
    /// `i`.
    pub open spec fn sees_marker(self, event: RunEvent, i: int) -> bool {
        &&& event matches RunEvent::Loaded { messages, .. } && completed_by_marker(messages)
        &&& match self.phase {
            AwaitPhase::Marking { next } => next == i,
            AwaitPhase::Checking { next } => next == i,
            _ => false,
        }
    }

    /// The run after an event.
    #[verifier::opaque]
    pub open spec fn after(self, event: RunEvent) -> Self {
        match event {
            RunEvent::Loaded { messages, now } => self.after_load(messages, now),
            RunEvent::Slept { now } => self.after_sleep(now),
        }
    }

    /// The run after some events, in order.
    pub open spec fn after_events(self, events: Seq<RunEvent>) -> Self
        decreases events.len(),
    {
        if events.len() == 0 {
            self
        } else {
            self.after_events(events.drop_last()).after(events.last())
        }
    }
}

/// The run just before event `k`.
pub open spec fn before(run: RunView, events: Seq<RunEvent>, k: int) -> RunView {
    run.after_events(events.take(k))
}

/// Each of the events is one that the run asks for.
pub open spec fn performed(run: RunView, events: Seq<RunEvent>) -> bool {
    forall|k: int|
        0 <= k < events.len() ==> (#[trigger] before(run, events, k)).asks_for(events[k])
}

/// How many messages of session `i` are counted at event `k`, where they are.
pub open spec fn count_found(run: RunView, events: Seq<RunEvent>, i: int, k: int) -> Option<nat> {
    before(run, events, k).counts(events[k], i)
}

/// Since when a count that is found at event `k` is taken to hold: the first one
/// since the start of the run, and a later one since it is found.
pub open spec fn counted_at(run: RunView, events: Seq<RunEvent>, k: int) -> u128 {
    if before(run, events, k).phase is Counting {
        run.started
    } else {
        events[k].now()
    }
}

/// The messages of session `i` are counted at event `since`, and whenever they
/// are counted again before event `until`, there are as many.
pub open spec fn count_kept(
    run: RunView,
    events: Seq<RunEvent>,
    i: int,
    since: int,
    until: int,
) -> bool {
    &&& count_found(run, events, i, since) is Some
    &&& forall|k: int|
        since <= k < until && (#[trigger] count_found(run, events, i, k)) is Some ==> count_found(
            run,
            events,
            i,
            k,
        ) == count_found(run, events, i, since)
}

/// At event `k`, session `i` is looked at, and its last message holds a
/// completion marker.
pub open spec fn marker_found(run: RunView, events: Seq<RunEvent>, i: int, k: int) -> bool {
    0 <= k < events.len() && before(run, events, k).sees_marker(events[k], i)
}

/// The messages of session `i` are counted at event `k`, and it kept its message
/// count from event `since` on until then, for the idle timeout.
pub open spec fn was_idle(
    run: RunView,
    events: Seq<RunEvent>,
    i: int,
    since: int,
    k: int,
) -> bool {
    &&& 0 <= since <= k < events.len()
    &&& count_found(run, events, i, k) is Some
    &&& count_kept(run, events, i, since, k + 1)
    &&& time_between(counted_at(run, events, since) as int, events[k].now() as int)
        >= run.idle_timeout_secs * NANOS_PER_SEC
}

/// Session `i` had a completion marker in its last message at some look, or kept
/// its message count for the idle timeout.
pub open spec fn complete_for_cause(run: RunView, events: Seq<RunEvent>, i: int) -> bool {
    ||| exists|k: int| marker_found(run, events, i, k)
    ||| exists|since: int, k: int| was_idle(run, events, i, since, k)
}

/// Event `k` is a waking after the timeout.
pub open spec fn woke_late(run: RunView, events: Seq<RunEvent>, k: int) -> bool {
    &&& 0 <= k < events.len()
    &&& events[k] is Slept
    &&& events[k].now() >= run.started + run.timeout_secs * NANOS_PER_SEC
}

/// The record of session `i` goes back to the count at event `since`.
spec fn tracks(run: RunView, events: Seq<RunEvent>, i: int, since: int) -> bool {
    let state = run.after_events(events).states[i];
    &&& 0 <= since < events.len()
    &&& count_kept(run, events, i, since, events.len() as int)
    &&& count_found(run, events, i, since) == Some(state.last_message_count)
    &&& counted_at(run, events, since) == state.last_change
}

/// The messages of session `i` have been counted.
spec fn counted(run: RunView, i: int) -> bool {
    run.phase matches AwaitPhase::Counting { next } ==> i < next
}

/// What an event changes of a run.
proof fn lemma_event(run: RunView, event: RunEvent)
    requires
        run.sound(),
        run.asks_for(event),
    ensures
        run.after(event).sound(),
        continues(run, run.after(event)),
        run.after(event).phase is Counting ==> run.phase is Counting,
        run.phase matches AwaitPhase::Counting { next } ==> run.after(event).phase == (if next + 1
            < run.states.len() {
            AwaitPhase::Counting { next: (next + 1) as usize }
        } else {
            AwaitPhase::Marking { next: 0 }
        }),
        event is Loaded ==> timed_out(run.after(event)) == timed_out(run),
        event is Slept ==> !timed_out(run) && timed_out(run.after(event)) == run.expired(
            event.now(),
        ),
        timed_out(run) ==> event is Loaded,
        event is Loaded ==> loads_left(run.after(event)) < loads_left(run),
        timed_out(run.after(event)) ==> loads_left(run.after(event)) <= 2 * run.states.len(),
{
    reveal(RunView::after);
    let (messages, now) = match event {
        RunEvent::Loaded { messages, now } => (messages, now),
        RunEvent::Slept { now } => (Seq::<MessageView>::empty(), now),
    };
    law_steps_keep_the_run_sound(run, messages, now);
    law_completed_sessions_stay_complete(run, messages, now);
    law_timeout_is_found_on_waking(run, messages, now);
    law_loads_between_sleeps_are_bounded(run, messages, now);
}

/// What an event changes of the record of a session.
proof fn lemma_event_on_session(run: RunView, event: RunEvent, i: int)
    requires
        run.sound(),
        run.asks_for(event),
        0 <= i < run.states.len(),
    ensures
        ({
            let old_state = run.states[i];
            let state = run.after(event).states[i];
            &&& match run.counts(event, i) {
                Some(count) => {
                    &&& state.last_message_count == count
                    &&& state.last_change == (if run.phase is Counting || count
                        == old_state.last_message_count {
                        old_state.last_change
                    } else {
                        event.now()
                    })
                },
                None => state.last_message_count == old_state.last_message_count
                    && state.last_change == old_state.last_change,
            }
            &&& !old_state.completed && state.completed ==> {
                ||| run.sees_marker(event, i)
                ||| {
                    &&& run.phase !is Counting
                    &&& run.counts(event, i) is Some
                    &&& state.last_change == old_state.last_change
                    &&& run.idle(old_state, event.now())
                }
            }
        }),
{
    reveal(RunView::after);
}

/// What the proof carries from event to event.
spec fn accounted(run: RunView, events: Seq<RunEvent>) -> bool {
    let now = run.after_events(events);
    &&& now.sound()
    &&& now.phase is Counting ==> forall|i: int|
        0 <= i < now.states.len() ==> (#[trigger] now.states[i]).last_change == run.started
    &&& continues(run, now)
    &&& forall|i: int|
        0 <= i < run.states.len() && #[trigger] counted(now, i) ==> exists|since: int|
            tracks(run, events, i, since)
    &&& forall|i: int|
        0 <= i < run.states.len() && (#[trigger] now.states[i]).completed ==> complete_for_cause(
            run,
            events,
            i,
        )
    &&& timed_out(now) <==> exists|k: int| woke_late(run, events, k)
    &&& forall|k: int| #[trigger]
        woke_late(run, events, k) ==> events.len() - (k + 1) + loads_left(now) <= 2
            * run.states.len()
    &&& forall|k: int, j: int|
        #![trigger woke_late(run, events, k), events[j]]
        woke_late(run, events, k) && k < j < events.len() ==> events[j] is Loaded
}

/// What is found at an event does not depend on the events after it.
proof fn lemma_prefix(run: RunView, events: Seq<RunEvent>)
    requires
        events.len() > 0,
    ensures
        forall|k: int|
            0 <= k < events.len() ==> #[trigger] before(run, events.drop_last(), k) == before(
                run,
                events,
                k,
            ),
        forall|i: int, k: int|
            0 <= k < events.len() - 1 ==> #[trigger] count_found(run, events.drop_last(), i, k)
                == count_found(run, events, i, k),
        forall|k: int|
            0 <= k < events.len() - 1 ==> #[trigger] counted_at(run, events.drop_last(), k)
                == counted_at(run, events, k),
        forall|k: int| #[trigger]
            woke_late(run, events.drop_last(), k) <==> k < events.len() - 1 && woke_late(
                run,
                events,
                k,
            ),
{
    let prev = events.drop_last();
    assert forall|k: int| 0 <= k < events.len() implies #[trigger] before(run, prev, k) == before(
        run,
        events,
        k,
    ) by {
        assert(prev.take(k) =~= events.take(k));
    }
    assert forall|i: int, k: int| 0 <= k < prev.len() implies #[trigger] count_found(
        run,
        prev,
        i,
        k,
    ) == count_found(run, events, i, k) by {
        assert(before(run, prev, k) == before(run, events, k));
    }
    assert forall|k: int| 0 <= k < prev.len() implies #[trigger] counted_at(run, prev, k)
        == counted_at(run, events, k) by {
        assert(before(run, prev, k) == before(run, events, k));
    }
}

/// A session that was complete for a cause still is.
proof fn lemma_cause_stays(run: RunView, events: Seq<RunEvent>, i: int)
    requires
        events.len() > 0,
        complete_for_cause(run, events.drop_last(), i),
    ensures
        complete_for_cause(run, events, i),
{
    let prev = events.drop_last();
    lemma_prefix(run, events);
    if exists|k: int| marker_found(run, prev, i, k) {
        let k = choose|k: int| marker_found(run, prev, i, k);
        assert(before(run, prev, k) == before(run, events, k));
        assert(marker_found(run, events, i, k));
    } else {
        let (since, k) = choose|since: int, k: int| was_idle(run, prev, i, since, k);
        assert(count_found(run, prev, i, since) == count_found(run, events, i, since));
        assert(counted_at(run, prev, since) == counted_at(run, events, since));
        assert forall|j: int|
            since <= j < k + 1 && (#[trigger] count_found(run, events, i, j)) is Some implies
            count_found(run, events, i, j) == count_found(run, events, i, since) by {
            assert(count_found(run, prev, i, j) == count_found(run, events, i, j));
        }
        assert(was_idle(run, events, i, since, k));
    }
}

/// The record of a session goes back to a count of its messages.
proof fn lemma_tracks(run: RunView, events: Seq<RunEvent>, i: int) -> (since: int)
    requires
        events.len() > 0,
        accounted(run, events.drop_last()),
        before(run, events, events.len() - 1).asks_for(events.last()),
        0 <= i < run.states.len(),
        counted(run.after_events(events), i),
    ensures
        tracks(run, events, i, since),
{
    let prev = events.drop_last();
    let last = events.len() - 1;
    lemma_prefix(run, events);
    assert(events.take(last) =~= prev);
    let then = run.after_events(prev);
    let event = events[last];
    assert(before(run, events, last) == then);
    assert(run.after_events(events) == then.after(event));
    lemma_event(then, event);
    lemma_event_on_session(then, event, i);
    let found = count_found(run, events, i, last);
    if found is Some && (then.phase is Counting || found != Some(
        then.states[i].last_message_count,
    )) {
        assert(count_kept(run, events, i, last, events.len() as int));
        assert(then.phase is Counting ==> then.states[i].last_change == run.started);
        last
    } else {
        assert(counted(then, i));
        let since = choose|since: int| tracks(run, prev, i, since);
        assert(count_found(run, prev, i, since) == count_found(run, events, i, since));
        assert(counted_at(run, prev, since) == counted_at(run, events, since));
        assert forall|j: int|
            since <= j < events.len() && (#[trigger] count_found(run, events, i, j)) is Some implies
            count_found(run, events, i, j) == count_found(run, events, i, since) by {
            if j < last {
                assert(count_found(run, prev, i, j) == count_found(run, events, i, j));
            }
        }
        assert(count_kept(run, events, i, since, events.len() as int));
        since
    }
}

/// A session that the last event completes is complete for a cause.
proof fn lemma_cause(run: RunView, events: Seq<RunEvent>, i: int)
    requires
        events.len() > 0,
        accounted(run, events.drop_last()),
        before(run, events, events.len() - 1).asks_for(events.last()),
        0 <= i < run.states.len(),
        run.after_events(events).states[i].completed,
    ensures
        complete_for_cause(run, events, i),
{
    let prev = events.drop_last();
    let last = events.len() - 1;
    assert(events.take(last) =~= prev);
    let then = run.after_events(prev);
    let event = events[last];
    assert(before(run, events, last) == then);
    assert(run.after_events(events) == then.after(event));
    lemma_event(then, event);
    lemma_event_on_session(then, event, i);
    if then.states[i].completed {
        lemma_cause_stays(run, events, i);
    } else if then.sees_marker(event, i) {
        assert(marker_found(run, events, i, last));
    } else {
        assert(counted(run.after_events(events), i));
        let since = lemma_tracks(run, events, i);
        assert(was_idle(run, events, i, since, last));
    }
}

/// A run tells of a timeout where it woke late, and does not sleep after that.
proof fn lemma_timeout(run: RunView, events: Seq<RunEvent>)
    requires
        events.len() > 0,
        accounted(run, events.drop_last()),
        before(run, events, events.len() - 1).asks_for(events.last()),
    ensures
        ({
            let now = run.after_events(events);
            &&& timed_out(now) <==> exists|k: int| woke_late(run, events, k)
            &&& forall|k: int| #[trigger]
                woke_late(run, events, k) ==> events.len() - (k + 1) + loads_left(now) <= 2
                    * run.states.len()
            &&& forall|k: int, j: int|
                #![trigger woke_late(run, events, k), events[j]]
                woke_late(run, events, k) && k < j < events.len() ==> events[j] is Loaded
        }),
{
    let prev = events.drop_last();
    let last = events.len() - 1;
    lemma_prefix(run, events);
    assert(events.take(last) =~= prev);
    let then = run.after_events(prev);
    let now = run.after_events(events);
    let event = events[last];
    assert(before(run, events, last) == then);
    assert(now == then.after(event));
    lemma_event(then, event);
    if timed_out(then) {
        let k = choose|k: int| woke_late(run, prev, k);
        assert(woke_late(run, events, k));
    } else if timed_out(now) {
        assert(woke_late(run, events, last));
    }
    assert forall|k: int| #[trigger] woke_late(run, events, k) implies timed_out(now)
        && events.len() - (k + 1) + loads_left(now) <= 2 * run.states.len() by {
        if k < last {
            assert(woke_late(run, prev, k));
            assert(timed_out(then));
        } else {
            assert(k == last);
            assert(then.expired(event.now()));
        }
    }
    assert forall|k: int, j: int|
        #![trigger woke_late(run, events, k), events[j]]
        woke_late(run, events, k) && k < j < events.len() implies events[j] is Loaded by {
        assert(woke_late(run, prev, k));
        assert(timed_out(then));
        if j < last {
            assert(prev[j] == events[j]);
        }
    }
}

proof fn lemma_accounted(request: AwaitRequestView, start: u128, events: Seq<RunEvent>)
    requires
        0 < request.session_ids.len() <= usize::MAX,
        performed(RunView::begun(request, start), events),
    ensures
        accounted(RunView::begun(request, start), events),
    decreases events.len(),
{
    let run = RunView::begun(request, start);
    let now = run.after_events(events);
    if events.len() > 0 {
        let prev = events.drop_last();
        let last = events.len() - 1;
        lemma_prefix(run, events);
        assert forall|k: int| 0 <= k < prev.len() implies (#[trigger] before(
            run,
            prev,
            k,
        )).asks_for(prev[k]) by {
            assert(before(run, events, k).asks_for(events[k]));
        }
        lemma_accounted(request, start, prev);
        let then = run.after_events(prev);
        assert(events.take(last) =~= prev);
        assert(before(run, events, last) == then);
        lemma_event(then, events[last]);
        lemma_timeout(run, events);
        if now.phase is Counting {
            assert forall|i: int| 0 <= i < now.states.len() implies (
            #[trigger] now.states[i]).last_change == run.started by {
                assert(then.states[i].last_change == run.started);
                lemma_event_on_session(then, events[last], i);
            }
        }
        assert forall|i: int| 0 <= i < run.states.len() && #[trigger] counted(now, i) implies exists|
            since: int,
        | tracks(run, events, i, since) by {
            let since = lemma_tracks(run, events, i);
            assert(tracks(run, events, i, since));
        }
        assert forall|i: int|
            0 <= i < run.states.len() && (#[trigger] now.states[i]).completed implies
            complete_for_cause(run, events, i) by {
            lemma_cause(run, events, i);
        }
    }
}

proof fn lemma_none_pending(states: Seq<PollView>)
    requires
        forall|i: int| 0 <= i < states.len() ==> (#[trigger] states[i]).completed,
    ensures
        pending_ids(states).len() == 0,
    decreases states.len(),
{
    if states.len() > 0 {
        assert forall|i: int| 0 <= i < states.len() - 1 implies (
        #[trigger] states.drop_last()[i]).completed by {
            assert(states[i].completed);
        }
        assert(states[states.len() - 1].completed);
        lemma_none_pending(states.drop_last());
    }
}

/// Whatever comes of its actions, a run of the tool keeps this from the request
/// to the answer.
///
/// - It tracks the sessions of the request, in order.
/// - A session counts as complete only where its last message held a completion
///   marker at some look, or where it was found at some look to have kept its
///   message count for the idle timeout.
/// - The answer is a success that reports on the sessions, with the messages of
///   each complete one. It tells of a timeout
///   exactly where the run woke after the timeout. Else every session is
///   complete and none is pending, or, where the run waits for the first one, at
///   least one is complete.
/// - The run sleeps for one poll interval at a time. Once it wakes after the
///   timeout it does not sleep again, and loads each session at most twice before
///   it answers.
pub proof fn law_of_a_whole_run(request: AwaitRequestView, start: u128, events: Seq<RunEvent>)
    requires
        0 < request.session_ids.len() <= usize::MAX,
        performed(RunView::begun(request, start), events),
    ensures
        ({
            let run = RunView::begun(request, start);
            let now = run.after_events(events);
            let n = request.session_ids.len();
            &&& now.sound()
            &&& now.states.len() == n
            &&& forall|i: int|
                0 <= i < n ==> (#[trigger] now.states[i]).id == request.session_ids[i] && (
                now.states[i].completed ==> complete_for_cause(run, events, i))
            &&& timed_out(now) <==> exists|k: int| woke_late(run, events, k)
            &&& now.phase is Finished ==> {
                &&& now.histories.len() == completed_count(now.states)
                &&& now.action() == (ActionView::Reply {
                    result: success_of(report(now.states, now.histories, timed_out(now))),
                })
                &&& !timed_out(now) && request.wait_all ==> pending_ids(now.states).len() == 0
                    && forall|i: int| 0 <= i < n ==> (#[trigger] now.states[i]).completed
                &&& !timed_out(now) && !request.wait_all ==> exists|i: int|
                    0 <= i < n && (#[trigger] now.states[i]).completed
            }
            &&& forall|k: int|
                0 <= k < events.len() && (#[trigger] events[k]) is Slept ==> before(
                    run,
                    events,
                    k,
                ).action() == (ActionView::Sleep { secs: POLL_SECS })
            &&& forall|k: int, j: int|
                #![trigger woke_late(run, events, k), events[j]]
                woke_late(run, events, k) && k < j < events.len() ==> events[j] is Loaded
            &&& forall|k: int| #[trigger]
                woke_late(run, events, k) ==> events.len() - (k + 1) + loads_left(now) <= 2 * n
            &&& (exists|k: int| woke_late(run, events, k)) && loads_left(now) == 0
                ==> now.phase is Finished
        }),
{
    let run = RunView::begun(request, start);
    let now = run.after_events(events);
    lemma_accounted(request, start, events);
    if now.phase is Finished && !timed_out(now) && request.wait_all {
        lemma_none_pending(now.states);
    }
    assert forall|k: int| 0 <= k < events.len() && (#[trigger] events[k]) is Slept implies before(
        run,
        events,
        k,
    ).action() == (ActionView::Sleep { secs: POLL_SECS }) by {
        assert(before(run, events, k).asks_for(events[k]));
    }
}

} // verus!
