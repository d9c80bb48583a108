//! What the record of a session comes to.

use crate::session_logger::{after_message, after_start, can_count, end_of, SessionEventKind,
    SessionMap, SessionState};
use vstd::prelude::*;

verus! {

/// A message counts for every session on record, once, and does nothing else.
pub proof fn law_message_counts_for_every_session(sessions: SessionMap, id: Seq<char>)
    ensures
        after_message(sessions).contains_key(id) <==> sessions.contains_key(id),
        sessions.contains_key(id) && sessions[id].message_count < u64::MAX ==> {
            &&& after_message(sessions)[id].message_count == sessions[id].message_count + 1
            &&& after_message(sessions)[id].started_at == sessions[id].started_at
        },
{
}

/// A message can be counted exactly where no session on record has counted as
/// many as a counter can hold; a session that has just started is never one.
pub proof fn law_room_for_messages(sessions: SessionMap, id: Seq<char>, now: u128)
    ensures
        can_count(sessions) <==> !exists|other: Seq<char>|
            sessions.contains_key(other) && (#[trigger] sessions[other]).message_count
                >= 0xffff_ffff_ffff_ffffu64,
        can_count(Map::empty()),
        can_count(sessions) ==> can_count(after_start(sessions, id, now)) && can_count(
            sessions.remove(id),
        ),
{
    let started = after_start(sessions, id, now);
    let ended = sessions.remove(id);
    if can_count(sessions) {
        assert forall|other: Seq<char>| started.contains_key(other) implies (
        #[trigger] started[other]).message_count < u64::MAX by {
            if other != id {
                assert(started[other] == sessions[other]);
            }
        }
        assert forall|other: Seq<char>| ended.contains_key(other) implies (
        #[trigger] ended[other]).message_count < u64::MAX by {
            assert(ended[other] == sessions[other]);
        }
    }
}

/// A session that starts is on record with the time of its start and without
/// messages, whatever was on record of it.
pub proof fn law_start_is_recorded(sessions: SessionMap, id: Seq<char>, now: u128)
    ensures
        after_start(sessions, id, now).contains_key(id),
        after_start(sessions, id, now)[id] == (SessionState { started_at: now, message_count: 0 }),
{
}

/// The end of a session on record is logged with its messages and with the whole
/// seconds since its start: as many as fit in the time, and no more.
pub proof fn law_end_tells_whole_seconds(sessions: SessionMap, id: Seq<char>, now: u128)
    ensures
        !sessions.contains_key(id) ==> end_of(sessions, id, now)
            == SessionEventKind::EndedWithoutStart,
        sessions.contains_key(id) ==> (end_of(sessions, id, now) matches SessionEventKind::Ended {
            duration_secs,
            message_count,
        } && {
            &&& message_count == sessions[id].message_count
            &&& sessions[id].started_at <= now ==> duration_secs * 1_000_000_000 <= now
                - sessions[id].started_at < (duration_secs + 1) * 1_000_000_000
            &&& sessions[id].started_at >= now ==> duration_secs == 0
        }),
{
}

/// What happens to the sessions.
pub enum Happening {
    Started { id: Seq<char>, now: u128 },
    Ended { id: Seq<char> },
    Sent,
}

/// The sessions on record after some happenings, in order.
pub open spec fn after_happenings(sessions: SessionMap, happenings: Seq<Happening>) -> SessionMap
    decreases happenings.len(),
{
    if happenings.len() == 0 {
        sessions
    } else {
        let before = after_happenings(sessions, happenings.drop_last());
        match happenings.last() {
            Happening::Started { id, now } => after_start(before, id, now),
            Happening::Ended { id } => before.remove(id),
            Happening::Sent => after_message(before),
        }
    }
}

/// The happening is the start or the end of a session.
pub open spec fn concerns(happening: Happening, id: Seq<char>) -> bool {
    match happening {
        Happening::Started { id: other, .. } => other == id,
        Happening::Ended { id: other } => other == id,
        Happening::Sent => false,
    }
}

/// A session stays on record with the time of its start, and counts each message
/// that is sent, whatever other sessions start or end meanwhile.
pub proof fn law_session_counts_the_messages_since_its_start(
    sessions: SessionMap,
    id: Seq<char>,
    started: u128,
    happenings: Seq<Happening>,
)
    requires
        forall|k: int| 0 <= k < happenings.len() ==> !concerns(#[trigger] happenings[k], id),
        happenings.len() <= u64::MAX,
    ensures
        ({
            let after = after_happenings(after_start(sessions, id, started), happenings);
            let sent = happenings.filter(|h: Happening| h is Sent).len();
            &&& after.contains_key(id)
            &&& after[id].started_at == started
            &&& after[id].message_count == sent
            &&& sent <= happenings.len()
        }),
    decreases happenings.len(),
{
    reveal_with_fuel(Seq::filter, 2);
    if happenings.len() > 0 {
        let prev = happenings.drop_last();
        assert forall|k: int| 0 <= k < prev.len() implies !concerns(#[trigger] prev[k], id) by {
            assert(prev[k] == happenings[k]);
        }
        law_session_counts_the_messages_since_its_start(sessions, id, started, prev);
        assert(!concerns(happenings[happenings.len() - 1], id));
    }
}

} // verus!
