//! Logs session lifecycle events (start, end) with duration and message count.

use crate::clock::{nanos_between, time_between, Clock};
use crate::text::same_text;
use vstd::prelude::*;

verus! {

/// Start time and message count of one session.
#[derive(Debug, Clone, Copy)]
pub struct SessionState {
    /// When the session started, in nanoseconds of the clock.
    pub started_at: u128,
    /// Messages sent since then.
    pub message_count: u64,
}

/// What happened to a session.
#[derive(Debug, Clone, Copy, PartialEq, Eq, Structural)]
pub enum SessionEventKind {
    /// The session started.
    Started,
    /// The session ended.
    Ended { duration_secs: u128, message_count: u64 },
    /// The session ended, and no start of it is on record.
    EndedWithoutStart,
}

/// A line for the log.
#[derive(Debug, Clone)]
pub struct SessionEvent {
    pub session_id: String,
    pub channel: String,
    pub kind: SessionEventKind,
}

/// What a line for the log says.
pub struct SessionEventView {
    pub session_id: Seq<char>,
    pub channel: Seq<char>,
    pub kind: SessionEventKind,
}

impl View for SessionEvent {
    type V = SessionEventView;

    open spec fn view(&self) -> SessionEventView {
        SessionEventView {
            session_id: self.session_id@,
            channel: self.channel@,
            kind: self.kind,
        }
    }
}

/// The sessions on record, by their IDs.
pub type SessionMap = Map<Seq<char>, SessionState>;

/// The whole seconds of a time in nanoseconds.
pub open spec fn whole_seconds(nanos: int) -> int {
    nanos / 1_000_000_000
}

/// What the end of a session at `now` is logged as.
pub open spec fn end_of(sessions: SessionMap, id: Seq<char>, now: u128) -> SessionEventKind {
    if sessions.contains_key(id) {
        SessionEventKind::Ended {
            duration_secs: whole_seconds(
                time_between(sessions[id].started_at as int, now as int),
            ) as u128,
            message_count: sessions[id].message_count,
        }
    } else {
        SessionEventKind::EndedWithoutStart
    }
}

/// The record of a session after one more message.
pub open spec fn one_more(state: SessionState) -> SessionState {
    SessionState {
        started_at: state.started_at,
        message_count: (state.message_count + 1) as u64,
    }
}

/// The sessions on record after one more message.
pub open spec fn after_message(sessions: SessionMap) -> SessionMap {
    sessions.map_values(|state: SessionState| one_more(state))
}

/// The sessions on record after a session started at `now`.
pub open spec fn after_start(sessions: SessionMap, id: Seq<char>, now: u128) -> SessionMap {
    sessions.insert(id, SessionState { started_at: now, message_count: 0 })
}

/// Every session on record has room to count one more message.
pub open spec fn can_count(sessions: SessionMap) -> bool {
    forall|id: Seq<char>|
        sessions.contains_key(id) ==> (#[trigger] sessions[id]).message_count < u64::MAX
}

#[derive(Debug)]
struct SessionEntry {
    id: String,
    state: SessionState,
}

/// No two entries have one ID.
spec fn distinct(entries: Seq<SessionEntry>) -> bool {
    forall|i: int, j: int|
        #![trigger entries[i], entries[j]]
        0 <= i < j < entries.len() ==> entries[i].id@ != entries[j].id@
}

/// The map that a list of entries with distinct IDs stands for.
spec fn map_of(entries: Seq<SessionEntry>) -> SessionMap
    decreases entries.len(),
{
    if entries.len() == 0 {
        Map::empty()
    } else {
        map_of(entries.drop_last()).insert(entries.last().id@, entries.last().state)
    }
}

proof fn lemma_map_of(entries: Seq<SessionEntry>)
    requires
        distinct(entries),
    ensures
        forall|i: int|
            0 <= i < entries.len() ==> map_of(entries).contains_key((#[trigger] entries[i]).id@)
                && map_of(entries)[entries[i].id@] == entries[i].state,
        forall|id: Seq<char>|
            map_of(entries).contains_key(id) ==> exists|i: int|
                0 <= i < entries.len() && (#[trigger] entries[i]).id@ == id,
    decreases entries.len(),
{
    if entries.len() > 0 {
        let init = entries.drop_last();
        lemma_map_of(init);
        assert forall|i: int| 0 <= i < entries.len() implies map_of(entries).contains_key(
            (#[trigger] entries[i]).id@,
        ) && map_of(entries)[entries[i].id@] == entries[i].state by {
            if i < init.len() {
                assert(init[i] == entries[i]);
            }
        }
        assert forall|id: Seq<char>| map_of(entries).contains_key(id) implies exists|i: int|
            0 <= i < entries.len() && (#[trigger] entries[i]).id@ == id by {
            if id == entries.last().id@ {
                assert(entries[entries.len() - 1].id@ == id);
            } else {
                assert(map_of(init).contains_key(id));
                let i = choose|i: int| 0 <= i < init.len() && (#[trigger] init[i]).id@ == id;
                assert(entries[i].id@ == id);
            }
        }
    }
}

/// Tracks the active sessions and tells what to log of them.
pub struct SessionLoggerHook {
    clock: Clock,
    sessions: Vec<SessionEntry>,
}

impl View for SessionLoggerHook {
    type V = SessionMap;

    closed spec fn view(&self) -> SessionMap {
        map_of(self.sessions@)
    }
}

impl SessionLoggerHook {
    /// Each session is on record once.
    pub closed spec fn sound(&self) -> bool {
        distinct(self.sessions@)
    }

    /// The clock that the hook reads.
    pub closed spec fn clock(&self) -> Clock {
        self.clock
    }

    /// A hook with no session on record.
    pub fn new() -> (hook: Self)
        ensures
            hook.sound(),
            hook.clock().started(),
            hook@ == Map::<Seq<char>, SessionState>::empty(),
    {
        SessionLoggerHook { clock: Clock::start(), sessions: Vec::new() }
    }

    /// The name of the hook.
    pub fn name(&self) -> (name: &'static str)
        ensures
            name@ == "session-logger"@,
    {
        "session-logger"
    }

    /// The priority of the hook.
    pub fn priority(&self) -> (priority: i32)
        ensures
            priority == -50,
    {
        -50
    }

    fn position(&self, session_id: &str) -> (at: Option<usize>)
        requires
            self.sound(),
        ensures
            match at {
                Some(i) => i < self.sessions@.len() && self.sessions@[i as int].id@ == session_id@
                    && self@.contains_key(session_id@) && self@[session_id@]
                    == self.sessions@[i as int].state,
                None => !self@.contains_key(session_id@),
            },
    {
        proof {
            lemma_map_of(self.sessions@);
        }
        let mut i: usize = 0;
        while i < self.sessions.len()
            invariant
                self.sound(),
                i <= self.sessions@.len(),
                forall|j: int| 0 <= j < i ==> (#[trigger] self.sessions@[j]).id@ != session_id@,
            decreases self.sessions@.len() - i,
        {
            if same_text(self.sessions[i].id.as_str(), session_id) {
                proof {
                    lemma_map_of(self.sessions@);
                }
                return Some(i);
            }
            i = i + 1;
        }
        None
    }

    /// What is on record of a session.
    pub fn session(&self, session_id: &str) -> (state: Option<SessionState>)
        requires
            self.sound(),
        ensures
            state == (if self@.contains_key(session_id@) {
                Some(self@[session_id@])
            } else {
                None
            }),
    {
        match self.position(session_id) {
            Some(i) => Some(self.sessions[i].state),
            None => None,
        }
    }

    /// A session starts: it goes on record without messages, in place of what
    /// was on record of it.
    pub fn on_session_start(&mut self, session_id: &str, channel: &str) -> (event: SessionEvent)
        requires
            old(self).sound(),
        ensures
            final(self).sound(),
            final(self).clock() == old(self).clock(),
            exists|now: u128|
                old(self).clock().can_read(now) && final(self)@ == #[trigger] after_start(
                    old(self)@,
                    session_id@,
                    now,
                ),
            event@ == (SessionEventView {
                session_id: session_id@,
                channel: channel@,
                kind: SessionEventKind::Started,
            }),
    {
        let now = self.clock.read();
        self.on_session_start_at(session_id, channel, now)
    }

    /// A session starts at `now`, in nanoseconds of the clock.
    pub fn on_session_start_at(&mut self, session_id: &str, channel: &str, now: u128) -> (event:
        SessionEvent)
        requires
            old(self).sound(),
        ensures
            final(self).sound(),
            final(self).clock() == old(self).clock(),
            final(self)@ == after_start(old(self)@, session_id@, now),
            event@ == (SessionEventView {
                session_id: session_id@,
                channel: channel@,
                kind: SessionEventKind::Started,
            }),
    {
        let state = SessionState { started_at: now, message_count: 0 };
        match self.position(session_id) {
            Some(i) => {
                let entry = SessionEntry { id: session_id.to_owned(), state };
                self.sessions.set(i, entry);
                proof {
                    let before = old(self).sessions@;
                    let after = self.sessions@;
                    assert(distinct(after));
                    lemma_map_of(before);
                    lemma_map_of(after);
                    let expected = after_start(old(self)@, session_id@, now);
                    assert forall|id: Seq<char>| expected.contains_key(id) implies #[trigger] map_of(
                        after,
                    ).contains_key(id) && map_of(after)[id] == expected[id] by {
                        if id == session_id@ {
                            assert(after[i as int].id@ == id);
                        } else {
                            let k = choose|k: int|
                                0 <= k < before.len() && (#[trigger] before[k]).id@ == id;
                            assert(after[k] == before[k]);
                        }
                    }
                    assert forall|id: Seq<char>| map_of(after).contains_key(
                        id,
                    ) implies #[trigger] expected.contains_key(id) by {
                        let k = choose|k: int|
                            0 <= k < after.len() && (#[trigger] after[k]).id@ == id;
                        assert(before[k].id@ == id);
                    }
                    assert(map_of(after) =~= expected);
                }
            },
            None => {
                let entry = SessionEntry { id: session_id.to_owned(), state };
                self.sessions.push(entry);
                proof {
                    let before = old(self).sessions@;
                    let after = self.sessions@;
                    lemma_map_of(before);
                    assert forall|i: int, j: int|
                        #![trigger after[i], after[j]]
                        0 <= i < j < after.len() implies after[i].id@ != after[j].id@ by {
                        assert(after[i] == before[i]);
                        if j < before.len() {
                            assert(after[j] == before[j]);
                        }
                    }
                    assert(after.drop_last() =~= before);
                }
            },
        }
        SessionEvent {
            session_id: session_id.to_owned(),
            channel: channel.to_owned(),
            kind: SessionEventKind::Started,
        }
    }

    /// A session ends: it goes off the record, and the log tells how long it
    /// lasted and how many messages it saw, where its start is on record.
    pub fn on_session_end(&mut self, session_id: &str, channel: &str) -> (event: SessionEvent)
        requires
            old(self).sound(),
        ensures
            final(self).sound(),
            final(self).clock() == old(self).clock(),
            final(self)@ == old(self)@.remove(session_id@),
            event@.session_id == session_id@,
            event@.channel == channel@,
            exists|now: u128|
                old(self).clock().can_read(now) && event@.kind == #[trigger] end_of(
                    old(self)@,
                    session_id@,
                    now,
                ),
    {
        let now = self.clock.read();
        self.on_session_end_at(session_id, channel, now)
    }

    /// A session ends at `now`, in nanoseconds of the clock.
    pub fn on_session_end_at(&mut self, session_id: &str, channel: &str, now: u128) -> (event:
        SessionEvent)
        requires
            old(self).sound(),
        ensures
            final(self).sound(),
            final(self).clock() == old(self).clock(),
            final(self)@ == old(self)@.remove(session_id@),
            event@ == (SessionEventView {
                session_id: session_id@,
                channel: channel@,
                kind: end_of(old(self)@, session_id@, now),
            }),
    {
        let kind = match self.position(session_id) {
            Some(i) => {
                let entry = self.sessions.remove(i);
                proof {
                    let before = old(self).sessions@;
                    let after = self.sessions@;
                    assert(after =~= before.remove(i as int));
                    assert(distinct(after)) by {
                        assert forall|a: int, b: int|
                            #![trigger after[a], after[b]]
                            0 <= a < b < after.len() implies after[a].id@ != after[b].id@ by {
                            let x = if a < i { a } else { a + 1 };
                            let y = if b < i { b } else { b + 1 };
                            assert(before[x].id@ != before[y].id@);
                        }
                    }
                    lemma_map_of(before);
                    lemma_map_of(after);
                    let expected = old(self)@.remove(session_id@);
                    assert forall|id: Seq<char>| expected.contains_key(id) implies #[trigger] map_of(
                        after,
                    ).contains_key(id) && map_of(after)[id] == expected[id] by {
                        let k = choose|k: int|
                            0 <= k < before.len() && (#[trigger] before[k]).id@ == id;
                        let x = if k < i { k } else { k - 1 };
                        assert(after[x] == before[k]);
                    }
                    assert forall|id: Seq<char>| map_of(after).contains_key(
                        id,
                    ) implies #[trigger] expected.contains_key(id) by {
                        let k = choose|k: int|
                            0 <= k < after.len() && (#[trigger] after[k]).id@ == id;
                        let x = if k < i { k } else { k + 1 };
                        assert(before[x].id@ == id);
                        assert(before[i as int].id@ == session_id@);
                    }
                    assert(map_of(after) =~= expected);
                }
                SessionEventKind::Ended {
                    duration_secs: nanos_between(entry.state.started_at, now) / 1_000_000_000,
                    message_count: entry.state.message_count,
                }
            },
            None => {
                assert(self@ =~= old(self)@.remove(session_id@));
                SessionEventKind::EndedWithoutStart
            },
        };
        SessionEvent { session_id: session_id.to_owned(), channel: channel.to_owned(), kind }
    }

    /// Whether every session on record has room to count one more message.
    pub fn can_count_message(&self) -> (can: bool)
        requires
            self.sound(),
        ensures
            can == can_count(self@),
    {
        proof {
            lemma_map_of(self.sessions@);
        }
        let mut i: usize = 0;
        while i < self.sessions.len()
            invariant
                self.sound(),
                i <= self.sessions@.len(),
                forall|j: int|
                    0 <= j < i ==> (#[trigger] self.sessions@[j]).state.message_count < u64::MAX,
            decreases self.sessions@.len() - i,
        {
            if self.sessions[i].state.message_count == u64::MAX {
                proof {
                    lemma_map_of(self.sessions@);
                    let id = self.sessions@[i as int].id@;
                    assert(self@.contains_key(id));
                    assert(self@[id].message_count == u64::MAX);
                }
                return false;
            }
            i = i + 1;
        }
        proof {
            assert forall|id: Seq<char>| self@.contains_key(id) implies (
            #[trigger] self@[id]).message_count < u64::MAX by {
                let k = choose|k: int|
                    0 <= k < self.sessions@.len() && (#[trigger] self.sessions@[k]).id@ == id;
                assert(self.sessions@[k].state.message_count < u64::MAX);
            }
        }
        true
    }

    /// A message is sent: it counts for all active sessions.
    pub fn on_message_sent(&mut self, _channel: &str, _recipient: &str, _content: &str)
        requires
            old(self).sound(),
            can_count(old(self)@),
        ensures
            final(self).sound(),
            final(self).clock() == old(self).clock(),
            final(self)@ == after_message(old(self)@),
    {
        proof {
            lemma_map_of(self.sessions@);
        }
        let ghost before = self.sessions@;
        let n = self.sessions.len();
        let mut i: usize = 0;
        while i < n
            invariant
                n == before.len(),
                self.clock == old(self).clock,
                self.sessions@.len() == n,
                i <= n,
                forall|j: int|
                    0 <= j < n ==> (#[trigger] before[j]).state.message_count < u64::MAX,
                forall|j: int|
                    0 <= j < n ==> (#[trigger] self.sessions@[j]).id@ == before[j].id@,
                forall|j: int|
                    0 <= j < i ==> (#[trigger] self.sessions@[j]).state == one_more(
                        before[j].state,
                    ),
                forall|j: int|
                    i <= j < n ==> (#[trigger] self.sessions@[j]).state == before[j].state,
            decreases n - i,
        {
            let state = self.sessions[i].state;
            assert(before[i as int].state == state);
            self.sessions[i].state = SessionState {
                started_at: state.started_at,
                message_count: state.message_count + 1,
            };
            i = i + 1;
        }
        proof {
            let after = self.sessions@;
            assert(distinct(after)) by {
                assert forall|a: int, b: int|
                    #![trigger after[a], after[b]]
                    0 <= a < b < after.len() implies after[a].id@ != after[b].id@ by {
                    assert(before[a].id@ != before[b].id@);
                }
            }
            lemma_map_of(after);
            let expected = after_message(old(self)@);
            assert forall|id: Seq<char>| expected.contains_key(id) implies #[trigger] map_of(
                after,
            ).contains_key(id) && map_of(after)[id] == expected[id] by {
                let k = choose|k: int| 0 <= k < before.len() && (#[trigger] before[k]).id@ == id;
                assert(after[k].id@ == id);
            }
            assert forall|id: Seq<char>| map_of(after).contains_key(
                id,
            ) implies #[trigger] expected.contains_key(id) by {
                let k = choose|k: int| 0 <= k < after.len() && (#[trigger] after[k]).id@ == id;
                assert(before[k].id@ == id);
            }
            assert(map_of(after) =~= expected);
        }
    }
}

/// The sessions on record after `n` more messages.
pub open spec fn after_messages(sessions: SessionMap, n: nat) -> SessionMap
    decreases n,
{
    if n == 0 {
        sessions
    } else {
        after_message(after_messages(sessions, (n - 1) as nat))
    }
}

proof fn lemma_messages_count(sessions: SessionMap, id: Seq<char>, n: nat)
    requires
        sessions.contains_key(id),
        sessions[id].message_count + n <= u64::MAX,
    ensures
        after_messages(sessions, n).contains_key(id),
        after_messages(sessions, n)[id].started_at == sessions[id].started_at,
        after_messages(sessions, n)[id].message_count == sessions[id].message_count + n,
    decreases n,
{
    if n > 0 {
        lemma_messages_count(sessions, id, (n - 1) as nat);
    }
}

/// The end of a session is logged with the time since its start and with the
/// number of messages sent in between.
pub proof fn law_end_tells_of_the_whole_session(
    sessions: SessionMap,
    id: Seq<char>,
    started: u128,
    n: nat,
    ended: u128,
)
    requires
        n <= u64::MAX,
    ensures
        end_of(after_messages(after_start(sessions, id, started), n), id, ended) == (
        SessionEventKind::Ended {
            duration_secs: whole_seconds(time_between(started as int, ended as int)) as u128,
            message_count: n as u64,
        }),
{
    lemma_messages_count(after_start(sessions, id, started), id, n);
}

/// A session that ended is off the record: a second end finds no start.
pub proof fn law_ended_session_is_forgotten(sessions: SessionMap, id: Seq<char>, now: u128)
    ensures
        !sessions.remove(id).contains_key(id),
        end_of(sessions.remove(id), id, now) == SessionEventKind::EndedWithoutStart,
{
}

/// The start and the end of one session leave every other one as it was.
pub proof fn law_sessions_are_independent(
    sessions: SessionMap,
    id: Seq<char>,
    other: Seq<char>,
    now: u128,
)
    requires
        id != other,
    ensures
        after_start(sessions, id, now).contains_key(other) == sessions.contains_key(other),
        sessions.contains_key(other) ==> after_start(sessions, id, now)[other] == sessions[other],
        sessions.remove(id).contains_key(other) == sessions.contains_key(other),
        sessions.contains_key(other) ==> sessions.remove(id)[other] == sessions[other],
{
}

} // verus!
