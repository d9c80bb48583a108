//! A run of the `sessions_await` tool, as a state machine.
//!
//! The run names its next action: load the messages of a session, sleep, or
//! give the answer. Whoever performs the action tells the run of the outcome
//! and of the time, in nanoseconds of one clock.

use super::history::last_messages;
use super::waiting::{AwaitRequest, AwaitRequestView};
use super::{completed_by_marker, has_completion_marker, push_transcript, transcript};
use crate::clock::{nanos_between, time_between};
use crate::message::{message_views, ChatMessage, MessageView};
use crate::text::{decimal, decimal_text, has_part, joined, lemma_has_in_longer,
    lemma_part_stands_in};
use crate::tool::{success_of, ToolResult, ToolResultView};
use vstd::prelude::*;

verus! {

/// Seconds between two looks at the sessions.
pub const POLL_SECS: u64 = 2;

/// The last messages of a session that a report shows.
pub const REPORTED_MESSAGES: usize = 5;

/// Nanoseconds in a second.
pub const NANOS_PER_SEC: u128 = 1_000_000_000;

/// Per-session tracking state.
#[derive(Debug, Clone)]
pub struct SessionPollState {
    pub id: String,
    pub last_message_count: usize,
    /// When the message count last changed, in nanoseconds of the clock.
    pub last_change: u128,
    pub completed: bool,
}

/// What is tracked of a session.
pub struct PollView {
    pub id: Seq<char>,
    pub last_message_count: nat,
    pub last_change: u128,
    pub completed: bool,
}

impl View for SessionPollState {
    type V = PollView;

    open spec fn view(&self) -> PollView {
        PollView {
            id: self.id@,
            last_message_count: self.last_message_count as nat,
            last_change: self.last_change,
            completed: self.completed,
        }
    }
}

/// What is tracked of the sessions of a run.
pub open spec fn poll_views(states: Seq<SessionPollState>) -> Seq<PollView> {
    Seq::new(states.len(), |i: int| states[i]@)
}

/// The messages of the sessions of a report.
pub open spec fn history_views(histories: Seq<Vec<ChatMessage>>) -> Seq<Seq<MessageView>> {
    Seq::new(histories.len(), |i: int| message_views(histories[i]@))
}

/// How many of the sessions are complete.
pub open spec fn completed_count(states: Seq<PollView>) -> nat
    decreases states.len(),
{
    if states.len() == 0 {
        0
    } else {
        completed_count(states.drop_last()) + if states.last().completed {
            1nat
        } else {
            0nat
        }
    }
}

/// The IDs of the sessions that are not complete.
pub open spec fn pending_ids(states: Seq<PollView>) -> Seq<Seq<char>>
    decreases states.len(),
{
    if states.len() == 0 {
        Seq::empty()
    } else if states.last().completed {
        pending_ids(states.drop_last())
    } else {
        pending_ids(states.drop_last()).push(states.last().id)
    }
}

/// The part of a report on one completed session: its ID and its last messages.
pub open spec fn report_section(id: Seq<char>, messages: Seq<MessageView>) -> Seq<char> {
    "\n--- "@ + id + " ---\n"@ + transcript(last_messages(messages, REPORTED_MESSAGES as nat))
}

/// The part of a report on the completed sessions, in order; `histories` holds
/// the messages of each of them.
pub open spec fn report_sections(
    states: Seq<PollView>,
    histories: Seq<Seq<MessageView>>,
) -> Seq<char>
    decreases states.len(),
{
    if states.len() == 0 {
        Seq::empty()
    } else if states.last().completed {
        report_sections(states.drop_last(), histories.drop_last()) + report_section(
            states.last().id,
            histories.last(),
        )
    } else {
        report_sections(states.drop_last(), histories)
    }
}

/// The first line of a report.
pub open spec fn report_head(states: Seq<PollView>, timed_out: bool) -> Seq<char> {
    if timed_out {
        "Timeout reached. "@ + decimal(completed_count(states)) + "/"@ + decimal(states.len())
            + " session(s) completed.\n"@
    } else {
        decimal(completed_count(states)) + " session(s) completed.\n"@
    }
}

/// The last line of a report, where there are sessions left.
pub open spec fn report_tail(states: Seq<PollView>) -> Seq<char> {
    if pending_ids(states).len() > 0 {
        "\nPending sessions: "@ + joined(pending_ids(states), ", "@) + "\n"@
    } else {
        Seq::empty()
    }
}

/// A report on the sessions of a run.
pub open spec fn report(
    states: Seq<PollView>,
    histories: Seq<Seq<MessageView>>,
    timed_out: bool,
) -> Seq<char> {
    report_head(states, timed_out) + report_sections(states, histories) + report_tail(states)
}

fn count_completed(states: &Vec<SessionPollState>) -> (count: usize)
    ensures
        count == completed_count(poll_views(states@)),
{
    let ghost views = poll_views(states@);
    let mut count: usize = 0;
    let mut i: usize = 0;
    while i < states.len()
        invariant
            i <= states@.len(),
            views == poll_views(states@),
            count <= i,
            count == completed_count(views.take(i as int)),
        decreases states@.len() - i,
    {
        assert(views.take(i + 1).drop_last() =~= views.take(i as int));
        assert(views.take(i + 1).last() == states@[i as int]@);
        if states[i].completed {
            count = count + 1;
        }
        i = i + 1;
    }
    assert(views.take(views.len() as int) =~= views);
    count
}

/// The IDs of the sessions that are not complete, with commas between them,
/// where there are any.
fn pending_text(states: &Vec<SessionPollState>) -> (text: Option<String>)
    ensures
        match text {
            Some(t) => pending_ids(poll_views(states@)).len() > 0 && t@ == joined(
                pending_ids(poll_views(states@)),
                ", "@,
            ),
            None => pending_ids(poll_views(states@)).len() == 0,
        },
{
    let ghost views = poll_views(states@);
    let mut text = String::new();
    let mut any = false;
    let mut i: usize = 0;
    while i < states.len()
        invariant
            i <= states@.len(),
            views == poll_views(states@),
            any == (pending_ids(views.take(i as int)).len() > 0),
            text@ == joined(pending_ids(views.take(i as int)), ", "@),
        decreases states@.len() - i,
    {
        let ghost before = pending_ids(views.take(i as int));
        assert(views.take(i + 1).drop_last() =~= views.take(i as int));
        assert(views.take(i + 1).last() == states@[i as int]@);
        if !states[i].completed {
            assert(before.push(states@[i as int].id@).drop_last() =~= before);
            if any {
                text.append(", ");
            }
            text.append(states[i].id.as_str());
            assert(!any ==> text@ =~= states@[i as int].id@);
            any = true;
        }
        i = i + 1;
    }
    assert(views.take(views.len() as int) =~= views);
    if any {
        Some(text)
    } else {
        None
    }
}

fn report_section_text(id: &str, messages: &Vec<ChatMessage>) -> (text: String)
    ensures
        text@ == report_section(id@, message_views(messages@)),
{
    let mut text = "\n--- ".to_owned();
    text.append(id);
    text.append(" ---\n");
    let start: usize = if messages.len() > REPORTED_MESSAGES {
        messages.len() - REPORTED_MESSAGES
    } else {
        0
    };
    let ghost views = message_views(messages@);
    assert(views.skip(start as int) =~= last_messages(views, REPORTED_MESSAGES as nat));
    push_transcript(&mut text, messages, start);
    text
}

/// Build a human-readable summary of the final messages of the completed
/// sessions; `histories` holds the messages of each of them.
pub fn format_completed_sessions(
    histories: &Vec<Vec<ChatMessage>>,
    states: &Vec<SessionPollState>,
    timed_out: bool,
) -> (output: String)
    requires
        histories@.len() == completed_count(poll_views(states@)),
    ensures
        output@ == report(poll_views(states@), history_views(histories@), timed_out),
{
    let ghost views = poll_views(states@);
    let ghost all = history_views(histories@);
    let count = count_completed(states);
    let mut output = if timed_out {
        let mut head = "Timeout reached. ".to_owned();
        head.append(decimal_text(count).as_str());
        head.append("/");
        head.append(decimal_text(states.len()).as_str());
        head.append(" session(s) completed.\n");
        head
    } else {
        let mut head = decimal_text(count);
        head.append(" session(s) completed.\n");
        head
    };
    let ghost head = output@;
    let total = histories.len();
    let mut seen: usize = 0;
    let mut i: usize = 0;
    assert(views.take(0) =~= Seq::empty());
    assert(head =~= head + Seq::<char>::empty());
    while i < states.len()
        invariant
            i <= states@.len(),
            views == poll_views(states@),
            all == history_views(histories@),
            total == histories@.len() == completed_count(views),
            seen == completed_count(views.take(i as int)),
            output@ == head + report_sections(views.take(i as int), all.take(seen as int)),
        decreases states@.len() - i,
    {
        proof {
            assert(views.take(i + 1).drop_last() =~= views.take(i as int));
            assert(views.take(i + 1).last() == states@[i as int]@);
            lemma_completed_count_take(views, i + 1);
        }
        if states[i].completed {
            output.append(report_section_text(states[i].id.as_str(), &histories[seen]).as_str());
            proof {
                assert(all.take(seen + 1).drop_last() =~= all.take(seen as int));
                assert(all.take(seen + 1).last() == message_views(histories@[seen as int]@));
                assert(output@ =~= head + (report_sections(
                    views.take(i as int),
                    all.take(seen as int),
                ) + report_section(
                    states@[i as int].id@,
                    message_views(histories@[seen as int]@),
                )));
            }
            seen = seen + 1;
        }
        i = i + 1;
    }
    assert(views.take(views.len() as int) =~= views);
    assert(all.take(all.len() as int) =~= all);
    match pending_text(states) {
        Some(ids) => {
            let mut tail = "\nPending sessions: ".to_owned();
            tail.append(ids.as_str());
            tail.append("\n");
            output.append(tail.as_str());
        },
        None => {
            assert(output@ =~= output@ + Seq::<char>::empty());
        },
    }
    output
}

/// The completed sessions among the first ones are at most those of all.
proof fn lemma_completed_count_take(states: Seq<PollView>, k: int)
    requires
        0 <= k <= states.len(),
    ensures
        completed_count(states.take(k)) <= completed_count(states),
    decreases states.len() - k,
{
    if k < states.len() {
        lemma_completed_count_take(states, k + 1);
        assert(states.take(k + 1).drop_last() =~= states.take(k));
    } else {
        assert(states.take(k) =~= states);
    }
}

/// Where a run stands.
#[derive(Debug, Clone, Copy, PartialEq, Eq, Structural)]
pub enum AwaitPhase {
    /// The messages of a session are loaded to be counted, before the wait.
    Counting { next: usize },
    /// The messages of a session are loaded to look for a completion marker,
    /// before the wait.
    Marking { next: usize },
    /// The run waits for the next look at the sessions.
    Sleeping,
    /// The messages of a session are loaded to look for a completion marker.
    Checking { next: usize },
    /// The messages of a session are loaded to see whether there are new ones.
    Recounting { next: usize },
    /// The time is up, and the messages of a session are loaded to see whether
    /// there are new ones, before the report.
    Closing { next: usize },
    /// The messages of a completed session are loaded for the report.
    Reporting { next: usize, timed_out: bool },
    /// The report is complete.
    Finished { timed_out: bool },
}

/// What a run asks for.
#[derive(Debug, Clone)]
pub enum AwaitAction {
    /// Load the messages of a session.
    Load { session_id: String },
    /// Sleep for some seconds.
    Sleep { secs: u64 },
    /// Give the answer.
    Reply { result: ToolResult },
}

/// What a run asks for, with the texts.
pub enum ActionView {
    Load { session_id: Seq<char> },
    Sleep { secs: u64 },
    Reply { result: ToolResultView },
}

impl View for AwaitAction {
    type V = ActionView;

    open spec fn view(&self) -> ActionView {
        match self {
            AwaitAction::Load { session_id } => ActionView::Load { session_id: session_id@ },
            AwaitAction::Sleep { secs } => ActionView::Sleep { secs: *secs },
            AwaitAction::Reply { result } => ActionView::Reply { result: result@ },
        }
    }
}

/// The first session from position `from` on whose completion is `completed`.
pub open spec fn next_with(states: Seq<PollView>, from: int, completed: bool) -> Option<int>
    decreases states.len() - from,
{
    if from < 0 || from >= states.len() {
        None
    } else if states[from].completed == completed {
        Some(from)
    } else {
        next_with(states, from + 1, completed)
    }
}

/// A run, with what it tracks and where it stands.
pub struct RunView {
    pub states: Seq<PollView>,
    /// Whether to wait for every session, or just for the first one.
    pub wait_all: bool,
    /// When the run began, in nanoseconds of the clock.
    pub started: u128,
    pub timeout_secs: u64,
    pub idle_timeout_secs: u64,
    pub phase: AwaitPhase,
    /// The messages of the completed sessions loaded for the report so far.
    pub histories: Seq<Seq<MessageView>>,
}

impl RunView {
    /// The run that a request begins at `now`.
    pub open spec fn begun(request: AwaitRequestView, now: u128) -> Self {
        RunView {
            states: Seq::new(
                request.session_ids.len(),
                |i: int|
                    PollView {
                        id: request.session_ids[i],
                        last_message_count: 0,
                        last_change: now,
                        completed: false,
                    },
            ),
            wait_all: request.wait_all,
            started: now,
            timeout_secs: request.timeout_secs,
            idle_timeout_secs: request.idle_timeout_secs,
            phase: AwaitPhase::Counting { next: 0 },
            histories: Seq::empty(),
        }
    }

    /// What the run waits for has come: every session is complete, or one is.
    pub open spec fn met(self) -> bool {
        if self.wait_all {
            forall|i: int| 0 <= i < self.states.len() ==> (#[trigger] self.states[i]).completed
        } else {
            exists|i: int| 0 <= i < self.states.len() && (#[trigger] self.states[i]).completed
        }
    }

    /// The time for the run is up.
    pub open spec fn expired(self, now: u128) -> bool {
        now >= self.started + self.timeout_secs * NANOS_PER_SEC
    }

    /// A session found without new messages at `now` has been so for the idle
    /// timeout.
    pub open spec fn idle(self, state: PollView, now: u128) -> bool {
        time_between(state.last_change as int, now as int) >= self.idle_timeout_secs
            * NANOS_PER_SEC
    }

    /// The run in another phase.
    pub open spec fn at(self, phase: AwaitPhase) -> Self {
        RunView { phase, ..self }
    }

    /// The run with another record of session `i`.
    pub open spec fn with(self, i: int, state: PollView) -> Self {
        RunView { states: self.states.update(i, state), ..self }
    }

    /// The run goes on with the report, from session `from` on.
    pub open spec fn reporting(self, from: int, timed_out: bool) -> Self {
        match next_with(self.states, from, true) {
            Some(i) => self.at(AwaitPhase::Reporting { next: i as usize, timed_out }),
            None => self.at(AwaitPhase::Finished { timed_out }),
        }
    }

    /// The run has looked at every session: it reports, or waits on.
    pub open spec fn settled(self) -> Self {
        if self.met() {
            self.reporting(0, false)
        } else {
            self.at(AwaitPhase::Sleeping)
        }
    }

    /// The run looks at the sessions that are not complete, from session `from`
    /// on.
    pub open spec fn checking(self, from: int) -> Self {
        match next_with(self.states, from, false) {
            Some(i) => self.at(AwaitPhase::Checking { next: i as usize }),
            None => self.settled(),
        }
    }

    /// The record of a session after its messages were counted again at `now`:
    /// new messages count as activity, and a session without any completes once
    /// it has been idle for long enough.
    pub open spec fn recounted(self, state: PollView, count: nat, now: u128) -> PollView {
        if count != state.last_message_count {
            PollView { last_message_count: count, last_change: now, ..state }
        } else {
            PollView { completed: state.completed || self.idle(state, now), ..state }
        }
    }

    /// The time is up: the run looks once more at the sessions that are not
    /// complete, from session `from` on, and then reports.
    pub open spec fn closing(self, from: int) -> Self {
        match next_with(self.states, from, false) {
            Some(i) => self.at(AwaitPhase::Closing { next: i as usize }),
            None => self.reporting(0, true),
        }
    }

    /// The run after the sleep that it asked for.
    pub open spec fn after_sleep(self, now: u128) -> Self {
        if self.expired(now) {
            self.closing(0)
        } else {
            self.checking(0)
        }
    }

    /// The run after the session that it asked for was loaded.
    pub open spec fn after_load(self, messages: Seq<MessageView>, now: u128) -> Self {
        match self.phase {
            AwaitPhase::Counting { next } => {
                let state = self.states[next as int];
                let counted = self.with(
                    next as int,
                    PollView { last_message_count: messages.len(), ..state },
                );
                if next + 1 < self.states.len() {
                    counted.at(AwaitPhase::Counting { next: (next + 1) as usize })
                } else {
                    counted.at(AwaitPhase::Marking { next: 0 })
                }
            },
            AwaitPhase::Marking { next } => {
                let state = self.states[next as int];
                let marked = self.with(
                    next as int,
                    PollView { completed: completed_by_marker(messages), ..state },
                );
                if next + 1 < self.states.len() {
                    marked.at(AwaitPhase::Marking { next: (next + 1) as usize })
                } else {
                    marked.settled()
                }
            },
            AwaitPhase::Checking { next } => {
                let state = self.states[next as int];
                if completed_by_marker(messages) {
                    self.with(next as int, PollView { completed: true, ..state }).checking(next + 1)
                } else {
                    self.at(AwaitPhase::Recounting { next })
                }
            },
            AwaitPhase::Recounting { next } => {
                let state = self.states[next as int];
                self.with(next as int, self.recounted(state, messages.len(), now)).checking(
                    next + 1,
                )
            },
            AwaitPhase::Closing { next } => {
                let state = self.states[next as int];
                self.with(next as int, self.recounted(state, messages.len(), now)).closing(
                    next + 1,
                )
            },
            AwaitPhase::Reporting { next, timed_out } => RunView {
                histories: self.histories.push(messages),
                ..self
            }.reporting(next + 1, timed_out),
            _ => self,
        }
    }

    /// The session that the run asks for, if it asks for one.
    pub open spec fn wanted(self) -> Option<int> {
        match self.phase {
            AwaitPhase::Counting { next } => Some(next as int),
            AwaitPhase::Marking { next } => Some(next as int),
            AwaitPhase::Checking { next } => Some(next as int),
            AwaitPhase::Recounting { next } => Some(next as int),
            AwaitPhase::Closing { next } => Some(next as int),
            AwaitPhase::Reporting { next, .. } => Some(next as int),
            _ => None,
        }
    }

    /// What the run asks for.
    pub open spec fn action(self) -> ActionView {
        match self.phase {
            AwaitPhase::Sleeping => ActionView::Sleep { secs: POLL_SECS },
            AwaitPhase::Finished { timed_out } => ActionView::Reply {
                result: success_of(report(self.states, self.histories, timed_out)),
            },
            _ => ActionView::Load { session_id: self.states[self.wanted()->0].id },
        }
    }

    /// A run that a request can lead to.
    pub open spec fn sound(self) -> bool {
        &&& 0 < self.states.len() <= usize::MAX
        &&& self.wanted() is Some ==> 0 <= self.wanted()->0 < self.states.len()
        &&& match self.phase {
            AwaitPhase::Counting { next } => {
                &&& self.histories.len() == 0
                &&& forall|i: int|
                    0 <= i < self.states.len() ==> !(#[trigger] self.states[i]).completed
            },
            AwaitPhase::Marking { next } => {
                &&& self.histories.len() == 0
                &&& forall|i: int|
                    next <= i < self.states.len() ==> !(#[trigger] self.states[i]).completed
            },
            AwaitPhase::Sleeping => self.histories.len() == 0 && !self.met(),
            AwaitPhase::Checking { next } => self.histories.len() == 0
                && !self.states[next as int].completed,
            AwaitPhase::Recounting { next } => self.histories.len() == 0
                && !self.states[next as int].completed,
            AwaitPhase::Closing { next } => self.histories.len() == 0
                && !self.states[next as int].completed,
            AwaitPhase::Reporting { next, timed_out } => {
                &&& self.states[next as int].completed
                &&& self.histories.len() == completed_count(self.states.take(next as int))
                &&& !timed_out ==> self.met()
            },
            AwaitPhase::Finished { timed_out } => {
                &&& self.histories.len() == completed_count(self.states)
                &&& !timed_out ==> self.met()
            },
        }
    }
}

/// `next_with` gives the first session of the wanted kind, and the sessions
/// before it are of the other kind.
pub proof fn lemma_next_with(states: Seq<PollView>, from: int, completed: bool)
    requires
        0 <= from,
    ensures
        match next_with(states, from, completed) {
            Some(i) => from <= i < states.len() && states[i].completed == completed && (forall|j: int|
                from <= j < i ==> (#[trigger] states[j]).completed != completed) && (completed
                ==> completed_count(states.take(i)) == completed_count(states.take(from))),
            None => (forall|j: int|
                from <= j < states.len() ==> (#[trigger] states[j]).completed != completed) && (
            completed && from <= states.len() ==> completed_count(states) == completed_count(
                states.take(from),
            )),
        },
    decreases states.len() - from,
{
    if from < states.len() {
        if states[from].completed != completed {
            lemma_next_with(states, from + 1, completed);
            assert(states.take(from + 1).drop_last() =~= states.take(from));
            assert(states.take(from + 1).last() == states[from]);
        }
    } else {
        assert(from == states.len() ==> states.take(from) =~= states);
    }
}

proof fn lemma_reporting_is_sound(run: RunView, from: int, timed_out: bool)
    requires
        0 < run.states.len() <= usize::MAX,
        0 <= from <= run.states.len(),
        run.histories.len() == completed_count(run.states.take(from)),
        !timed_out ==> run.met(),
    ensures
        run.reporting(from, timed_out).sound(),
        run.reporting(from, timed_out).phase matches AwaitPhase::Reporting { next, timed_out: t }
            ==> from <= next && t == timed_out,
        run.reporting(from, timed_out).phase matches AwaitPhase::Finished { timed_out: t } ==> t
            == timed_out,
{
    lemma_next_with(run.states, from, true);
    let after = run.reporting(from, timed_out);
    assert(after.met() == run.met()) by {
        assert(after.states == run.states);
    }
}

proof fn lemma_settled_is_sound(run: RunView)
    requires
        0 < run.states.len() <= usize::MAX,
        run.histories.len() == 0,
    ensures
        run.settled().sound(),
{
    assert(run.states.take(0) =~= Seq::empty());
    if run.met() {
        lemma_reporting_is_sound(run, 0, false);
    } else {
        let after = run.settled();
        assert(after.met() == run.met()) by {
            assert(after.states == run.states);
        }
    }
}

proof fn lemma_checking_is_sound(run: RunView, from: int)
    requires
        0 < run.states.len() <= usize::MAX,
        0 <= from,
        run.histories.len() == 0,
    ensures
        run.checking(from).sound(),
{
    lemma_next_with(run.states, from, false);
    lemma_settled_is_sound(run);
}

proof fn lemma_closing_is_sound(run: RunView, from: int)
    requires
        0 < run.states.len() <= usize::MAX,
        0 <= from,
        run.histories.len() == 0,
    ensures
        run.closing(from).sound(),
{
    lemma_next_with(run.states, from, false);
    assert(run.states.take(0) =~= Seq::empty());
    lemma_reporting_is_sound(run, 0, true);
}

proof fn lemma_begun_is_sound(request: AwaitRequestView, now: u128)
    requires
        0 < request.session_ids.len() <= usize::MAX,
    ensures
        RunView::begun(request, now).sound(),
{
}

/// Whatever comes of its actions, a run stays one that a request can lead to.
pub proof fn law_steps_keep_the_run_sound(run: RunView, messages: Seq<MessageView>, now: u128)
    requires
        run.sound(),
    ensures
        run.wanted() is Some ==> run.after_load(messages, now).sound(),
        run.phase is Sleeping ==> run.after_sleep(now).sound(),
{
    match run.phase {
        AwaitPhase::Counting { next } => {},
        AwaitPhase::Marking { next } => {
            let state = run.states[next as int];
            let marked = run.with(
                next as int,
                PollView { completed: completed_by_marker(messages), ..state },
            );
            lemma_settled_is_sound(marked);
        },
        AwaitPhase::Sleeping => {
            lemma_closing_is_sound(run, 0);
            lemma_checking_is_sound(run, 0);
        },
        AwaitPhase::Checking { next } => {
            let state = run.states[next as int];
            lemma_checking_is_sound(
                run.with(next as int, PollView { completed: true, ..state }),
                next + 1,
            );
        },
        AwaitPhase::Recounting { next } => {
            let state = run.states[next as int];
            lemma_checking_is_sound(
                run.with(next as int, run.recounted(state, messages.len(), now)),
                next + 1,
            );
        },
        AwaitPhase::Closing { next } => {
            let state = run.states[next as int];
            lemma_closing_is_sound(
                run.with(next as int, run.recounted(state, messages.len(), now)),
                next + 1,
            );
        },
        AwaitPhase::Reporting { next, timed_out } => {
            let loaded = RunView { histories: run.histories.push(messages), ..run };
            assert(loaded.met() == run.met()) by {
                assert(loaded.states == run.states);
            }
            assert(run.states.take(next + 1).drop_last() =~= run.states.take(next as int));
            assert(run.states.take(next + 1).last() == run.states[next as int]);
            lemma_reporting_is_sound(loaded, next + 1, timed_out);
        },
        AwaitPhase::Finished { .. } => {},
    }
}

/// A run of the tool.
pub struct AwaitRun {
    states: Vec<SessionPollState>,
    wait_all: bool,
    started: u128,
    timeout_secs: u64,
    idle_timeout_secs: u64,
    phase: AwaitPhase,
    histories: Vec<Vec<ChatMessage>>,
}

impl View for AwaitRun {
    type V = RunView;

    closed spec fn view(&self) -> RunView {
        RunView {
            states: poll_views(self.states@),
            wait_all: self.wait_all,
            started: self.started,
            timeout_secs: self.timeout_secs,
            idle_timeout_secs: self.idle_timeout_secs,
            phase: self.phase,
            histories: history_views(self.histories@),
        }
    }
}

impl AwaitRun {
    /// The run that a request begins at `now`.
    pub fn begin(request: AwaitRequest, now: u128) -> (run: Self)
        requires
            request.session_ids@.len() > 0,
        ensures
            run@ == RunView::begun(request@, now),
            run@.sound(),
    {
        let ghost expected = RunView::begun(request@, now).states;
        let mut states: Vec<SessionPollState> = Vec::new();
        let mut i: usize = 0;
        while i < request.session_ids.len()
            invariant
                i <= request.session_ids@.len(),
                expected == RunView::begun(request@, now).states,
                poll_views(states@) =~= expected.take(i as int),
            decreases request.session_ids@.len() - i,
        {
            let ghost before = states@;
            let state = SessionPollState {
                id: request.session_ids[i].as_str().to_owned(),
                last_message_count: 0,
                last_change: now,
                completed: false,
            };
            states.push(state);
            assert(poll_views(states@) =~= poll_views(before).push(state@));
            assert(expected.take(i + 1) =~= expected.take(i as int).push(expected[i as int]));
            i = i + 1;
        }
        let n = request.session_ids.len();
        let run = AwaitRun {
            states,
            wait_all: request.wait_all,
            started: now,
            timeout_secs: request.timeout_secs,
            idle_timeout_secs: request.idle_timeout_secs,
            phase: AwaitPhase::Counting { next: 0 },
            histories: Vec::new(),
        };
        proof {
            assert(run@.states =~= expected);
            assert(run@.histories =~= Seq::empty());
            assert(n == request@.session_ids.len());
            lemma_begun_is_sound(request@, now);
        }
        run
    }

    /// What the run asks for.
    pub fn action(&self) -> (action: AwaitAction)
        requires
            self@.sound(),
        ensures
            action@ == self@.action(),
    {
        match self.phase {
            AwaitPhase::Counting { next } => self.load_action(next),
            AwaitPhase::Marking { next } => self.load_action(next),
            AwaitPhase::Sleeping => AwaitAction::Sleep { secs: POLL_SECS },
            AwaitPhase::Checking { next } => self.load_action(next),
            AwaitPhase::Recounting { next } => self.load_action(next),
            AwaitPhase::Closing { next } => self.load_action(next),
            AwaitPhase::Reporting { next, timed_out: _ } => self.load_action(next),
            AwaitPhase::Finished { timed_out } => AwaitAction::Reply {
                result: ToolResult::succeeded(
                    format_completed_sessions(&self.histories, &self.states, timed_out),
                ),
            },
        }
    }

    fn load_action(&self, i: usize) -> (action: AwaitAction)
        requires
            i < self@.states.len(),
        ensures
            action@ == (ActionView::Load { session_id: self@.states[i as int].id }),
    {
        AwaitAction::Load { session_id: self.states[i].id.as_str().to_owned() }
    }

    fn next_index(&self, from: usize, completed: bool) -> (at: Option<usize>)
        ensures
            match at {
                Some(i) => next_with(self@.states, from as int, completed) == Some(i as int),
                None => next_with(self@.states, from as int, completed) == None::<int>,
            },
    {
        let mut i: usize = from;
        while i < self.states.len()
            invariant
                from <= i,
                next_with(self@.states, from as int, completed) == next_with(
                    self@.states,
                    i as int,
                    completed,
                ),
            decreases self.states@.len() - i,
        {
            if self.states[i].completed == completed {
                return Some(i);
            }
            i = i + 1;
        }
        None
    }

    fn is_met(&self) -> (met: bool)
        ensures
            met == self@.met(),
    {
        let found = self.next_index(0, !self.wait_all);
        proof {
            lemma_next_with(self@.states, 0, !self.wait_all);
        }
        match found {
            Some(_) => !self.wait_all,
            None => self.wait_all,
        }
    }

    fn go_on_reporting(&mut self, from: usize, timed_out: bool)
        ensures
            final(self)@ == old(self)@.reporting(from as int, timed_out),
    {
        self.phase = match self.next_index(from, true) {
            Some(next) => AwaitPhase::Reporting { next, timed_out },
            None => AwaitPhase::Finished { timed_out },
        };
    }

    fn go_on_closing(&mut self, from: usize)
        ensures
            final(self)@ == old(self)@.closing(from as int),
    {
        match self.next_index(from, false) {
            Some(next) => {
                self.phase = AwaitPhase::Closing { next };
            },
            None => {
                self.go_on_reporting(0, true);
            },
        }
    }

    /// Session `i` was found with `count` messages at `now`.
    fn recount(&mut self, i: usize, count: usize, now: u128)
        requires
            i < old(self)@.states.len(),
        ensures
            final(self)@ == old(self)@.with(
                i as int,
                old(self)@.recounted(old(self)@.states[i as int], count as nat, now),
            ),
    {
        if count != self.states[i].last_message_count {
            self.states[i].last_message_count = count;
            self.states[i].last_change = now;
        } else if nanos_between(self.states[i].last_change, now) >= (
        self.idle_timeout_secs as u128) * NANOS_PER_SEC {
            self.states[i].completed = true;
        }
        assert(self@.states =~= old(self)@.states.update(
            i as int,
            old(self)@.recounted(old(self)@.states[i as int], count as nat, now),
        ));
    }

    fn settle(&mut self)
        ensures
            final(self)@ == old(self)@.settled(),
    {
        if self.is_met() {
            self.go_on_reporting(0, false);
        } else {
            self.phase = AwaitPhase::Sleeping;
        }
    }

    fn go_on_checking(&mut self, from: usize)
        ensures
            final(self)@ == old(self)@.checking(from as int),
    {
        match self.next_index(from, false) {
            Some(next) => {
                self.phase = AwaitPhase::Checking { next };
            },
            None => {
                self.settle();
            },
        }
    }

    /// The session that the run asked for was loaded, and it is `now`.
    pub fn loaded(&mut self, messages: Vec<ChatMessage>, now: u128)
        requires
            old(self)@.sound(),
            old(self)@.wanted() is Some,
        ensures
            final(self)@ == old(self)@.after_load(message_views(messages@), now),
            final(self)@.sound(),
    {
        proof {
            law_steps_keep_the_run_sound(self@, message_views(messages@), now);
        }
        let n = self.states.len();
        match self.phase {
            AwaitPhase::Counting { next } => {
                self.states[next].last_message_count = messages.len();
                assert(self@.states =~= old(self)@.states.update(
                    next as int,
                    PollView {
                        last_message_count: messages@.len(),
                        ..old(self)@.states[next as int]
                    },
                ));
                self.phase = if next + 1 < n {
                    AwaitPhase::Counting { next: next + 1 }
                } else {
                    AwaitPhase::Marking { next: 0 }
                };
            },
            AwaitPhase::Marking { next } => {
                let completed = has_completion_marker(&messages);
                self.states[next].completed = completed;
                assert(self@.states =~= old(self)@.states.update(
                    next as int,
                    PollView { completed, ..old(self)@.states[next as int] },
                ));
                if next + 1 < n {
                    self.phase = AwaitPhase::Marking { next: next + 1 };
                } else {
                    self.settle();
                }
            },
            AwaitPhase::Checking { next } => {
                if has_completion_marker(&messages) {
                    self.states[next].completed = true;
                    assert(self@.states =~= old(self)@.states.update(
                        next as int,
                        PollView { completed: true, ..old(self)@.states[next as int] },
                    ));
                    self.go_on_checking(next + 1);
                } else {
                    self.phase = AwaitPhase::Recounting { next };
                }
            },
            AwaitPhase::Recounting { next } => {
                self.recount(next, messages.len(), now);
                self.go_on_checking(next + 1);
            },
            AwaitPhase::Closing { next } => {
                self.recount(next, messages.len(), now);
                self.go_on_closing(next + 1);
            },
            AwaitPhase::Reporting { next, timed_out } => {
                let ghost before = self.histories@;
                self.histories.push(messages);
                assert(history_views(self.histories@) =~= history_views(before).push(
                    message_views(messages@),
                ));
                self.go_on_reporting(next + 1, timed_out);
            },
            AwaitPhase::Sleeping => {},
            AwaitPhase::Finished { timed_out: _ } => {},
        }
    }

    /// The sleep that the run asked for is over, and it is `now`.
    pub fn slept(&mut self, now: u128)
        requires
            old(self)@.sound(),
            old(self)@.phase is Sleeping,
        ensures
            final(self)@ == old(self)@.after_sleep(now),
            final(self)@.sound(),
    {
        proof {
            law_steps_keep_the_run_sound(self@, Seq::empty(), now);
        }
        if now >= self.started && now - self.started >= (self.timeout_secs as u128)
            * NANOS_PER_SEC {
            self.go_on_closing(0);
        } else {
            self.go_on_checking(0);
        }
    }
}

/// The run has run out of time: it goes on to report so, or has reported so.
pub open spec fn timed_out(run: RunView) -> bool {
    match run.phase {
        AwaitPhase::Closing { .. } => true,
        AwaitPhase::Reporting { timed_out, .. } => timed_out,
        AwaitPhase::Finished { timed_out } => timed_out,
        _ => false,
    }
}

/// `after` tracks the same sessions as `before` under the same terms, and every
/// session complete in `before` is complete in `after`.
pub open spec fn continues(before: RunView, after: RunView) -> bool {
    &&& after.wait_all == before.wait_all
    &&& after.started == before.started
    &&& after.timeout_secs == before.timeout_secs
    &&& after.idle_timeout_secs == before.idle_timeout_secs
    &&& after.states.len() == before.states.len()
    &&& forall|i: int|
        0 <= i < before.states.len() ==> (#[trigger] after.states[i]).id == before.states[i].id && (
        before.states[i].completed ==> after.states[i].completed)
}

/// No step changes which sessions a run waits for or on what terms, and a
/// session once complete stays complete.
pub proof fn law_completed_sessions_stay_complete(
    run: RunView,
    messages: Seq<MessageView>,
    now: u128,
)
    requires
        run.sound(),
    ensures
        run.wanted() is Some ==> continues(run, run.after_load(messages, now)),
        run.phase is Sleeping ==> continues(run, run.after_sleep(now)),
{
}

/// A look completes a session only where its last message holds a completion
/// marker, or where it has no new messages and has been idle for the idle
/// timeout; no other session is completed along with it. Waking alone completes
/// none.
pub proof fn law_sessions_complete_by_marker_or_idleness(
    run: RunView,
    messages: Seq<MessageView>,
    now: u128,
    i: int,
)
    requires
        run.sound(),
        0 <= i < run.states.len(),
        !run.states[i].completed,
    ensures
        run.phase is Sleeping ==> !run.after_sleep(now).states[i].completed,
        run.wanted() is Some && run.after_load(messages, now).states[i].completed ==> {
            &&& run.wanted() == Some(i)
            &&& completed_by_marker(messages) || (messages.len()
                == run.states[i].last_message_count && run.idle(run.states[i], now))
        },
{
}

/// A session that is looked at and found with a completion marker is complete
/// from then on; so is one found without new messages after the idle timeout.
/// One found with new messages starts its idle time anew. The same holds of the
/// last look, after the time is up.
pub proof fn law_looks_find_complete_sessions(
    run: RunView,
    messages: Seq<MessageView>,
    now: u128,
)
    requires
        run.sound(),
    ensures
        run.phase matches AwaitPhase::Marking { next } ==> run.after_load(
            messages,
            now,
        ).states[next as int].completed == completed_by_marker(messages),
        run.phase matches AwaitPhase::Checking { next } ==> run.after_load(
            messages,
            now,
        ).states[next as int].completed == completed_by_marker(messages),
        run.phase is Recounting || run.phase is Closing ==> {
            let next = run.wanted()->0;
            let before = run.states[next];
            let after = run.after_load(messages, now).states[next];
            if messages.len() == before.last_message_count {
                after.completed == run.idle(before, now)
            } else {
                !after.completed && after.last_change == now && after.last_message_count
                    == messages.len()
            }
        },
{
}

/// A run that is not out of time answers only once what it waits for has come,
/// and it sleeps only as long as that has not come.
pub proof fn law_answer_comes_when_the_wait_is_over(run: RunView)
    requires
        run.sound(),
    ensures
        run.phase is Finished && !timed_out(run) ==> run.met(),
        run.phase is Sleeping ==> !run.met(),
{
}

/// A run finds out that its time is up when it wakes, and only then: it wakes
/// to report a timeout exactly where the timeout has passed since it began.
pub proof fn law_timeout_is_found_on_waking(
    run: RunView,
    messages: Seq<MessageView>,
    now: u128,
)
    requires
        run.sound(),
    ensures
        run.phase is Sleeping ==> timed_out(run.after_sleep(now)) == run.expired(now),
        run.wanted() is Some ==> timed_out(run.after_load(messages, now)) == timed_out(run),
{
}

/// An upper bound on the sessions that are loaded before the run sleeps or
/// answers.
pub open spec fn loads_left(run: RunView) -> int {
    let n = run.states.len() as int;
    match run.phase {
        AwaitPhase::Counting { next } => 3 * n - next,
        AwaitPhase::Marking { next } => 2 * n - next,
        AwaitPhase::Checking { next } => 3 * n - 2 * next,
        AwaitPhase::Recounting { next } => 3 * n - 2 * next - 1,
        AwaitPhase::Closing { next } => 2 * n - next,
        AwaitPhase::Reporting { next, .. } => n - next,
        _ => 0,
    }
}

/// Each load brings a run closer to its next sleep or to its answer; between
/// two of these it loads at most three times as many sessions as it waits for.
pub proof fn law_loads_between_sleeps_are_bounded(
    run: RunView,
    messages: Seq<MessageView>,
    now: u128,
)
    requires
        run.sound(),
    ensures
        0 <= loads_left(run) <= 3 * run.states.len(),
        run.wanted() is Some ==> 0 <= loads_left(run.after_load(messages, now)) < loads_left(run),
{
    law_steps_keep_the_run_sound(run, messages, now);
    match run.phase {
        AwaitPhase::Marking { next } => {
            let state = run.states[next as int];
            let marked = run.with(
                next as int,
                PollView { completed: completed_by_marker(messages), ..state },
            );
            lemma_next_with(marked.states, 0, true);
        },
        AwaitPhase::Checking { next } => {
            let state = run.states[next as int];
            let after = run.with(next as int, PollView { completed: true, ..state });
            lemma_next_with(after.states, next + 1, false);
            lemma_next_with(after.states, 0, true);
        },
        AwaitPhase::Recounting { next } => {
            let state = run.states[next as int];
            let after = run.with(next as int, run.recounted(state, messages.len(), now));
            lemma_next_with(after.states, next + 1, false);
            lemma_next_with(after.states, 0, true);
        },
        AwaitPhase::Closing { next } => {
            let state = run.states[next as int];
            let after = run.with(next as int, run.recounted(state, messages.len(), now));
            lemma_next_with(after.states, next + 1, false);
            lemma_next_with(after.states, 0, true);
        },
        AwaitPhase::Reporting { next, timed_out } => {
            lemma_next_with(run.states, next + 1, true);
        },
        _ => {},
    }
}

proof fn lemma_sections_cover(
    states: Seq<PollView>,
    histories: Seq<Seq<MessageView>>,
    i: int,
)
    requires
        0 <= i < states.len(),
        states[i].completed,
        histories.len() == completed_count(states),
    ensures
        completed_count(states.take(i)) < histories.len(),
        has_part(
            report_sections(states, histories),
            report_section(states[i].id, histories[completed_count(states.take(i)) as int]),
        ),
    decreases states.len(),
{
    let init = states.drop_last();
    let last = states.len() - 1;
    assert(states.take(last) =~= init);
    let section = report_section(states[i].id, histories[completed_count(states.take(i)) as int]);
    if i == last {
        let before = report_sections(init, histories.drop_last());
        lemma_part_stands_in(before, section, Seq::empty());
        assert(before + section + Seq::<char>::empty() =~= before + section);
    } else {
        assert(init.take(i) =~= states.take(i));
        if states.last().completed {
            let front = histories.drop_last();
            lemma_sections_cover(init, front, i);
            let rest = report_section(states.last().id, histories.last());
            lemma_has_in_longer(Seq::empty(), report_sections(init, front), rest, section);
            assert(Seq::<char>::empty() + report_sections(init, front) + rest =~= report_sections(
                init,
                front,
            ) + rest);
        } else {
            lemma_sections_cover(init, histories, i);
        }
    }
}

/// A report shows every completed session, with its ID and its last messages.
pub proof fn law_report_shows_every_completed_session(
    states: Seq<PollView>,
    histories: Seq<Seq<MessageView>>,
    timed_out: bool,
    i: int,
)
    requires
        0 <= i < states.len(),
        states[i].completed,
        histories.len() == completed_count(states),
    ensures
        has_part(
            report(states, histories, timed_out),
            report_section(states[i].id, histories[completed_count(states.take(i)) as int]),
        ),
{
    lemma_sections_cover(states, histories, i);
    lemma_has_in_longer(
        report_head(states, timed_out),
        report_sections(states, histories),
        report_tail(states),
        report_section(states[i].id, histories[completed_count(states.take(i)) as int]),
    );
}

proof fn lemma_joined_covers(parts: Seq<Seq<char>>, sep: Seq<char>, k: int)
    requires
        0 <= k < parts.len(),
    ensures
        has_part(joined(parts, sep), parts[k]),
    decreases parts.len(),
{
    if parts.len() == 1 {
        lemma_part_stands_in(Seq::empty(), parts[0], Seq::empty());
        assert(Seq::<char>::empty() + parts[0] + Seq::<char>::empty() =~= parts[0]);
    } else {
        let front = joined(parts.drop_last(), sep);
        if k == parts.len() - 1 {
            lemma_part_stands_in(front + sep, parts[k], Seq::empty());
            assert(front + sep + parts[k] + Seq::<char>::empty() =~= front + sep + parts[k]);
        } else {
            lemma_joined_covers(parts.drop_last(), sep, k);
            lemma_has_in_longer(Seq::empty(), front, sep + parts.last(), parts[k]);
            assert(Seq::<char>::empty() + front + (sep + parts.last()) =~= front + sep
                + parts.last());
        }
    }
}

proof fn lemma_pending_covers(states: Seq<PollView>)
    ensures
        completed_count(states) + pending_ids(states).len() == states.len(),
        forall|i: int|
            0 <= i < states.len() && !(#[trigger] states[i]).completed ==> pending_ids(
                states,
            ).contains(states[i].id),
    decreases states.len(),
{
    if states.len() > 0 {
        let init = states.drop_last();
        lemma_pending_covers(init);
        assert forall|i: int| 0 <= i < states.len() && !(
        #[trigger] states[i]).completed implies pending_ids(states).contains(states[i].id) by {
            if i < init.len() {
                assert(init[i] == states[i]);
                let k = choose|k: int|
                    0 <= k < pending_ids(init).len() && pending_ids(init)[k] == states[i].id;
                assert(pending_ids(states)[k] == states[i].id);
            } else {
                assert(pending_ids(states).last() == states[i].id);
            }
        }
    }
}

/// A report names every session that is not complete, and each session of the
/// run is either complete or pending.
pub proof fn law_report_names_every_pending_session(
    states: Seq<PollView>,
    histories: Seq<Seq<MessageView>>,
    timed_out: bool,
    i: int,
)
    requires
        0 <= i < states.len(),
    ensures
        completed_count(states) + pending_ids(states).len() == states.len(),
        !states[i].completed ==> pending_ids(states).contains(states[i].id) && has_part(
            report(states, histories, timed_out),
            states[i].id,
        ),
{
    lemma_pending_covers(states);
    if !states[i].completed {
        let ids = pending_ids(states);
        let id = states[i].id;
        let k = choose|k: int| 0 <= k < ids.len() && ids[k] == id;
        lemma_joined_covers(ids, ", "@, k);
        lemma_has_in_longer("\nPending sessions: "@, joined(ids, ", "@), "\n"@, id);
        let front = report_head(states, timed_out) + report_sections(states, histories);
        lemma_has_in_longer(front, report_tail(states), Seq::empty(), id);
        assert(front + report_tail(states) + Seq::<char>::empty() =~= report(
            states,
            histories,
            timed_out,
        ));
    }
}

/// What the loads of a run brought: messages and times.
pub struct Loaded {
    pub messages: Seq<MessageView>,
    pub now: u128,
}

/// The run after a number of loads in a row.
pub open spec fn after_loads(run: RunView, loads: Seq<Loaded>) -> RunView
    decreases loads.len(),
{
    if loads.len() == 0 {
        run
    } else {
        after_loads(run, loads.drop_last()).after_load(loads.last().messages, loads.last().now)
    }
}

proof fn lemma_after_loads_of_both(run: RunView, first: Seq<Loaded>, second: Seq<Loaded>)
    ensures
        after_loads(run, first + second) == after_loads(after_loads(run, first), second),
    decreases second.len(),
{
    if second.len() == 0 {
        assert(first + second =~= first);
    } else {
        assert((first + second).drop_last() =~= first + second.drop_last());
        lemma_after_loads_of_both(run, first, second.drop_last());
    }
}

proof fn lemma_counting(run: RunView, counts: Seq<Loaded>)
    requires
        run.states.len() <= usize::MAX,
        run.phase == (AwaitPhase::Counting { next: 0 }),
        counts.len() <= run.states.len(),
        run.states.len() > 0,
    ensures
        ({
            let after = after_loads(run, counts);
            &&& after == RunView { states: after.states, phase: after.phase, ..run }
            &&& after.states.len() == run.states.len()
            &&& after.phase == (if counts.len() < run.states.len() {
                AwaitPhase::Counting { next: counts.len() as usize }
            } else {
                AwaitPhase::Marking { next: 0 }
            })
            &&& forall|i: int|
                0 <= i < run.states.len() ==> (#[trigger] after.states[i]) == (PollView {
                    last_message_count: if i < counts.len() {
                        counts[i].messages.len()
                    } else {
                        run.states[i].last_message_count
                    },
                    ..run.states[i]
                })
        }),
    decreases counts.len(),
{
    if counts.len() > 0 {
        lemma_counting(run, counts.drop_last());
    }
}

/// The records of the sessions after the looks so far.
spec fn marked(states: Seq<PollView>, looks: Seq<Loaded>) -> Seq<PollView> {
    Seq::new(
        states.len(),
        |i: int|
            PollView {
                completed: if i < looks.len() {
                    completed_by_marker(looks[i].messages)
                } else {
                    states[i].completed
                },
                ..states[i]
            },
    )
}

proof fn lemma_marking(run: RunView, looks: Seq<Loaded>)
    requires
        run.states.len() <= usize::MAX,
        run.phase == (AwaitPhase::Marking { next: 0 }),
        looks.len() <= run.states.len(),
        run.states.len() > 0,
    ensures
        after_loads(run, looks) == (if looks.len() < run.states.len() {
            RunView {
                states: marked(run.states, looks),
                phase: AwaitPhase::Marking { next: looks.len() as usize },
                ..run
            }
        } else {
            RunView { states: marked(run.states, looks), ..run }.settled()
        }),
    decreases looks.len(),
{
    if looks.len() == 0 {
        assert(marked(run.states, looks) =~= run.states);
    } else {
        lemma_marking(run, looks.drop_last());
        let before = after_loads(run, looks.drop_last());
        let k = looks.len() - 1;
        let now_marked = before.with(
            k,
            PollView {
                completed: completed_by_marker(looks.last().messages),
                ..before.states[k]
            },
        );
        assert(now_marked.states =~= marked(run.states, looks));
        let expected = RunView { states: marked(run.states, looks), ..run };
        assert(now_marked.met() == expected.met()) by {
            assert(now_marked.states == expected.states);
        }
    }
}

/// A run first counts the messages of every session and then looks at each for
/// a completion marker. Where the sessions found complete are what the run
/// waits for, it goes on to the report without any sleep; else it sleeps.
pub proof fn law_first_look_decides_without_waiting(
    request: AwaitRequestView,
    now: u128,
    counts: Seq<Loaded>,
    looks: Seq<Loaded>,
)
    requires
        0 < request.session_ids.len() <= usize::MAX,
        counts.len() == request.session_ids.len(),
        looks.len() == request.session_ids.len(),
    ensures
        ({
            let n = request.session_ids.len() as int;
            let after = after_loads(RunView::begun(request, now), counts + looks);
            let enough = if request.wait_all {
                forall|i: int|
                    0 <= i < n ==> completed_by_marker((#[trigger] looks[i]).messages)
            } else {
                exists|i: int|
                    0 <= i < n && completed_by_marker((#[trigger] looks[i]).messages)
            };
            &&& after.states.len() == n
            &&& forall|i: int|
                0 <= i < n ==> (#[trigger] after.states[i]) == (PollView {
                    id: request.session_ids[i],
                    last_message_count: counts[i].messages.len(),
                    last_change: now,
                    completed: completed_by_marker(looks[i].messages),
                })
            &&& enough ==> after.phase is Reporting && !timed_out(after)
            &&& !enough ==> after.phase is Sleeping
        }),
{
    let n = request.session_ids.len() as int;
    let begun = RunView::begun(request, now);
    lemma_after_loads_of_both(begun, counts, looks);
    lemma_counting(begun, counts);
    let counted = after_loads(begun, counts);
    lemma_marking(counted, looks);
    let last = RunView { states: marked(counted.states, looks), ..counted };
    let after = after_loads(begun, counts + looks);
    assert(after == last.settled());
    assert forall|i: int| 0 <= i < n implies (#[trigger] after.states[i]) == (PollView {
        id: request.session_ids[i],
        last_message_count: counts[i].messages.len(),
        last_change: now,
        completed: completed_by_marker(looks[i].messages),
    }) by {
        assert(counted.states[i].last_message_count == counts[i].messages.len());
        assert(last.states[i] == after.states[i]);
    }
    let enough = if request.wait_all {
        forall|i: int| 0 <= i < n ==> completed_by_marker((#[trigger] looks[i]).messages)
    } else {
        exists|i: int| 0 <= i < n && completed_by_marker((#[trigger] looks[i]).messages)
    };
    assert(last.met() == enough) by {
        assert forall|i: int| 0 <= i < n implies (#[trigger] last.states[i]).completed
            == completed_by_marker(looks[i].messages) by {}
        if request.wait_all {
            if last.met() {
                assert forall|i: int| 0 <= i < n implies completed_by_marker(
                    (#[trigger] looks[i]).messages,
                ) by {
                    assert(last.states[i].completed);
                }
            }
        } else {
            if enough {
                let i = choose|i: int|
                    0 <= i < n && completed_by_marker((#[trigger] looks[i]).messages);
                assert(last.states[i].completed);
            }
        }
    }
    lemma_next_with(last.states, 0, true);
    if enough {
        if request.wait_all {
            assert(last.states[0].completed);
        }
    }
}

} // verus!
