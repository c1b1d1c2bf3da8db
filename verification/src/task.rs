//! The lifecycle of a task handed to a peer.
//!
//! A stream of updates ends once the task does, and a state that waits for something from outside
//! is no end.

use vstd::prelude::*;
use vstd::slice::slice_subrange;

use crate::error::{InputRequest, InputRequestView, NeedsInput, NeedsInputView, Risk};
use crate::ids::{SessionId, TurnId};
use crate::json::Json;
use crate::taint::{Provenance, ProvenanceView, Tainted, Untrusted};
use crate::text::{join, joined, texts};

verus! {

/// Where a task is.
#[derive(Debug, Clone, Copy, PartialEq, Eq, Structural)]
#[non_exhaustive]
pub enum TaskState {
    /// Acknowledged and queued.
    TaskStateSubmitted,
    /// Being worked on.
    TaskStateWorking,
    /// Waiting for clarification. Not terminal.
    TaskStateInputRequired,
    /// Waiting for authentication. Not terminal.
    TaskStateAuthRequired,
    /// Finished successfully.
    TaskStateCompleted,
    /// Finished with an error.
    TaskStateFailed,
    /// Cancelled by the caller.
    TaskStateCanceled,
    /// Declined by the agent.
    TaskStateRejected,
}

impl TaskState {
    /// Whether the task is finished, one way or another.
    pub open spec fn terminal(self) -> bool {
        self is TaskStateCompleted || self is TaskStateFailed || self is TaskStateCanceled
            || self is TaskStateRejected
    }

    /// Whether the task is alive and waiting for something from outside it.
    pub open spec fn interrupted(self) -> bool {
        self is TaskStateInputRequired || self is TaskStateAuthRequired
    }

    /// Whether work is still in progress.
    pub open spec fn active(self) -> bool {
        self is TaskStateSubmitted || self is TaskStateWorking
    }

    /// Whether the task is finished, one way or another.
    #[must_use]
    pub fn is_terminal(self) -> (r: bool)
        ensures
            r == self.terminal(),
    {
        matches!(
            self,
            TaskState::TaskStateCompleted
                | TaskState::TaskStateFailed
                | TaskState::TaskStateCanceled
                | TaskState::TaskStateRejected
        )
    }

    /// Whether the task is alive and waiting for something from outside it.
    #[must_use]
    pub fn is_interrupted(self) -> (r: bool)
        ensures
            r == self.interrupted(),
    {
        matches!(self, TaskState::TaskStateInputRequired | TaskState::TaskStateAuthRequired)
    }

    /// Whether work is still in progress.
    #[must_use]
    pub fn is_active(self) -> (r: bool)
        ensures
            r == self.active(),
    {
        matches!(self, TaskState::TaskStateSubmitted | TaskState::TaskStateWorking)
    }
}

/// Every state is finished, waiting or active, and only one of these.
pub proof fn every_state_is_in_one_bucket(state: TaskState)
    ensures
        state.terminal() || state.interrupted() || state.active(),
        !(state.terminal() && state.interrupted()),
        !(state.terminal() && state.active()),
        !(state.interrupted() && state.active()),
{
}

/// A piece of a message or artefact.
#[derive(Debug, Clone, PartialEq, Eq)]
#[non_exhaustive]
pub enum Part {
    /// Text.
    Text {
        /// The text.
        text: String,
    },
    /// A reference to something remote.
    Url {
        /// Where it is.
        url: String,
    },
    /// Inline bytes, base64-encoded.
    Raw {
        /// The bytes.
        raw: String,
    },
    /// Arbitrary structured data.
    Data {
        /// The value.
        data: Json,
    },
}

/// Where a task is, and why.
#[derive(Debug, PartialEq, Eq)]
pub struct TaskStatus {
    /// The state.
    pub state: TaskState,
    /// An explanation, when there is one.
    pub message: Option<String>,
    /// When it changed.
    pub timestamp: String,
}

impl Clone for TaskStatus {
    fn clone(&self) -> (r: Self)
        ensures
            r == *self,
    {
        TaskStatus {
            state: self.state,
            message: match &self.message {
                Some(m) => Some(m.clone()),
                None => None,
            },
            timestamp: self.timestamp.clone(),
        }
    }
}

/// One unit of work handed to a peer.
#[derive(Debug, Clone, PartialEq, Eq)]
pub struct Task {
    /// Server-generated identifier.
    pub id: String,
    /// Groups related interactions. Maps to a session.
    pub context_id: String,
    /// Where it is.
    pub status: TaskStatus,
    /// What it produced.
    pub artifacts: Vec<Part>,
}

/// The texts among some parts.
pub open spec fn part_texts_of(parts: Seq<Part>) -> Seq<Seq<char>>
    decreases parts.len(),
{
    if parts.len() == 0 {
        Seq::empty()
    } else {
        match parts.last() {
            Part::Text { text } => part_texts_of(parts.drop_last()).push(text@),
            _ => part_texts_of(parts.drop_last()),
        }
    }
}

impl Task {
    /// What a peer produced, labelled. A peer's artefacts are model output wearing a task envelope.
    #[must_use]
    pub fn artifact_text(&self) -> (r: Untrusted<String>)
        ensures
            r.inner()@ == joined(part_texts_of(self.artifacts@), "\n"@),
            r.story() == ProvenanceView::straight("peer:"@ + self.id@),
    {
        let mut parts: Vec<String> = Vec::new();
        let ghost all = self.artifacts@;
        let mut i: usize = 0;
        assert(texts(parts@) == part_texts_of(all.take(0)));
        while i < self.artifacts.len()
            invariant
                i <= self.artifacts@.len(),
                all == self.artifacts@,
                texts(parts@) == part_texts_of(all.take(i as int)),
            decreases self.artifacts@.len() - i,
        {
            assert(all.take(i + 1).drop_last() == all.take(i as int));
            assert(all.take(i + 1).last() == self.artifacts@[i as int]);
            if let Part::Text { text } = &self.artifacts[i] {
                let ghost before = parts@;
                parts.push(text.clone());
                assert(texts(parts@) == texts(before).push(text@));
            }
            i = i + 1;
        }
        assert(all.take(all.len() as int) == all);
        Tainted::with_provenance(
            join(&parts, "\n"),
            Provenance::tagged("peer:", self.id.as_str()),
        )
    }

    /// The session that the context id names.
    #[must_use]
    pub fn session(&self) -> (r: SessionId)
        ensures
            r@ == self.context_id@,
    {
        SessionId::new(self.context_id.as_str())
    }
}

/// What an interrupted task waits for.
pub open spec fn waits_for(task: Task) -> InputRequestView {
    if task.status.state is TaskStateAuthRequired {
        InputRequestView::Auth {
            resource: match task.status.message {
                Some(m) => m@,
                None => task.id@,
            },
        }
    } else {
        InputRequestView::Choice {
            prompt: match task.status.message {
                Some(m) => m@,
                None => "the peer needs clarification"@,
            },
            options: Seq::empty(),
        }
    }
}

/// Project an interrupted task onto the one input-needed type.
#[must_use]
pub fn needs_input(task: &Task) -> (r: Option<NeedsInput>)
    ensures
        match r {
            Some(n) => task.status.state.interrupted() && n@ == (NeedsInputView {
                token: "a2a:"@ + task.id@,
                requests: seq![waits_for(*task)],
            }),
            None => !task.status.state.interrupted(),
        },
{
    if !task.status.state.is_interrupted() {
        return None;
    }
    let request = match task.status.state {
        TaskState::TaskStateAuthRequired => InputRequest::Auth {
            resource: match &task.status.message {
                Some(m) => m.clone(),
                None => task.id.clone(),
            },
        },
        _ => InputRequest::Choice {
            prompt: match &task.status.message {
                Some(m) => m.clone(),
                None => "the peer needs clarification".to_owned(),
            },
            options: Vec::new(),
        },
    };
    proof {
        if let InputRequest::Choice { options, .. } = &request {
            assert(texts(options@) == Seq::<Seq<char>>::empty());
        }
        assert(request@ == waits_for(*task));
    }
    let mut token = "a2a:".to_owned();
    token.push_str(task.id.as_str());
    let n = NeedsInput { token, requests: vec![request] };
    assert(n@.requests == seq![waits_for(*task)]);
    Some(n)
}

/// Whether an approval is required before handing work to a peer: for anything above low risk. The
/// prompt shows the literal task text rather than a summary of it.
#[must_use]
pub fn delegation_approval(peer: &str, task_text: &str, risk: Risk) -> (r: Option<NeedsInput>)
    ensures
        match r {
            Some(n) => risk != Risk::Low && n@ == (NeedsInputView {
                token: "delegate:"@ + peer@,
                requests: seq![
                    InputRequestView::Approval {
                        literal: "send to `"@ + peer@ + "`: "@ + task_text@,
                        risk,
                    },
                ],
            }),
            None => risk == Risk::Low,
        },
{
    if risk == Risk::Low {
        return None;
    }
    let mut token = "delegate:".to_owned();
    token.push_str(peer);
    let mut literal = "send to `".to_owned();
    literal.push_str(peer);
    literal.push_str("`: ");
    literal.push_str(task_text);
    let ghost shown = literal@;
    let n = NeedsInput { token, requests: vec![InputRequest::Approval { literal, risk }] };
    assert(n@.requests == seq![InputRequestView::Approval { literal: shown, risk }]);
    Some(n)
}

/// A stream of task updates.
#[derive(Debug, Clone)]
pub struct TaskStream {
    events: Vec<TaskStatus>,
    closed: bool,
}

/// A stream of task updates.
#[verifier::ext_equal]
pub struct StreamView {
    pub events: Seq<TaskStatus>,
    pub closed: bool,
}

impl View for TaskStream {
    type V = StreamView;

    closed spec fn view(&self) -> StreamView {
        StreamView { events: self.events@, closed: self.closed }
    }
}

impl StreamView {
    /// Whether the stream is closed exactly where its last update is an end, and no update before
    /// that is one.
    pub open spec fn well_formed(self) -> bool {
        &&& self.closed <==> self.events.len() > 0 && self.events.last().state.terminal()
        &&& forall|i: int|
            0 <= i < self.events.len() - 1 ==> !(#[trigger] self.events[i]).state.terminal()
    }

    /// The stream after an update. Nothing is added to a closed one.
    pub open spec fn pushed(self, status: TaskStatus) -> StreamView {
        if self.closed {
            self
        } else {
            StreamView { events: self.events.push(status), closed: status.state.terminal() }
        }
    }
}

impl Default for TaskStream {
    fn default() -> (r: Self)
        ensures
            r@ == (StreamView { events: Seq::empty(), closed: false }),
            r@.well_formed(),
    {
        TaskStream { events: Vec::new(), closed: false }
    }
}

impl TaskStream {
    /// A new, open stream.
    #[must_use]
    pub fn new() -> (r: Self)
        ensures
            r@ == (StreamView { events: Seq::empty(), closed: false }),
            r@.well_formed(),
    {
        TaskStream { events: Vec::new(), closed: false }
    }

    /// Push an update. Returns whether the stream is now closed.
    ///
    /// Updates after a terminal state are ignored rather than appended, because a subscriber that
    /// sees activity after completion cannot tell a late event from a new task.
    pub fn push(&mut self, status: TaskStatus) -> (r: bool)
        ensures
            final(self)@ == old(self)@.pushed(status),
            r == final(self)@.closed,
            old(self)@.well_formed() ==> final(self)@.well_formed(),
    {
        if self.closed {
            return true;
        }
        let terminal = status.state.is_terminal();
        self.events.push(status);
        if terminal {
            self.closed = true;
        }
        proof {
            assert(self@ =~= old(self)@.pushed(status));
            if old(self)@.well_formed() {
                assert forall|i: int| 0 <= i < self@.events.len() - 1 implies !(
                #[trigger] self@.events[i]).state.terminal() by {
                    assert(self@.events[i] == old(self)@.events[i]);
                    if i == old(self)@.events.len() - 1 {
                        assert(old(self)@.events.last() == self@.events[i]);
                    }
                }
            }
        }
        self.closed
    }

    /// Everything pushed, in order.
    #[must_use]
    pub fn events(&self) -> (r: &[TaskStatus])
        ensures
            r@ == self@.events,
    {
        self.events.as_slice()
    }

    /// Whether the stream has terminated.
    #[must_use]
    pub fn is_closed(&self) -> (r: bool)
        ensures
            r == self@.closed,
    {
        self.closed
    }

    /// What a subscriber joining now would see, from `after`. A position past the end sees nothing.
    #[must_use]
    pub fn replay_from(&self, after: TurnId) -> (r: &[TaskStatus])
        ensures
            r@ == (if after.0 <= self@.events.len() {
                self@.events.skip(after.0 as int)
            } else {
                Seq::empty()
            }),
    {
        let len: usize = self.events.len();
        let start: usize = if (after.0 as u64) < len as u64 {
            after.0 as usize
        } else {
            len
        };
        let r = slice_subrange(self.events.as_slice(), start, len);
        proof {
            if after.0 <= self@.events.len() {
                assert(r@ == self@.events.skip(after.0 as int));
            } else {
                assert(r@ == Seq::<TaskStatus>::empty());
            }
        }
        r
    }
}

/// The stream after some updates.
pub open spec fn pushed_all(s: StreamView, updates: Seq<TaskStatus>) -> StreamView
    decreases updates.len(),
{
    if updates.len() == 0 {
        s
    } else {
        pushed_all(s, updates.drop_last()).pushed(updates.last())
    }
}

/// A stream ends where the task does: whatever is pushed, a subscriber sees the updates up to the
/// first that is an end, in order, and nothing after it. Waiting for something is no end.
pub proof fn a_stream_ends_with_its_task(updates: Seq<TaskStatus>)
    ensures
        ({
            let s = pushed_all(StreamView { events: Seq::empty(), closed: false }, updates);
            &&& s.well_formed()
            &&& s.events.len() <= updates.len()
            &&& s.events == updates.take(s.events.len() as int)
            &&& !s.closed ==> s.events == updates
        }),
    decreases updates.len(),
{
    let start = StreamView { events: Seq::empty(), closed: false };
    if updates.len() > 0 {
        let rest = updates.drop_last();
        a_stream_ends_with_its_task(rest);
        let before = pushed_all(start, rest);
        let s = pushed_all(start, updates);
        if before.closed {
            assert(s.events == updates.take(s.events.len() as int));
        } else {
            assert(before.events == rest);
            assert(s.events == updates);
            assert forall|i: int| 0 <= i < s.events.len() - 1 implies !(
            #[trigger] s.events[i]).state.terminal() by {
                assert(s.events[i] == before.events[i]);
                if i == before.events.len() - 1 {
                    assert(before.events.last() == s.events[i]);
                }
            }
        }
    } else {
        assert(start.events == updates.take(0));
    }
}

/// A task has ended once it is completed, failed, canceled or rejected. It waits for someone while it
/// needs input or authorization, and it is under way while it is submitted or worked on.
pub proof fn states_mean_what_they_say(state: TaskState)
    ensures
        match state {
            TaskState::TaskStateCompleted
            | TaskState::TaskStateFailed
            | TaskState::TaskStateCanceled
            | TaskState::TaskStateRejected => state.terminal() && !state.interrupted()
                && !state.active(),
            TaskState::TaskStateInputRequired | TaskState::TaskStateAuthRequired => {
                state.interrupted() && !state.terminal() && !state.active()
            },
            TaskState::TaskStateSubmitted | TaskState::TaskStateWorking => state.active()
                && !state.terminal() && !state.interrupted(),
        },
{
}

/// The text of parts is that of the text parts, in their order, and of no other part.
pub proof fn texts_are_read_in_order(a: Seq<Part>, b: Seq<Part>, part: Part)
    ensures
        part_texts_of(a + b) == part_texts_of(a) + part_texts_of(b),
        part matches Part::Text { text } ==> part_texts_of(seq![part]) == seq![text@],
        !(part is Text) ==> part_texts_of(seq![part]) == Seq::<Seq<char>>::empty(),
    decreases b.len(),
{
    reveal_with_fuel(part_texts_of, 2);
    assert(seq![part].drop_last() == Seq::<Part>::empty());
    if b.len() == 0 {
        assert(a + b == a);
    } else {
        texts_are_read_in_order(a, b.drop_last(), part);
        assert((a + b).drop_last() == a + b.drop_last());
        assert((a + b).last() == b.last());
    }
}

/// A task that waits asks for what it waits for, in its own words where it has any: for
/// authorization where that is what it needs, and for an answer otherwise.
pub proof fn a_waiting_task_asks_for_it(task: Task)
    ensures
        waits_for(task) is Auth <==> task.status.state is TaskStateAuthRequired,
        match waits_for(task) {
            InputRequestView::Auth { resource } => match task.status.message {
                Some(m) => resource == m@,
                None => resource == task.id@,
            },
            InputRequestView::Choice { prompt, options } => options.len() == 0 && (
            task.status.message matches Some(m) ==> prompt == m@),
            _ => false,
        },
{
}

/// A status joins an open stream at its end, and a closed stream takes no more.
pub proof fn a_status_joins_an_open_stream(stream: StreamView, status: TaskStatus)
    ensures
        stream.closed ==> stream.pushed(status).events == stream.events,
        !stream.closed ==> stream.pushed(status).events.len() == stream.events.len() + 1
            && stream.pushed(status).events.last() == status && forall|i: int|
            0 <= i < stream.events.len() ==> stream.pushed(status).events[i]
                == #[trigger] stream.events[i],
        stream.pushed(status).closed <==> stream.closed || status.state is TaskStateCompleted
            || status.state is TaskStateFailed || status.state is TaskStateCanceled
            || status.state is TaskStateRejected,
{
}

} // verus!
