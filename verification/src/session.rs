//! The state of one transfer and the rule by which it advances.
//!
//! A session performs no input or output itself. It names the next thing to
//! do as an [`Action`]; whoever drives it carries the action out and hands
//! back what happened as an [`Event`]. The session then moves on.

use vstd::prelude::*;
use crate::config::TransferConfig;
use crate::error::TransferError;

verus! {

/// The coarse state of a transfer. A session only ever moves forward through
/// these: from `Idle` to `Transferring`, and from there to `Completed` or to
/// `Failed`.
#[derive(Clone, Copy, Debug, PartialEq, Eq, Structural)]
pub enum Phase {
    Idle,
    Transferring,
    Completed,
    Failed,
}

/// The exact state of a transfer: the phase, and within `Transferring` the
/// operation whose outcome is awaited.
#[derive(Clone, Copy, Debug, PartialEq, Eq, Structural)]
pub enum Stage {
    /// Nothing has been opened yet.
    Idle,
    /// A read of the source is awaited.
    Reading,
    /// A write of the `len` bytes just read is awaited.
    Writing { len: usize },
    /// The delivery of a progress report is awaited.
    Reporting,
    /// The final flush of the sink is awaited.
    Flushing,
    /// Every byte was moved and the sink was flushed.
    Completed,
    /// The transfer was given up.
    Failed { error: TransferError },
}

/// What happened outside the session since its last action.
#[derive(Clone, Copy, Debug, PartialEq, Eq, Structural)]
pub enum Event {
    /// Source and sink were opened, and the source is `total_size` bytes long.
    Opened { total_size: u64 },
    /// The source delivered `len` bytes; zero means that it is exhausted.
    ChunkRead { len: usize },
    /// The sink took the whole chunk.
    ChunkWritten,
    /// The progress report was delivered.
    Reported,
    /// The sink was flushed.
    Flushed,
    /// The operation failed.
    Failed { error: TransferError },
}

/// What the driver of a session has to do next.
#[derive(Clone, Copy, Debug, PartialEq, Eq, Structural)]
pub enum Action {
    /// Open source and sink.
    Open,
    /// Read at most `limit` bytes from the source.
    Read { limit: usize },
    /// Write the `len` bytes just read to the sink.
    Write { len: usize },
    /// Tell the observer how many bytes have been moved, out of how many.
    Report { transferred: u64, total: u64 },
    /// Flush the sink.
    Flush,
    /// Release source and sink: the transfer succeeded.
    Finish,
    /// Release source and sink, and pass the error on.
    Abort { error: TransferError },
}

/// The mathematical state of a session.
pub ghost struct SessionState {
    /// The largest number of bytes asked of the source at once.
    pub chunk_size: usize,
    /// Whether progress is reported after each chunk.
    pub report_progress: bool,
    /// The length of the source as announced when it was opened; zero
    /// before.
    pub total_size: u64,
    /// The number of bytes that the sink has taken so far.
    pub transferred: nat,
    pub stage: Stage,
}

impl SessionState {
    /// The state of a session on which nothing has happened yet.
    pub open spec fn fresh(chunk_size: usize, report_progress: bool) -> SessionState {
        SessionState {
            chunk_size,
            report_progress,
            total_size: 0,
            transferred: 0,
            stage: Stage::Idle,
        }
    }

    /// This state in another stage.
    pub open spec fn at(self, stage: Stage) -> SessionState {
        SessionState { stage, ..self }
    }

    pub open spec fn phase(self) -> Phase {
        match self.stage {
            Stage::Idle => Phase::Idle,
            Stage::Completed => Phase::Completed,
            Stage::Failed { .. } => Phase::Failed,
            _ => Phase::Transferring,
        }
    }

    /// Whether the session has ended, one way or the other.
    pub open spec fn terminal(self) -> bool {
        self.stage is Completed || self.stage is Failed
    }

    /// The state that follows `self` when `event` arrives.
    ///
    /// A session that has ended stays as it is. A failure ends a session that
    /// has not. Otherwise the event is taken if it answers the awaited
    /// operation, and an event that does not leaves the state unchanged. A
    /// read that delivers more than was asked for counts as a failure of the
    /// source.
    pub open spec fn next(self, event: Event) -> SessionState {
        if self.terminal() {
            self
        } else {
            match (self.stage, event) {
                (_, Event::Failed { error }) => self.at(Stage::Failed { error }),
                (Stage::Idle, Event::Opened { total_size }) => SessionState {
                    total_size,
                    stage: Stage::Reading,
                    ..self
                },
                (Stage::Reading, Event::ChunkRead { len }) => if len == 0 {
                    self.at(Stage::Flushing)
                } else if len <= self.chunk_size {
                    self.at(Stage::Writing { len })
                } else {
                    self.at(Stage::Failed { error: TransferError::ReadError })
                },
                (Stage::Writing { len }, Event::ChunkWritten) => SessionState {
                    transferred: self.transferred + len as nat,
                    stage: if self.report_progress {
                        Stage::Reporting
                    } else {
                        Stage::Reading
                    },
                    ..self
                },
                (Stage::Reporting, Event::Reported) => self.at(Stage::Reading),
                (Stage::Flushing, Event::Flushed) => self.at(Stage::Completed),
                _ => self,
            }
        }
    }

    /// What the driver has to do in this state.
    pub open spec fn pending(self) -> Action {
        match self.stage {
            Stage::Idle => Action::Open,
            Stage::Reading => Action::Read { limit: self.chunk_size },
            Stage::Writing { len } => Action::Write { len },
            Stage::Reporting => Action::Report {
                transferred: self.transferred as u64,
                total: self.total_size,
            },
            Stage::Flushing => Action::Flush,
            Stage::Completed => Action::Finish,
            Stage::Failed { error } => Action::Abort { error },
        }
    }

    /// The state reached from `self` by a sequence of events.
    pub open spec fn run(self, events: Seq<Event>) -> SessionState
        decreases events.len(),
    {
        if events.len() == 0 {
            self
        } else {
            self.run(events.drop_last()).next(events.last())
        }
    }

    /// The progress values of the reports asked for in answer to `events`,
    /// in the order in which they were asked for.
    pub open spec fn reports(self, events: Seq<Event>) -> Seq<u64>
        decreases events.len(),
    {
        if events.len() == 0 {
            Seq::empty()
        } else {
            let earlier = self.reports(events.drop_last());
            match self.run(events).pending() {
                Action::Report { transferred, .. } => earlier.push(transferred),
                _ => earlier,
            }
        }
    }

    /// The number of bytes whose writing was confirmed in the course of
    /// `events`.
    pub open spec fn confirmed(self, events: Seq<Event>) -> nat
        decreases events.len(),
    {
        if events.len() == 0 {
            0
        } else {
            let earlier = self.confirmed(events.drop_last());
            match (self.run(events.drop_last()).stage, events.last()) {
                (Stage::Writing { len }, Event::ChunkWritten) => earlier + len as nat,
                _ => earlier,
            }
        }
    }
}

/// The place of a phase in the order in which a session passes through them.
pub open spec fn phase_rank(phase: Phase) -> nat {
    match phase {
        Phase::Idle => 0,
        Phase::Transferring => 1,
        Phase::Completed => 2,
        Phase::Failed => 2,
    }
}

/// One transfer under way: its configuration, how far it has come, and what
/// it is waiting for.
#[derive(Debug)]
pub struct TransferSession {
    config: TransferConfig,
    total_size: u64,
    bytes_transferred: u64,
    stage: Stage,
}

impl View for TransferSession {
    type V = SessionState;

    closed spec fn view(&self) -> SessionState {
        SessionState {
            chunk_size: self.config.chunk(),
            report_progress: self.config.reports(),
            total_size: self.total_size,
            transferred: self.bytes_transferred as nat,
            stage: self.stage,
        }
    }
}

impl TransferSession {
    /// A session on which nothing has happened yet.
    pub fn new(config: TransferConfig) -> (session: TransferSession)
        ensures
            session@ == SessionState::fresh(config.chunk(), config.reports()),
    {
        TransferSession { config, total_size: 0, bytes_transferred: 0, stage: Stage::Idle }
    }

    /// What the driver has to do now.
    pub fn pending_action(&self) -> (action: Action)
        ensures
            action == self@.pending(),
    {
        match self.stage {
            Stage::Idle => Action::Open,
            Stage::Reading => Action::Read { limit: self.config.chunk_size() },
            Stage::Writing { len } => Action::Write { len },
            Stage::Reporting => Action::Report {
                transferred: self.bytes_transferred,
                total: self.total_size,
            },
            Stage::Flushing => Action::Flush,
            Stage::Completed => Action::Finish,
            Stage::Failed { error } => Action::Abort { error },
        }
    }

    /// Takes note of `event` and says what to do next.
    ///
    /// The count of bytes moved must stay within `u64`.
    pub fn step(&mut self, event: Event) -> (action: Action)
        requires
            old(self)@.next(event).transferred <= u64::MAX,
        ensures
            final(self)@ == old(self)@.next(event),
            action == final(self)@.pending(),
    {
        match (self.stage, event) {
            (Stage::Completed, _) => {},
            (Stage::Failed { .. }, _) => {},
            (_, Event::Failed { error }) => {
                self.stage = Stage::Failed { error };
            },
            (Stage::Idle, Event::Opened { total_size }) => {
                self.total_size = total_size;
                self.stage = Stage::Reading;
            },
            (Stage::Reading, Event::ChunkRead { len }) => {
                if len == 0 {
                    self.stage = Stage::Flushing;
                } else if len <= self.config.chunk_size() {
                    self.stage = Stage::Writing { len };
                } else {
                    self.stage = Stage::Failed { error: TransferError::ReadError };
                }
            },
            (Stage::Writing { len }, Event::ChunkWritten) => {
                self.bytes_transferred = self.bytes_transferred + len as u64;
                if self.config.report_progress() {
                    self.stage = Stage::Reporting;
                } else {
                    self.stage = Stage::Reading;
                }
            },
            (Stage::Reporting, Event::Reported) => {
                self.stage = Stage::Reading;
            },
            (Stage::Flushing, Event::Flushed) => {
                self.stage = Stage::Completed;
            },
            _ => {},
        }
        self.pending_action()
    }

    /// Does what [`TransferSession::step`] does wherever the count of bytes
    /// moved stays within `u64`. Where it would not, the session is left as
    /// it is and `None` is returned.
    pub fn try_step(&mut self, event: Event) -> (r: Option<Action>)
        ensures
            old(self)@.next(event).transferred <= u64::MAX ==> {
                &&& final(self)@ == old(self)@.next(event)
                &&& r == Some(final(self)@.pending())
            },
            old(self)@.next(event).transferred > u64::MAX ==> {
                &&& final(self)@ == old(self)@
                &&& r is None
            },
    {
        match (self.stage, event) {
            (Stage::Writing { len }, Event::ChunkWritten) => {
                if self.bytes_transferred > u64::MAX - len as u64 {
                    return None;
                }
            },
            _ => {},
        }
        Some(self.step(event))
    }

    /// Where the session stands.
    pub fn phase(&self) -> (phase: Phase)
        ensures
            phase == self@.phase(),
    {
        match self.stage {
            Stage::Idle => Phase::Idle,
            Stage::Completed => Phase::Completed,
            Stage::Failed { .. } => Phase::Failed,
            _ => Phase::Transferring,
        }
    }

    /// The operation that the session is waiting for.
    pub fn stage(&self) -> (stage: Stage)
        ensures
            stage == self@.stage,
    {
        self.stage
    }

    /// The number of bytes that the sink has taken so far.
    pub fn bytes_transferred(&self) -> (n: u64)
        ensures
            n == self@.transferred,
    {
        self.bytes_transferred
    }

    /// The length of the source as announced when it was opened; zero
    /// before.
    pub fn total_size(&self) -> (n: u64)
        ensures
            n == self@.total_size,
    {
        self.total_size
    }

    /// How the session ended: `None` while it has not.
    pub fn outcome(&self) -> (r: Option<Result<(), TransferError>>)
        ensures
            r == match self@.stage {
                Stage::Completed => Some(Ok::<(), TransferError>(())),
                Stage::Failed { error } => Some(Err::<(), TransferError>(error)),
                _ => None::<Result<(), TransferError>>,
            },
    {
        match self.stage {
            Stage::Completed => Some(Ok(())),
            Stage::Failed { error } => Some(Err(error)),
            _ => None,
        }
    }
}

/// A single event never moves a session back to an earlier phase, never
/// lowers the count of bytes moved, and leaves the configuration alone. The
/// length of the source is fixed once the session has left `Idle`. A session
/// that has ended is not changed by any event.
pub proof fn lemma_step_only_advances(s: SessionState, event: Event)
    ensures
        phase_rank(s.next(event).phase()) >= phase_rank(s.phase()),
        s.next(event).transferred >= s.transferred,
        s.next(event).chunk_size == s.chunk_size,
        s.next(event).report_progress == s.report_progress,
        !(s.stage is Idle) ==> s.next(event).total_size == s.total_size,
        s.terminal() ==> s.next(event) == s,
{
}

/// The same holds of every sequence of events.
pub proof fn lemma_run_only_advances(s: SessionState, events: Seq<Event>)
    ensures
        phase_rank(s.run(events).phase()) >= phase_rank(s.phase()),
        s.run(events).transferred >= s.transferred,
        s.run(events).chunk_size == s.chunk_size,
        s.run(events).report_progress == s.report_progress,
        !(s.stage is Idle) ==> s.run(events).total_size == s.total_size,
        s.terminal() ==> s.run(events) == s,
    decreases events.len(),
{
    if events.len() > 0 {
        lemma_run_only_advances(s, events.drop_last());
        lemma_step_only_advances(s.run(events.drop_last()), events.last());
    }
}

/// Once a session has failed, whatever happens afterwards, the only thing it
/// asks for is to give up with the error that ended it, and no further byte
/// is counted.
pub proof fn lemma_failure_is_final(
    s: SessionState,
    error: TransferError,
    events: Seq<Event>,
)
    requires
        !s.terminal(),
    ensures
        s.next(Event::Failed { error }).run(events).pending() == (Action::Abort { error }),
        s.next(Event::Failed { error }).run(events).transferred == s.transferred,
{
    lemma_run_only_advances(s.next(Event::Failed { error }), events);
}

/// The count of bytes moved grows by exactly the lengths of the writes that
/// were confirmed.
pub proof fn lemma_counter_tracks_writes(s: SessionState, events: Seq<Event>)
    ensures
        s.run(events).transferred == s.transferred + s.confirmed(events),
    decreases events.len(),
{
    if events.len() > 0 {
        lemma_counter_tracks_writes(s, events.drop_last());
    }
}

/// Successive progress reports never decrease, and each lies between the
/// count at the start and the count at the end.
pub proof fn lemma_reports_non_decreasing(s: SessionState, events: Seq<Event>)
    requires
        s.run(events).transferred <= u64::MAX,
    ensures
        forall|i: int, j: int|
            0 <= i <= j < s.reports(events).len() ==> s.reports(events)[i] <= s.reports(events)[j],
        forall|i: int|
            0 <= i < s.reports(events).len() ==> s.transferred <= (#[trigger] s.reports(events)[i])
                && s.reports(events)[i] <= s.run(events).transferred,
    decreases events.len(),
{
    if events.len() > 0 {
        let earlier = events.drop_last();
        let before = s.reports(earlier);
        let after = s.reports(events);
        let count = s.run(events).transferred;
        lemma_step_only_advances(s.run(earlier), events.last());
        lemma_run_only_advances(s, events);
        lemma_reports_non_decreasing(s, earlier);
        assert(after == before || after == before.push(count as u64));
        assert forall|i: int| 0 <= i < after.len() implies s.transferred <= (#[trigger] after[i])
            && after[i] <= count by {
            if i < before.len() {
                assert(after[i] == before[i]);
            }
        }
        assert forall|i: int, j: int| 0 <= i <= j < after.len() implies after[i] <= after[j] by {
            if j < before.len() {
                assert(after[i] == before[i] && after[j] == before[j]);
            } else if i < before.len() {
                assert(after[i] == before[i]);
            }
        }
    }
}

/// Where progress is reported, the latest report equals the number of bytes
/// that the sink has taken: the count at the start plus the lengths of the
/// writes confirmed since.
pub proof fn lemma_last_report_is_total(s: SessionState, events: Seq<Event>)
    requires
        s.report_progress,
        s.run(events).transferred <= u64::MAX,
    ensures
        s.reports(events).len() > 0 ==> s.reports(events).last() == s.transferred + s.confirmed(
            events,
        ),
        s.reports(events).len() == 0 ==> s.confirmed(events) == 0,
    decreases events.len(),
{
    lemma_counter_tracks_writes(s, events);
    if events.len() > 0 {
        let earlier = events.drop_last();
        lemma_step_only_advances(s.run(earlier), events.last());
        lemma_run_only_advances(s, earlier);
        lemma_counter_tracks_writes(s, earlier);
        lemma_last_report_is_total(s, earlier);
    }
}

} // verus!
