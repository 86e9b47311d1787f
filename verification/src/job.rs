//! The conversion of one file: the order of the steps from its first entry
//! to the closing of the output.

use crate::schedule::Action;
use crate::schedule::Stage;
use crate::schedule::StageState;
use vstd::prelude::*;

verus! {

/// How far the conversion of a file has come.
#[derive(Copy, Clone, PartialEq, Eq, Debug, Structural)]
pub enum Phase {
    /// Entries are being worked on; the output is open.
    Converting,
    /// Every entry has completed and the output is being closed.
    Closing,
    /// The output has been closed, well or not.
    Finished(bool),
}

/// What the conversion of a file asks for next.
#[derive(Copy, Clone, PartialEq, Eq, Debug, Structural)]
pub enum Step {
    /// Read, convert and write the entry with this index.
    StartEntry(usize),
    /// Wait for what is in flight, and report it.
    Wait,
    /// Close the output, and report how that went.
    CloseWriter,
    /// The file is done; it was converted if the output was closed well.
    Finished(bool),
}

/// The state of the conversion of a file.
pub struct JobState {
    pub stage: StageState,
    pub phase: Phase,
}

impl JobState {
    /// What holds of every conversion: its entries are a stage, and the
    /// output is closed only when every entry has completed.
    pub open spec fn wf(self) -> bool {
        &&& self.stage.wf()
        &&& !(self.phase is Converting) ==> self.stage.is_done()
    }

    /// The step that is asked for in this state.
    pub open spec fn step(self) -> Step {
        match self.phase {
            Phase::Converting => if self.stage.can_start() {
                Step::StartEntry(self.stage.started as usize)
            } else if self.stage.in_flight() > 0 {
                Step::Wait
            } else {
                Step::CloseWriter
            },
            Phase::Closing => Step::Wait,
            Phase::Finished(ok) => Step::Finished(ok),
        }
    }

    /// The state after the step that is asked for has been handed out.
    pub open spec fn after_step(self) -> JobState {
        match self.step() {
            Step::StartEntry(_) => JobState { stage: self.stage.after_start(), ..self },
            Step::CloseWriter => JobState { phase: Phase::Closing, ..self },
            _ => self,
        }
    }
}

/// The conversion of one file: its entries as a stage, then the closing of
/// the output.
#[derive(Debug)]
pub struct FileJob {
    stage: Stage,
    phase: Phase,
}

impl View for FileJob {
    type V = JobState;

    closed spec fn view(&self) -> JobState {
        JobState { stage: self.stage@, phase: self.phase }
    }
}

impl FileJob {
    #[verifier::type_invariant]
    spec fn well_formed(self) -> bool {
        self@.wf()
    }

    /// The conversion of a file with `entries` entries to work on, of which
    /// `limit` may be in flight at once.
    pub fn new(limit: usize, entries: usize) -> (job: FileJob)
        requires
            limit >= 1,
        ensures
            job@.stage == StageState::initial(limit as nat, entries as nat),
            job@.phase == Phase::Converting,
            job@.wf(),
    {
        FileJob { stage: Stage::new(limit, entries), phase: Phase::Converting }
    }

    /// What to do next. While entries are left they are handed out as the
    /// limit allows; once every entry has completed, whether it failed or not,
    /// the output is to be closed, once; after that nothing is started.
    pub fn next(&mut self) -> (step: Step)
        ensures
            step == old(self)@.step(),
            final(self)@ == old(self)@.after_step(),
            final(self)@.wf(),
    {
        proof {
            use_type_invariant(&*self);
        }
        match self.phase {
            Phase::Converting => match self.stage.next() {
                Action::Start(index) => Step::StartEntry(index),
                Action::Wait => Step::Wait,
                Action::Done => {
                    self.phase = Phase::Closing;
                    Step::CloseWriter
                },
            },
            Phase::Closing => Step::Wait,
            Phase::Finished(ok) => Step::Finished(ok),
        }
    }

    /// Takes note that an entry in flight has completed, well or not.
    pub fn entry_done(&mut self, ok: bool)
        requires
            old(self)@.stage.in_flight() > 0,
        ensures
            final(self)@.stage == old(self)@.stage.after_completion(ok),
            final(self)@.phase == old(self)@.phase,
            final(self)@.wf(),
    {
        proof {
            use_type_invariant(&*self);
        }
        self.stage.complete(ok);
    }

    /// Takes note that the output has been closed, well or not.
    pub fn writer_closed(&mut self, ok: bool)
        requires
            old(self)@.phase is Closing,
        ensures
            final(self)@.stage == old(self)@.stage,
            final(self)@.phase == Phase::Finished(ok),
            final(self)@.wf(),
    {
        proof {
            use_type_invariant(&*self);
        }
        self.phase = Phase::Finished(ok);
    }

    /// How far the conversion has come.
    pub fn phase(&self) -> (phase: Phase)
        ensures
            phase == self@.phase,
            self@.wf(),
    {
        proof {
            use_type_invariant(self);
        }
        self.phase
    }

    /// How many entries are in flight.
    pub fn in_flight(&self) -> (count: usize)
        ensures
            count == self@.stage.in_flight(),
    {
        self.stage.in_flight()
    }

    /// How many entries have completed.
    pub fn finished(&self) -> (count: usize)
        ensures
            count == self@.stage.finished,
    {
        self.stage.finished()
    }

    /// How many of the completed entries failed.
    pub fn failed(&self) -> (count: usize)
        ensures
            count == self@.stage.failed,
    {
        self.stage.failed()
    }
}

/// The output is closed exactly once, after the last entry: closing is asked
/// for only while entries are being worked on, when every entry has been
/// handed out and has completed, and from then on neither an entry nor the
/// closing is asked for again.
pub proof fn lemma_closed_once(state: JobState)
    requires
        state.wf(),
    ensures
        state.step() is CloseWriter ==> state.phase is Converting && state.stage.is_done()
            && state.stage.started == state.stage.total && state.after_step().phase is Closing,
        state.stage.total <= usize::MAX ==> (state.step() matches Step::StartEntry(index)
            ==> index == state.stage.started && index < state.stage.total),
        state.step() is StartEntry ==> state.phase is Converting,
        !(state.phase is Converting) ==> !(state.step() is CloseWriter) && !(state.step()
            is StartEntry) && !(state.after_step().phase is Converting),
{
}

/// The failure of an entry does not keep the output from being closed: once
/// every entry has completed, however many failed, closing is asked for.
pub proof fn lemma_closed_whatever_failed(state: JobState)
    requires
        state.wf(),
        state.phase is Converting,
        state.stage.is_done(),
    ensures
        state.step() is CloseWriter,
{
}

} // verus!
