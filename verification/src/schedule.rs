//! How much runs at once.
//!
//! Work is done in two stages, one inside the other: files, and within each
//! file its entries. A stage hands out its items in order, never more at once
//! than its limit allows, and goes on with the next item whenever one
//! completes, whether that one succeeded or failed. The caller does the work
//! and reports each completion; the stage only decides.

use vstd::prelude::*;

verus! {

/// The state of a stage, in numbers.
pub struct StageState {
    /// How many items may be in flight at once.
    pub limit: nat,
    /// How many items there are.
    pub total: nat,
    /// How many items have been handed out.
    pub started: nat,
    /// How many of those have completed.
    pub finished: nat,
    /// How many of the completed ones failed.
    pub failed: nat,
}

impl StageState {
    /// How many items are in flight.
    pub open spec fn in_flight(self) -> int {
        self.started - self.finished
    }

    /// What holds of every stage: it lets at least one item run; no more
    /// items have completed than were handed out, nor more handed out than
    /// there are; and no more are in flight than the limit allows.
    pub open spec fn wf(self) -> bool {
        &&& self.limit >= 1
        &&& self.failed <= self.finished <= self.started <= self.total
        &&& self.in_flight() <= self.limit
    }

    /// The state of a stage of `total` items before any is handed out.
    pub open spec fn initial(limit: nat, total: nat) -> StageState {
        StageState { limit, total, started: 0, finished: 0, failed: 0 }
    }

    /// Whether the next item can be handed out: there is one, and room for it.
    pub open spec fn can_start(self) -> bool {
        self.started < self.total && self.in_flight() < self.limit
    }

    /// Whether every item has completed.
    pub open spec fn is_done(self) -> bool {
        self.finished == self.total
    }

    /// The state after the next item has been handed out.
    pub open spec fn after_start(self) -> StageState {
        StageState { started: self.started + 1, ..self }
    }

    /// The state after an item in flight has completed.
    pub open spec fn after_completion(self, ok: bool) -> StageState {
        StageState {
            finished: self.finished + 1,
            failed: if ok {
                self.failed
            } else {
                self.failed + 1
            },
            ..self
        }
    }
}

/// What a stage asks of its caller.
#[derive(Copy, Clone, PartialEq, Eq, Debug, Structural)]
pub enum Action {
    /// Start the item with this index.
    Start(usize),
    /// Wait for an item in flight to complete, and report it.
    Wait,
    /// Nothing is left to do.
    Done,
}

/// The action that a stage in state `state` asks for.
pub open spec fn action_of(state: StageState) -> Action {
    if state.can_start() {
        Action::Start(state.started as usize)
    } else if state.in_flight() > 0 {
        Action::Wait
    } else {
        Action::Done
    }
}

/// A stage: items handed out in order, a bounded number of them at once.
#[derive(Debug)]
pub struct Stage {
    limit: usize,
    total: usize,
    started: usize,
    finished: usize,
    failed: usize,
}

impl View for Stage {
    type V = StageState;

    closed spec fn view(&self) -> StageState {
        StageState {
            limit: self.limit as nat,
            total: self.total as nat,
            started: self.started as nat,
            finished: self.finished as nat,
            failed: self.failed as nat,
        }
    }
}

impl Stage {
    #[verifier::type_invariant]
    spec fn well_formed(self) -> bool {
        self@.wf()
    }

    /// A stage of `total` items, of which `limit` may be in flight at once.
    pub fn new(limit: usize, total: usize) -> (stage: Stage)
        requires
            limit >= 1,
        ensures
            stage@ == StageState::initial(limit as nat, total as nat),
            stage@.wf(),
    {
        Stage { limit, total, started: 0, finished: 0, failed: 0 }
    }

    /// What to do now. Where an item can be started it counts as handed out
    /// from here on.
    pub fn next(&mut self) -> (action: Action)
        ensures
            action == action_of(old(self)@),
            final(self)@ == if action is Start {
                old(self)@.after_start()
            } else {
                old(self)@
            },
            final(self)@.wf(),
            action is Done <==> old(self)@.is_done(),
        no_unwind
    {
        proof {
            use_type_invariant(&*self);
        }
        if self.started < self.total && self.started - self.finished < self.limit {
            let index = self.started;
            self.started = self.started + 1;
            Action::Start(index)
        } else if self.started > self.finished {
            Action::Wait
        } else {
            Action::Done
        }
    }

    /// Takes note that an item in flight has completed, well or not.
    pub fn complete(&mut self, ok: bool)
        requires
            old(self)@.in_flight() > 0,
        ensures
            final(self)@ == old(self)@.after_completion(ok),
            final(self)@.wf(),
        no_unwind
    {
        proof {
            use_type_invariant(&*self);
        }
        self.finished = self.finished + 1;
        if !ok {
            self.failed = self.failed + 1;
        }
    }

    /// How many items are in flight.
    pub fn in_flight(&self) -> (count: usize)
        ensures
            count == self@.in_flight(),
            self@.wf(),
    {
        proof {
            use_type_invariant(self);
        }
        self.started - self.finished
    }

    /// How many items may be in flight at once.
    pub fn limit(&self) -> (count: usize)
        ensures
            count == self@.limit,
    {
        self.limit
    }

    /// How many items there are.
    pub fn total(&self) -> (count: usize)
        ensures
            count == self@.total,
    {
        self.total
    }

    /// How many items have been handed out.
    pub fn started(&self) -> (count: usize)
        ensures
            count == self@.started,
    {
        self.started
    }

    /// How many items have completed.
    pub fn finished(&self) -> (count: usize)
        ensures
            count == self@.finished,
    {
        self.finished
    }

    /// How many of the completed items failed.
    pub fn failed(&self) -> (count: usize)
        ensures
            count == self@.failed,
    {
        self.failed
    }

    /// Whether every item has completed.
    pub fn is_done(&self) -> (done: bool)
        ensures
            done == self@.is_done(),
    {
        self.finished == self.total
    }
}

/// Never are more items in flight than the limit allows: the bound holds at
/// the start, and every step keeps it.
pub proof fn lemma_bound_is_kept(state: StageState, ok: bool)
    requires
        state.wf(),
    ensures
        state.in_flight() <= state.limit,
        StageState::initial(state.limit, state.total).wf(),
        state.can_start() ==> state.after_start().wf(),
        state.in_flight() > 0 ==> state.after_completion(ok).wf(),
{
}

/// A failure stops nothing: after an item has completed, well or not, the
/// next item can be handed out if there is one.
pub proof fn lemma_failure_is_isolated(state: StageState, ok: bool)
    requires
        state.wf(),
        state.in_flight() > 0,
    ensures
        state.after_completion(ok).started == state.started,
        state.after_completion(ok).total == state.total,
        state.started < state.total ==> state.after_completion(ok).can_start(),
{
}

/// A stage is done only when every item was handed out and has completed;
/// until then it asks for an item to be started or awaited.
pub proof fn lemma_done_is_complete(state: StageState)
    requires
        state.wf(),
    ensures
        action_of(state) is Done <==> state.is_done(),
        state.is_done() ==> state.started == state.total && state.in_flight() == 0,
{
}

} // verus!
