use vstd::prelude::*;

verus! {

/// Where the driver of a worker stands.
#[derive(Clone, Copy, Debug, PartialEq, Eq, Structural)]
pub enum DriverState {
    /// Stepping the installed graphs.
    Running,
    /// Stepping has stopped; the graphs are still installed.
    Interrupted,
    /// Every installed graph has been dropped.
    Terminated,
}

/// What the worker does after a check of the driver.
#[derive(Clone, Copy, Debug, PartialEq, Eq, Structural)]
pub enum Action {
    /// Run one scheduling step, waiting at most the cooldown for work.
    Step,
    /// Stop stepping and tear the graphs down.
    Stop,
}

/// How long, in milliseconds, a step may wait for work before it yields.
pub const COOLDOWN_MILLIS: u64 = 1;

/// The state and action after a check in `state`, given whether the abort
/// flag is set, whether the interrupt callback asks to stop, and whether
/// the probe reports the graph drained.
pub open spec fn next(state: DriverState, abort: bool, interrupt: bool, done: bool) -> (DriverState, Action) {
    match state {
        DriverState::Running => if abort || interrupt || done {
            (DriverState::Interrupted, Action::Stop)
        } else {
            (DriverState::Running, Action::Step)
        },
        s => (s, Action::Stop),
    }
}

/// Setting the abort flag stops a running driver at its next check, and
/// a stopped driver never steps again.
pub proof fn law_abort_stops(state: DriverState, interrupt: bool, done: bool)
    ensures
        next(state, true, interrupt, done).1 == Action::Stop,
        next(state, true, interrupt, done).0 != DriverState::Running,
        state != DriverState::Running ==> next(state, false, interrupt, done) == (state, Action::Stop),
{
}

/// Drives one worker's installed graphs until they drain or are
/// interrupted, then tears all of them down.
pub struct Driver {
    state: DriverState,
    installed: Vec<usize>,
}

impl Driver {
    pub closed spec fn state_spec(&self) -> DriverState {
        self.state
    }

    /// The identifiers of the graphs still installed.
    pub closed spec fn installed_spec(&self) -> Seq<usize> {
        self.installed@
    }

    /// A running driver over the graphs `installed`.
    pub fn new(installed: Vec<usize>) -> (r: Driver)
        ensures
            r.state_spec() == DriverState::Running,
            r.installed_spec() == installed@,
    {
        Driver { state: DriverState::Running, installed }
    }

    pub fn state(&self) -> (r: DriverState)
        ensures
            r == self.state_spec(),
    {
        self.state
    }

    /// Records one more installed graph.
    pub fn install(&mut self, id: usize)
        ensures
            final(self).state_spec() == old(self).state_spec(),
            final(self).installed_spec() == old(self).installed_spec().push(id),
    {
        self.installed.push(id);
    }

    /// One check, made before each scheduling step: the abort flag, the
    /// interrupt callback and the probe are read, and the driver says
    /// whether to step once more.
    pub fn check(&mut self, abort: bool, interrupt: bool, done: bool) -> (r: Action)
        ensures
            (final(self).state_spec(), r) == next(old(self).state_spec(), abort, interrupt, done),
            final(self).installed_spec() == old(self).installed_spec(),
    {
        match self.state {
            DriverState::Running => {
                if abort || interrupt || done {
                    self.state = DriverState::Interrupted;
                    Action::Stop
                } else {
                    Action::Step
                }
            },
            _ => Action::Stop,
        }
    }

    /// Tears down: hands back every installed graph, to be dropped whether
    /// or not it drained, and leaves none installed.
    pub fn shutdown(&mut self) -> (r: Vec<usize>)
        ensures
            r@ == old(self).installed_spec(),
            final(self).installed_spec() == Seq::<usize>::empty(),
            final(self).state_spec() == DriverState::Terminated,
    {
        self.state = DriverState::Terminated;
        let mut dropped: Vec<usize> = Vec::new();
        dropped.append(&mut self.installed);
        dropped
    }
}

} // verus!
