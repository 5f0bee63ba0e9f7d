//! What the application asks of a solver.

use vstd::prelude::*;
use crate::error::CfdError;
use crate::field::{Ambient, Numerics, SolidField};
use crate::report::Report;
use crate::setup::StepInfo;
use crate::snapshot::Snapshot;

verus! {

/// A solver that the application can drive.
pub trait Solver: Send {
    /// The solver's own bookkeeping is in order.
    spec fn sound(&self) -> bool;

    /// One more step fits its counters.
    spec fn ready(&self) -> bool;

    /// Takes one step.
    fn step(&mut self) -> (r: Result<StepInfo, CfdError>)
        requires
            old(self).ready(),
        ensures
            final(self).sound(),
    ;

    /// Takes steps until the run has converged, `max_steps` at most. A run whose
    /// counters are full ends there.
    fn run(&mut self, max_steps: u64) -> (r: Result<StepInfo, CfdError>)
        requires
            old(self).sound(),
        ensures
            final(self).sound(),
    ;

    /// A display copy of the field.
    fn snapshot(&self) -> (r: Snapshot)
        requires
            self.sound(),
        ensures
            r.wf(),
    ;

    /// The engineering figures of the field.
    fn report(&self) -> (r: Report)
        requires
            self.sound(),
    ;

    /// Changes the surroundings and keeps the field.
    fn set_ambient(&mut self, a: Ambient)
        requires
            old(self).sound(),
        ensures
            final(self).sound(),
    ;

    /// Changes the geometry in the middle of a run.
    fn set_geometry(&mut self, solid: SolidField) -> (r: Result<(), CfdError>)
        requires
            old(self).sound(),
            solid.grid.wf(),
        ensures
            final(self).sound(),
    ;

    /// Changes the numerical options.
    fn set_numerics(&mut self, n: Numerics)
        requires
            old(self).sound(),
        ensures
            final(self).sound(),
    ;

    /// Steps since the problem last changed.
    fn step_count(&self) -> (r: u64)
    ;
}

/// What the application sends to the thread that runs a solver.
#[derive(Debug)]
pub enum SolverCommand {
    Pause(bool),
    SingleStep,
    Reset,
    Turbo(u32),
    SetAmbient(Ambient),
    SetGeometry(SolidField),
    SetNumerics(Numerics),
}

} // verus!
