use vstd::prelude::*;

verus! {

/// What the reduction driver runs next.
#[derive(PartialEq, Eq, Structural, Clone, Copy, Debug)]
pub enum Phase {
    /// A size-reduction pass.
    SizeReduction,
    /// A Lovász swap pass.
    Swap,
    /// Nothing: the last round changed nothing, the basis is reduced.
    Done,
}

/// The reduction driver's state: whether each pass of the current round
/// changed the basis, and which pass comes next.
#[derive(PartialEq, Eq, Structural, Clone, Copy, Debug)]
pub struct ReductionDriver {
    pub gauss_changed: bool,
    pub lovasz_changed: bool,
    pub phase: Phase,
}

/// The driver after the pass it asked for reported `changed`.
pub open spec fn after_pass(d: ReductionDriver, changed: bool) -> ReductionDriver {
    match d.phase {
        Phase::SizeReduction => ReductionDriver {
            gauss_changed: changed,
            lovasz_changed: d.lovasz_changed,
            phase: Phase::Swap,
        },
        Phase::Swap => ReductionDriver {
            gauss_changed: d.gauss_changed,
            lovasz_changed: changed,
            phase: if d.gauss_changed || changed {
                Phase::SizeReduction
            } else {
                Phase::Done
            },
        },
        Phase::Done => d,
    }
}

/// The driver at the start: both flags set, a size-reduction pass first.
pub open spec fn initial_driver() -> ReductionDriver {
    ReductionDriver { gauss_changed: true, lovasz_changed: true, phase: Phase::SizeReduction }
}

impl ReductionDriver {
    /// A driver that starts with a size-reduction pass.
    pub fn new() -> (r: ReductionDriver)
        ensures
            r == initial_driver(),
    {
        ReductionDriver { gauss_changed: true, lovasz_changed: true, phase: Phase::SizeReduction }
    }

    /// The pass to run next, or `Done`.
    pub fn next_phase(&self) -> (r: Phase)
        ensures
            r == self.phase,
    {
        self.phase
    }

    /// Records whether the pass that was asked for changed the basis. After
    /// a swap pass the driver stops exactly when neither pass of the round
    /// changed anything.
    pub fn record(&mut self, changed: bool)
        requires
            old(self).phase != Phase::Done,
        ensures
            *final(self) == after_pass(*old(self), changed),
    {
        match self.phase {
            Phase::SizeReduction => {
                self.gauss_changed = changed;
                self.phase = Phase::Swap;
            },
            Phase::Swap => {
                self.lovasz_changed = changed;
                if self.gauss_changed || changed {
                    self.phase = Phase::SizeReduction;
                } else {
                    self.phase = Phase::Done;
                }
            },
            Phase::Done => {},
        }
    }
}

/// The driver stops only after a round in which the size-reduction pass and
/// the swap pass both changed nothing: when it is done, the basis is a fixed
/// point of both passes.
pub proof fn lemma_done_only_at_fixed_point(d: ReductionDriver, changed: bool)
    requires
        d.phase != Phase::Done,
    ensures
        after_pass(d, changed).phase == Phase::Done <==> (d.phase == Phase::Swap && !d.gauss_changed
            && !changed),
{
}

/// Reducing a basis that is already reduced takes one round: when both passes
/// report no change, the driver is done after them.
pub proof fn lemma_reduced_basis_one_round()
    ensures
        after_pass(after_pass(initial_driver(), false), false).phase == Phase::Done,
{
}

/// Once a round changes something, the driver runs another round.
pub proof fn lemma_change_means_another_round(d: ReductionDriver, changed: bool)
    requires
        d.phase == Phase::Swap,
        d.gauss_changed || changed,
    ensures
        after_pass(d, changed).phase == Phase::SizeReduction,
{
}

} // verus!
