use vstd::prelude::*;

use crate::ScanError;

verus! {

/// Bounds how many size-computation tasks run at once: a task must take a
/// slot before it starts and give the slot back when it finishes, whatever
/// its outcome, so that a waiting dispatcher can proceed.
pub struct ConcurrencyGate {
    live: u8,
    ceiling: u8,
}

impl ConcurrencyGate {
    /// The number of tasks currently holding a slot.
    pub closed spec fn spec_live(&self) -> int {
        self.live as int
    }

    /// The configured ceiling on simultaneous tasks.
    pub closed spec fn spec_ceiling(&self) -> int {
        self.ceiling as int
    }

    /// Well-formedness: the ceiling is positive and the live count stays
    /// at or under it.
    pub closed spec fn wf(&self) -> bool {
        1 <= self.ceiling && self.live <= self.ceiling
    }

    /// Makes a gate with the given ceiling and no live tasks; a bound of
    /// zero is an invalid configuration, rejected before any scanning.
    pub fn new(max_concurrency: u8) -> (r: Result<ConcurrencyGate, ScanError>)
        ensures
            max_concurrency == 0 ==> r == Err::<ConcurrencyGate, ScanError>(ScanError::Config),
            max_concurrency >= 1 ==> r is Ok && {
                let g = r->Ok_0;
                g.wf() && g.spec_live() == 0 && g.spec_ceiling() == max_concurrency as int
            },
    {
        if max_concurrency == 0 {
            Err(ScanError::Config)
        } else {
            Ok(ConcurrencyGate { live: 0, ceiling: max_concurrency })
        }
    }

    /// Whether a new task may start right now.
    pub fn can_admit(&self) -> (r: bool)
        ensures
            r == (self.spec_live() < self.spec_ceiling()),
    {
        self.live < self.ceiling
    }

    /// The number of tasks currently holding a slot.
    pub fn live_count(&self) -> (r: u8)
        ensures
            r as int == self.spec_live(),
    {
        self.live
    }

    /// The configured ceiling.
    pub fn ceiling(&self) -> (r: u8)
        ensures
            r as int == self.spec_ceiling(),
    {
        self.ceiling
    }

    /// Takes a slot for one task. Only callable while a slot is free: a
    /// dispatcher must wait until `can_admit` holds.
    pub fn acquire(&mut self)
        requires
            old(self).wf(),
            old(self).spec_live() < old(self).spec_ceiling(),
        ensures
            final(self).wf(),
            final(self).spec_live() == old(self).spec_live() + 1,
            final(self).spec_ceiling() == old(self).spec_ceiling(),
    {
        self.live = self.live + 1;
    }

    /// Gives a slot back. Called exactly once per `acquire`, on success
    /// and on failure alike, so that no slot is ever lost.
    pub fn release(&mut self)
        requires
            old(self).wf(),
            old(self).spec_live() >= 1,
        ensures
            final(self).wf(),
            final(self).spec_live() == old(self).spec_live() - 1,
            final(self).spec_ceiling() == old(self).spec_ceiling(),
    {
        self.live = self.live - 1;
    }
}

/// At most `spec_ceiling` size-computation tasks are live at any moment:
/// every reachable gate satisfies `wf`, and `wf` bounds the live count.
pub proof fn lemma_live_bounded(g: ConcurrencyGate)
    requires
        g.wf(),
    ensures
        g.spec_live() <= g.spec_ceiling(),
{
}

} // verus!
