//! Admission of renders: each identity may have one render in flight.

use vstd::prelude::*;
use std::collections::HashSet;
use crate::error::RenderError;

verus! {

broadcast use vstd::std_specs::hash::group_hash_axioms;

/// The identities that have a render in flight.
pub struct RenderGate {
    active: HashSet<u64>,
}

impl View for RenderGate {
    type V = Set<u64>;

    closed spec fn view(&self) -> Set<u64> {
        self.active@
    }
}

impl RenderGate {
    /// A gate with no render in flight.
    pub fn new() -> (gate: RenderGate)
        ensures
            gate@ == Set::<u64>::empty(),
    {
        RenderGate { active: HashSet::new() }
    }

    /// Whether the identity has a render in flight.
    pub fn is_rendering(&self, id: u64) -> (b: bool)
        ensures
            b == self@.contains(id),
    {
        self.active.contains(&id)
    }

    /// Admits a render for the identity. If it already has one in flight,
    /// nothing changes and the error is returned at once.
    pub fn try_acquire(&mut self, id: u64) -> (r: Result<(), RenderError>)
        ensures
            r.is_err() == old(self)@.contains(id),
            r.is_err() ==> r == Err::<(), RenderError>(RenderError::AlreadyRendering),
            r.is_err() ==> final(self)@ == old(self)@,
            r.is_ok() ==> final(self)@ == old(self)@.insert(id),
    {
        if self.active.contains(&id) {
            Err(RenderError::AlreadyRendering)
        } else {
            self.active.insert(id);
            Ok(())
        }
    }

    /// Marks the identity's render as finished.
    pub fn release(&mut self, id: u64)
        ensures
            final(self)@ == old(self)@.remove(id),
    {
        self.active.remove(&id);
        assert(self.active@ =~= old(self).active@.remove(id));
    }
}

} // verus!
