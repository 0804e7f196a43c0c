//! A two-phase pipeline register: a value staged this cycle becomes readable
//! only after the next `update`.
use vstd::prelude::*;

verus! {

/// A pipeline register with a staged slot (written this cycle) and an active
/// slot (visible to the next stage).
pub struct Latch<T> {
    stage: Option<T>,
    active: Option<T>,
}

impl<T> Latch<T> {
    /// The value written this cycle, not yet visible.
    pub closed spec fn staged(&self) -> Option<T> {
        self.stage
    }

    /// The value visible to the consuming stage.
    pub closed spec fn active(&self) -> Option<T> {
        self.active
    }

    pub fn new() -> (r: Self)
        ensures
            r.staged() is None,
            r.active() is None,
    {
        Self { stage: None, active: None }
    }

    pub fn stage(&mut self, val: T)
        ensures
            final(self).staged() == Some(val),
            final(self).active() == old(self).active(),
    {
        self.stage = Some(val);
    }

    pub fn direct_stage(&mut self, maybe_val: Option<T>)
        ensures
            final(self).staged() == maybe_val,
            final(self).active() == old(self).active(),
    {
        self.stage = maybe_val;
    }

    /// Moves the staged value into the active slot, emptying the staged slot.
    pub fn update(&mut self)
        ensures
            final(self).active() == old(self).staged(),
            final(self).staged() is None,
    {
        self.active = self.stage.take();
    }

    /// Takes the active value, leaving the active slot empty.
    pub fn read(&mut self) -> (r: Option<T>)
        ensures
            r == old(self).active(),
            final(self).active() is None,
            final(self).staged() == old(self).staged(),
    {
        self.active.take()
    }

    /// Returns a copy of the active value without consuming it.
    /// Used to snapshot start-of-cycle state for hazard/forwarding checks.
    pub fn peek(&self) -> (r: Option<T>) where T: Copy
        ensures
            r == self.active(),
    {
        self.active
    }
}

} // verus!
