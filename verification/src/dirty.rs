//! Modified/dirty state tracking for editor documents.
//!
//! A generation counter increments on every change; the save point records
//! the generation at the last save, so "dirty" is a single comparison.

use vstd::prelude::*;

verus! {

/// Tracks whether a document has been modified since its last save.
#[derive(Debug, Clone)]
pub struct DirtyState {
    generation: u64,
    save_point: u64,
}

impl DirtyState {
    /// Number of changes recorded so far.
    pub closed spec fn spec_generation(&self) -> u64 {
        self.generation
    }

    /// Generation recorded at the last save.
    pub closed spec fn spec_save_point(&self) -> u64 {
        self.save_point
    }

    /// Whether the document differs from its last saved state.
    pub open spec fn spec_is_dirty(&self) -> bool {
        self.spec_generation() != self.spec_save_point()
    }

    /// Changes since the last save, saturating at zero.
    pub open spec fn spec_changes_since_save(&self) -> int {
        if self.spec_generation() >= self.spec_save_point() {
            self.spec_generation() - self.spec_save_point()
        } else {
            0
        }
    }

    /// The save point never lies ahead of the generation: it is a
    /// generation the document had.
    pub open spec fn wf(&self) -> bool {
        self.spec_save_point() <= self.spec_generation()
    }

    /// `self` is `prev` after one more change.
    pub open spec fn marked_dirty(&self, prev: &Self) -> bool {
        &&& self.spec_generation() == prev.spec_generation() + 1
        &&& self.spec_save_point() == prev.spec_save_point()
    }

    /// `self` is `prev` after a save.
    pub open spec fn marked_clean(&self, prev: &Self) -> bool {
        &&& self.spec_generation() == prev.spec_generation()
        &&& self.spec_save_point() == prev.spec_generation()
    }

    /// Create a new clean state (not dirty).
    pub fn new() -> (s: Self)
        ensures
            s.wf(),
            s.spec_generation() == 0,
            s.spec_save_point() == 0,
    {
        DirtyState { generation: 0, save_point: 0 }
    }

    /// Mark as modified. Call after any content change.
    pub fn mark_dirty(&mut self)
        requires
            old(self).spec_generation() < u64::MAX,
        ensures
            final(self).marked_dirty(old(self)),
            old(self).wf() ==> final(self).wf(),
    {
        self.generation = self.generation + 1;
    }

    /// Mark as clean (saved). Call after a successful save.
    pub fn mark_clean(&mut self)
        ensures
            final(self).marked_clean(old(self)),
            final(self).wf(),
    {
        self.save_point = self.generation;
    }

    /// Whether the document has unsaved changes.
    pub fn is_dirty(&self) -> (b: bool)
        ensures
            b == self.spec_is_dirty(),
    {
        self.generation != self.save_point
    }

    /// Whether the document has no unsaved changes.
    pub fn is_clean(&self) -> (b: bool)
        ensures
            b == !self.spec_is_dirty(),
    {
        !self.is_dirty()
    }

    /// Current generation counter.
    pub fn generation(&self) -> (g: u64)
        ensures
            g == self.spec_generation(),
    {
        self.generation
    }

    /// Generation at the last save point.
    pub fn save_point(&self) -> (g: u64)
        ensures
            g == self.spec_save_point(),
    {
        self.save_point
    }

    /// Number of changes since the last save (saturating).
    pub fn changes_since_save(&self) -> (n: u64)
        ensures
            n == self.spec_changes_since_save(),
    {
        self.generation.saturating_sub(self.save_point)
    }

    /// Reset to a completely clean initial state.
    pub fn reset(&mut self)
        ensures
            final(self).wf(),
            final(self).spec_generation() == 0,
            final(self).spec_save_point() == 0,
    {
        self.generation = 0;
        self.save_point = 0;
    }
}

impl Default for DirtyState {
    fn default() -> (s: Self)
        ensures
            s.wf(),
            s.spec_generation() == 0,
            s.spec_save_point() == 0,
    {
        Self::new()
    }
}

/// The change counter counts exactly: in every state the operations build,
/// the changes since the last save are the generation minus the save point,
/// and the document is dirty exactly when that count is not zero.
pub proof fn lemma_changes_count(s: DirtyState)
    requires
        s.wf(),
    ensures
        s.spec_changes_since_save() == s.spec_generation() - s.spec_save_point(),
        s.spec_is_dirty() <==> s.spec_changes_since_save() > 0,
{
}

/// A change makes the document dirty, with one more change since the save.
pub proof fn lemma_change_makes_dirty(s0: DirtyState, s1: DirtyState)
    requires
        s0.wf(),
        s1.marked_dirty(&s0),
    ensures
        s1.spec_is_dirty(),
        s1.spec_changes_since_save() == s0.spec_changes_since_save() + 1,
{
}

/// A save makes the document clean, with no change since.
pub proof fn lemma_save_makes_clean(s0: DirtyState, s1: DirtyState)
    requires
        s1.marked_clean(&s0),
    ensures
        !s1.spec_is_dirty(),
        s1.spec_changes_since_save() == 0,
{
}

} // verus!
