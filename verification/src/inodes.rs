//! Hard links: which observation of a file is the first.

use std::collections::HashSet;
use vstd::prelude::*;

verus! {

/// What tells a file apart on one machine: the volume it is on, and its number there.
#[derive(Clone, Copy, Debug, PartialEq, Eq, Structural)]
pub struct FileId {
    pub volume: u64,
    pub file: u64,
}

/// The identity as one number.
spec fn key(id: FileId) -> u128 {
    (id.volume * 0x1_0000_0000_0000_0000 + id.file) as u128
}

/// The files observed so far.
pub struct InodeFilter {
    seen: HashSet<u128>,
}

impl View for InodeFilter {
    type V = Set<FileId>;

    closed spec fn view(&self) -> Set<FileId> {
        Set::new(|id: FileId| self.seen@.contains(key(id)))
    }
}

impl Default for InodeFilter {
    /// A filter that has observed nothing.
    fn default() -> (filter: InodeFilter)
        ensures
            filter@ == Set::<FileId>::empty(),
    {
        let filter = InodeFilter { seen: HashSet::new() };
        assert(filter@ =~= Set::<FileId>::empty());
        filter
    }
}

impl InodeFilter {
    /// Observe a file and say whether it was the first observation of its identity.
    ///
    /// Directories never collide, so they always pass, and leave no trace.
    pub fn add(&mut self, is_dir: bool, id: FileId) -> (first: bool)
        ensures
            first == (is_dir || !old(self)@.contains(id)),
            final(self)@ == if is_dir {
                old(self)@
            } else {
                old(self)@.insert(id)
            },
    {
        if is_dir {
            return true;
        }
        broadcast use vstd::std_specs::hash::group_hash_axioms;

        let number: u128 = id.volume as u128 * 0x1_0000_0000_0000_0000u128 + id.file as u128;
        assert(number == key(id));
        let first = self.seen.insert(number);
        assert(self@ =~= old(self)@.insert(id)) by {
            assert forall|other: FileId| key(other) == key(id) implies other == id by {}
        }
        first
    }
}

} // verus!
