//! The per-game lock registry: an arena of named lock handles with
//! insert-if-absent creation and explicit removal once a game's terminal
//! operation has completed. The registry itself only owns the map from id
//! to handle; the surrounding program wraps it in its own mutual exclusion
//! and awaits the handles it is given.

use vstd::prelude::*;

use crate::table::Table;

verus! {

pub struct LockRegistry<L> {
    pub locks: Table<L>,
}

impl<L> LockRegistry<L> {
    pub open spec fn wf(&self) -> bool {
        self.locks.wf()
    }

    pub open spec fn view(&self) -> Map<Seq<char>, L> {
        self.locks@
    }

    pub fn new() -> (r: LockRegistry<L>)
        ensures
            r.wf(),
            r@ == Map::<Seq<char>, L>::empty(),
    {
        LockRegistry { locks: Table::new() }
    }

    /// Hand out the lock registered for `id`, registering `fresh` first
    /// when none is: concurrent first accesses, serialized by the caller's
    /// guard around the registry, converge to a single shared handle.
    pub fn acquire(&mut self, id: &str, fresh: L) -> (r: &L)
        requires
            old(self).wf(),
        ensures
            final(self).wf(),
            final(self)@ =~= if old(self)@.contains_key(id@) {
                old(self)@
            } else {
                old(self)@.insert(id@, fresh)
            },
            final(self)@.contains_key(id@),
            *r == final(self)@[id@],
            old(self)@.contains_key(id@) ==> *r == old(self)@[id@],
    {
        if !self.locks.contains_key(id) {
            self.locks.insert(id.to_owned(), fresh);
            proof {
                assert(self.locks@ =~= old(self)@.insert(id@, fresh));
            }
        } else {
            proof {
                assert(self.locks@ =~= old(self)@);
            }
        }
        match self.locks.get(id) {
            Some(l) => l,
            None => unreached(),
        }
    }

    /// Drop the registry entry for a finished game, bounding the arena's
    /// growth. Absent ids are left as they are.
    pub fn remove(&mut self, id: &str)
        requires
            old(self).wf(),
        ensures
            final(self).wf(),
            final(self)@ =~= old(self)@.remove(id@),
    {
        let _ = self.locks.remove(id);
    }

    pub fn len(&self) -> (r: usize)
        ensures
            r == self.locks.entries@.len(),
    {
        self.locks.len()
    }
}

} // verus!
