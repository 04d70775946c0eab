//! Eviction: what a put does to make room.

use vstd::prelude::*;
use crate::data::store::Store;

verus! {

impl Store {
    /// Removes the first entry that a walk meets, if there is any.
    pub fn evict_first(&mut self)
        ensures
            final(self)@.wf(),
            final(self)@ == old(self)@.with_entries(
                if old(self)@.entries.len() > 0 {
                    old(self)@.entries.drop_first()
                } else {
                    old(self)@.entries
                },
            ),
    {
        proof {
            use_type_invariant(&*self);
            self.lemma_inv();
        }
        if self.table.keys.len() > 0 {
            self.remove_at(0);
            assert(self@.entries =~= old(self)@.entries.drop_first());
        }
    }

    /// Makes room by the configured policy: `simple-first` removes one key,
    /// any other policy none.
    pub fn evict(&mut self)
        ensures
            final(self)@.wf(),
            final(self)@ == old(self)@.evict(),
    {
        proof {
            use_type_invariant(&*self);
            self.lemma_inv();
        }
        if self.config.eviction_strategy == "simple-first".to_owned() {
            self.evict_first();
        }
    }
}

} // verus!
