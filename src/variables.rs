use crate::mir::MirVariable;
use std::collections::HashMap;
use vstd::prelude::*;
use vstd::std_specs::hash::spec_keys_iter;
use vstd::std_specs::iter::IteratorSpec;

verus! {

broadcast use vstd::std_specs::hash::group_hash_axioms;

/// Liveness records of one function, at most one per local index; the first
/// record pushed for an index is the one kept.
pub struct MirVariables(HashMap<usize, MirVariable>);

impl View for MirVariables {
    type V = Map<usize, MirVariable>;

    closed spec fn view(&self) -> Map<usize, MirVariable> {
        self.0@
    }
}

impl MirVariables {
    /// Every record is stored under its own local index.
    pub open spec fn wf(&self) -> bool {
        forall|k: usize| #[trigger] self@.contains_key(k) ==> self@[k].local_index() == k
    }

    /// An empty collection.
    pub fn new() -> (r: MirVariables)
        ensures
            r.wf(),
            r@ == Map::<usize, MirVariable>::empty(),
    {
        MirVariables(HashMap::new())
    }

    /// Stores `var` under its local index unless a record for that index is
    /// already there, in which case nothing changes.
    pub fn push(&mut self, var: MirVariable)
        requires
            old(self).wf(),
        ensures
            final(self).wf(),
            final(self)@ == (if old(self)@.contains_key(var.local_index()) {
                old(self)@
            } else {
                old(self)@.insert(var.local_index(), var)
            }),
    {
        let index = match &var {
            MirVariable::User { index, .. } => *index,
            MirVariable::Other { index, .. } => *index,
        };
        if self.0.get(&index).is_none() {
            self.0.insert(index, var);
            assert forall|k: usize| #[trigger] self@.contains_key(k) implies self@[k].local_index()
                == k by {
                if k != index {
                    assert(old(self)@.contains_key(k));
                }
            }
        }
    }

    /// All records, one per stored local index, in no particular order.
    pub fn to_vec(self) -> (r: Vec<MirVariable>)
        requires
            self.wf(),
        ensures
            r@.len() == self@.len(),
            forall|i: int|
                0 <= i < r@.len() ==> self@.contains_key(#[trigger] r@[i].local_index())
                    && self@[r@[i].local_index()] == r@[i],
            forall|k: usize|
                #[trigger] self@.contains_key(k) ==> exists|i: int|
                    0 <= i < r@.len() && r@[i].local_index() == k,
            forall|i: int, j: int|
                0 <= i < j < r@.len() ==> r@[i].local_index() != r@[j].local_index(),
    {
        let mut r: Vec<MirVariable> = Vec::new();
        let ghost ks = spec_keys_iter(&self.0).remaining();
        for k in it: self.0.keys()
            invariant
                self.wf(),
                it.seq() == ks,
                r@.len() == it.index(),
                forall|i: int| 0 <= i < r@.len() ==> #[trigger] r@[i] == self@[*ks[i]],
        {
            proof {
                assert(ks.unref().to_set().contains(*k)) by {
                    assert(ks.unref()[r@.len() as int] == *k);
                }
            }
            match self.0.get(k) {
                Some(v) => {
                    r.push(*v);
                },
                None => {
                    assert(false);
                },
            }
        }
        proof {
            assert forall|i: int| 0 <= i < r@.len() implies self@.contains_key(
                #[trigger] r@[i].local_index(),
            ) && self@[r@[i].local_index()] == r@[i] by {
                assert(ks.unref().to_set().contains(ks.unref()[i]));
            }
            assert forall|i: int, j: int| 0 <= i < j < r@.len() implies r@[i].local_index()
                != r@[j].local_index() by {
                assert(ks.unref().to_set().contains(ks.unref()[i]));
                assert(ks.unref().to_set().contains(ks.unref()[j]));
                assert(ks.no_duplicates());
            }
            assert forall|k: usize| #[trigger] self@.contains_key(k) implies exists|i: int|
                0 <= i < r@.len() && r@[i].local_index() == k by {
                assert(ks.unref().to_set().contains(k));
                let i = choose|i: int| 0 <= i < ks.len() && ks.unref()[i] == k;
                assert(r@[i] == self@[*ks[i]]);
            }
        }
        r
    }
}

} // verus!
