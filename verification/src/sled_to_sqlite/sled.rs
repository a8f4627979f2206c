//! The reading side: a tree store walked whole, tree by tree.

use crate::db::mem::SegStore;
use crate::db::model::{rows_to_map, unique_keys, SegView, StoreView};
use crate::db::names::{clone_bytes, view_names, view_rows};
use vstd::prelude::*;

verus! {

/// A fresh, empty tree store.
pub fn new_db() -> (r: SegStore)
    ensures
        r@ == Map::<Seq<u8>, SegView>::empty(),
        r.wf(),
{
    SegStore::new()
}

/// A store of named trees, read whole.
pub struct SledDB(SegStore);

impl SledDB {
    /// The content: tree names to tree contents.
    pub closed spec fn view(&self) -> StoreView {
        self.0@
    }

    /// The names are unique and every tree is well-formed.
    pub closed spec fn wf(&self) -> bool {
        self.0.wf()
    }

    /// Every tree's name with every one of its rows: each tree once, its
    /// rows carrying each key once and denoting exactly the tree's content.
    #[verifier::loop_isolation(false)]
    pub fn iter(&self) -> (r: Vec<(Vec<u8>, Vec<(Vec<u8>, Vec<u8>)>)>)
        ensures
            self.wf() ==> {
                &&& forall|i: int, j: int| 0 <= i < j < r@.len() ==> r@[i].0@ != r@[j].0@
                &&& forall|i: int|
                    0 <= i < r@.len() ==> self.view().dom().contains((#[trigger] r@[i]).0@)
                        && rows_to_map(view_rows(r@[i].1@)) == self.view()[r@[i].0@]
                        && unique_keys(view_rows(r@[i].1@))
                &&& forall|n: Seq<u8>|
                    #[trigger] self.view().dom().contains(n) ==> exists|i: int|
                        0 <= i < r@.len() && r@[i].0@ == n
            },
    {
        let trees = self.0.names();
        let ghost nv = view_names(trees@);
        let mut out: Vec<(Vec<u8>, Vec<(Vec<u8>, Vec<u8>)>)> = Vec::new();
        let n = trees.len();
        let mut i: usize = 0;
        while i < n
            invariant
                i <= n,
                self.wf() ==> {
                    &&& out@.len() == i
                    &&& forall|j: int| 0 <= j < i ==> (#[trigger] out@[j]).0@ == nv[j]
                    &&& forall|j: int|
                        0 <= j < i ==> self.view().dom().contains((#[trigger] out@[j]).0@)
                            && rows_to_map(view_rows(out@[j].1@)) == self.view()[out@[j].0@]
                            && unique_keys(view_rows(out@[j].1@))
                },
            decreases n - i,
        {
            match self.0.get(&trees[i]) {
                Some(m) => {
                    proof {
                        if self.wf() {
                            m.lemma_rows();
                        }
                    }
                    out.push((clone_bytes(&trees[i]), m.snapshot_rows()));
                },
                None => {
                    proof {
                        if self.wf() {
                            assert(self.view().dom().contains(nv[i as int]));
                            assert(false);
                        }
                    }
                },
            }
            i = i + 1;
        }
        proof {
            if self.wf() {
                assert forall|m: Seq<u8>| #[trigger] self.view().dom().contains(m) implies exists|
                    j: int,
                |
                    0 <= j < out@.len() && out@[j].0@ == m by {
                    assert(nv.contains(m));
                    let j = choose|j: int| 0 <= j < nv.len() && (#[trigger] nv[j]) == m;
                    assert(out@[j].0@ == m);
                }
            }
        }
        out
    }

    pub fn new(db: SegStore) -> (r: Self)
        ensures
            r.view() == db@,
            r.wf() == db.wf(),
    {
        Self(db)
    }
}

} // verus!
