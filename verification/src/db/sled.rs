//! The sled-style backend: trees addressed by arbitrary byte-string names,
//! batches applied atomically, held in process memory.

use crate::db::mem::{RowMap, SegStore};
use crate::db::model::{RowView, SegView, StoreView};
use crate::db::names::{clone_bytes, clone_rows, view_rows};
use crate::db::{Database, MigrationError, RowField, Segment, SegmentIter, SkippedRow, StoreError, WriteError};
use vstd::prelude::*;

verus! {

/// A fresh, empty tree store.
pub fn new_db() -> (r: SegStore)
    ensures
        r@ == Map::<Seq<u8>, SegView>::empty(),
        r.wf(),
{
    SegStore::new()
}

/// Name validation: this store opens or creates every byte-string name,
/// kept losslessly.
pub proof fn lemma_name_validation(db: &SledDB, n: Seq<u8>)
    ensures
        db.openable(n),
{
}

/// A store of named trees.
pub struct SledDB(SegStore);

impl SledDB {
    pub fn new(db: SegStore) -> (r: Self)
        ensures
            r@ == db@,
            r.exact() == db.wf(),
            r.ready(),
    {
        Self(db)
    }
}

/// One tree, checked out of its store.
pub struct Tree {
    name: Vec<u8>,
    rows: RowMap,
}

/// One pass over a tree's rows; restartable.
pub struct SledTreeIter {
    rows: Vec<(Vec<u8>, Vec<u8>)>,
}

impl SegmentIter for SledTreeIter {
    closed spec fn rows(&self) -> Seq<RowView> {
        view_rows(self.rows@)
    }

    closed spec fn skips(&self) -> Seq<(int, RowField)> {
        Seq::empty()
    }

    closed spec fn exact(&self) -> bool {
        true
    }

    fn iter(&mut self) -> (r: Result<
        (Vec<(Vec<u8>, Vec<u8>)>, Vec<SkippedRow>),
        MigrationError,
    >) {
        Ok((clone_rows(&self.rows), Vec::new()))
    }
}

impl Segment for Tree {
    type It = SledTreeIter;

    closed spec fn content(&self) -> SegView {
        self.rows@
    }

    closed spec fn exact(&self) -> bool {
        self.rows.wf()
    }

    closed spec fn name(&self) -> Seq<u8> {
        self.name@
    }

    fn batch_insert(&mut self, batch: Vec<(Vec<u8>, Vec<u8>)>) -> (r: Result<(), WriteError>) {
        self.rows.insert_all(batch);
        Ok(())
    }

    fn get_iter(&mut self) -> (it: SledTreeIter) {
        proof {
            if self.rows.wf() {
                self.rows.lemma_rows();
            }
        }
        SledTreeIter { rows: self.rows.snapshot_rows() }
    }
}

impl Database for SledDB {
    type Seg = Tree;

    closed spec fn view(&self) -> StoreView {
        self.0@
    }

    closed spec fn exact(&self) -> bool {
        self.0.wf()
    }

    closed spec fn ready(&self) -> bool {
        true
    }

    closed spec fn openable(&self, name: Seq<u8>) -> bool {
        true
    }

    closed spec fn accepts(&self, name: Seq<u8>) -> bool {
        true
    }

    proof fn lemma_dom_openable(&self) {
    }

    fn names(&self) -> (r: Result<Vec<Vec<u8>>, StoreError>) {
        Ok(self.0.names())
    }

    fn segment(&mut self, name: Vec<u8>) -> (r: Option<Tree>) {
        let content = match self.0.get(&name) {
            Some(m) => m,
            None => RowMap::new(),
        };
        self.0.set(clone_bytes(&name), content.duplicate());
        Some(Tree { name, rows: content })
    }

    fn absorb(&mut self, seg: Tree) {
        self.0.set(seg.name, seg.rows);
    }

    fn flush(&mut self) {
    }
}

} // verus!

