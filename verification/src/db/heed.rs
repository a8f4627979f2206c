//! An LMDB-style backend: one environment of named databases, addressed by
//! UTF-8 names, held in process memory.  A segment name that is not valid
//! UTF-8 cannot be opened here and is never present, so enumeration returns
//! UTF-8 names only.

use crate::db::mem::{RowMap, SegStore};
use crate::db::model::{RowView, SegView, StoreView};
use crate::db::names::{check_utf8, clone_bytes, clone_rows, is_utf8, utf8_names, view_rows};
use crate::db::{Database, MigrationError, RowField, Segment, SegmentIter, SkippedRow, StoreError, WriteError};
use vstd::prelude::*;

verus! {

/// A problem with the connection to the environment.
#[derive(Debug)]
pub struct HeedError(String);

impl HeedError {
    /// The human-readable description.
    pub fn message(&self) -> &String {
        &self.0
    }
}

/// A fresh, empty environment.
pub fn new_db() -> (r: Result<SegStore, HeedError>)
    ensures
        r is Ok,
        (r->Ok_0)@ == Map::<Seq<u8>, SegView>::empty(),
        (r->Ok_0).wf(),
{
    Ok(SegStore::new())
}

/// Name validation: this environment opens or creates exactly the valid
/// UTF-8 names.  A name that is not valid UTF-8 is never present in an exact
/// environment, so enumeration never returns it, and it cannot be opened or
/// created; it is refused whole, never truncated or altered.
pub proof fn lemma_name_validation(db: &HeedDB, n: Seq<u8>)
    requires
        db.exact(),
    ensures
        db.openable(n) == is_utf8(n),
        !is_utf8(n) ==> !db.view().dom().contains(n),
{
}

/// An environment of named databases.
pub struct HeedDB(SegStore);

impl HeedDB {
    pub fn new(env: SegStore) -> (r: Self)
        ensures
            r@ == env@,
            r.exact() == (env.wf() && utf8_names(env@)),
            r.ready(),
    {
        Self(env)
    }
}

/// One named database, checked out of its environment.
pub struct HeedSegment {
    name: Vec<u8>,
    rows: RowMap,
}

/// One pass over a database's rows; restartable.
pub struct HeedSegmentIter {
    rows: Vec<(Vec<u8>, Vec<u8>)>,
}

impl SegmentIter for HeedSegmentIter {
    closed spec fn rows(&self) -> Seq<RowView> {
        view_rows(self.rows@)
    }

    closed spec fn skips(&self) -> Seq<(int, RowField)> {
        Seq::empty()
    }

    closed spec fn exact(&self) -> bool {
        true
    }

    fn iter(&mut self) -> (r: Result<
        (Vec<(Vec<u8>, Vec<u8>)>, Vec<SkippedRow>),
        MigrationError,
    >) {
        Ok((clone_rows(&self.rows), Vec::new()))
    }
}

impl Segment for HeedSegment {
    type It = HeedSegmentIter;

    closed spec fn content(&self) -> SegView {
        self.rows@
    }

    closed spec fn exact(&self) -> bool {
        self.rows.wf()
    }

    closed spec fn name(&self) -> Seq<u8> {
        self.name@
    }

    fn batch_insert(&mut self, batch: Vec<(Vec<u8>, Vec<u8>)>) -> (r: Result<(), WriteError>) {
        self.rows.insert_all(batch);
        Ok(())
    }

    fn get_iter(&mut self) -> (it: HeedSegmentIter) {
        proof {
            if self.rows.wf() {
                self.rows.lemma_rows();
            }
        }
        HeedSegmentIter { rows: self.rows.snapshot_rows() }
    }
}

impl Database for HeedDB {
    type Seg = HeedSegment;

    closed spec fn view(&self) -> StoreView {
        self.0@
    }

    closed spec fn exact(&self) -> bool {
        self.0.wf() && utf8_names(self.0@)
    }

    closed spec fn ready(&self) -> bool {
        true
    }

    closed spec fn openable(&self, name: Seq<u8>) -> bool {
        is_utf8(name)
    }

    closed spec fn accepts(&self, name: Seq<u8>) -> bool {
        is_utf8(name)
    }

    proof fn lemma_dom_openable(&self) {
    }

    fn names(&self) -> (r: Result<Vec<Vec<u8>>, StoreError>) {
        Ok(self.0.names())
    }

    fn segment(&mut self, name: Vec<u8>) -> (r: Option<HeedSegment>) {
        if !check_utf8(&name) {
            return None;
        }
        let content = match self.0.get(&name) {
            Some(m) => m,
            None => RowMap::new(),
        };
        self.0.set(clone_bytes(&name), content.duplicate());
        Some(HeedSegment { name, rows: content })
    }

    fn absorb(&mut self, seg: HeedSegment) {
        self.0.set(seg.name, seg.rows);
    }

    fn flush(&mut self) {
    }
}

} // verus!
