//! A persy-style backend: named indexes in replace mode, addressed by
//! UTF-8 names, held in process memory.  A segment name that is not valid
//! UTF-8 cannot be opened here and is never present.

use crate::db::mem::{RowMap, SegStore};
use crate::db::model::{RowView, SegView, StoreView};
use crate::db::names::{check_utf8, clone_bytes, clone_rows, is_utf8, utf8_names, view_rows};
use crate::db::{Database, MigrationError, RowField, Segment, SegmentIter, SkippedRow, StoreError, WriteError};
use vstd::prelude::*;

verus! {

/// A fresh, empty store of indexes.
pub fn new_db() -> (r: Result<PersyDB, StoreError>)
    ensures
        r is Ok,
        (r->Ok_0)@ == Map::<Seq<u8>, SegView>::empty(),
        (r->Ok_0).exact(),
        (r->Ok_0).ready(),
{
    Ok(PersyDB { persy: SegStore::new() })
}

/// Name validation: this store opens or creates exactly the valid UTF-8
/// names.  A name that is not valid UTF-8 is never present in an exact
/// store, so enumeration never returns it, and it cannot be opened or
/// created; it is refused whole, never truncated or altered.
pub proof fn lemma_name_validation(db: &PersyDB, n: Seq<u8>)
    requires
        db.exact(),
    ensures
        db.openable(n) == is_utf8(n),
        !is_utf8(n) ==> !db.view().dom().contains(n),
{
}

/// A store of named indexes.
pub struct PersyDB {
    persy: SegStore,
}

/// One index, checked out of its store.
pub struct PersySeg {
    name: Vec<u8>,
    rows: RowMap,
}

/// One range scan over an index; restartable.
pub struct PersySegIter {
    rows: Vec<(Vec<u8>, Vec<u8>)>,
}

impl SegmentIter for PersySegIter {
    closed spec fn rows(&self) -> Seq<RowView> {
        view_rows(self.rows@)
    }

    closed spec fn skips(&self) -> Seq<(int, RowField)> {
        Seq::empty()
    }

    closed spec fn exact(&self) -> bool {
        true
    }

    fn iter(&mut self) -> (r: Result<
        (Vec<(Vec<u8>, Vec<u8>)>, Vec<SkippedRow>),
        MigrationError,
    >) {
        Ok((clone_rows(&self.rows), Vec::new()))
    }
}

impl Segment for PersySeg {
    type It = PersySegIter;

    closed spec fn content(&self) -> SegView {
        self.rows@
    }

    closed spec fn exact(&self) -> bool {
        self.rows.wf()
    }

    closed spec fn name(&self) -> Seq<u8> {
        self.name@
    }

    fn batch_insert(&mut self, batch: Vec<(Vec<u8>, Vec<u8>)>) -> (r: Result<(), WriteError>) {
        self.rows.insert_all(batch);
        Ok(())
    }

    fn get_iter(&mut self) -> (it: PersySegIter) {
        proof {
            if self.rows.wf() {
                self.rows.lemma_rows();
            }
        }
        PersySegIter { rows: self.rows.snapshot_rows() }
    }
}

impl Database for PersyDB {
    type Seg = PersySeg;

    closed spec fn view(&self) -> StoreView {
        self.persy@
    }

    closed spec fn exact(&self) -> bool {
        self.persy.wf() && utf8_names(self.persy@)
    }

    closed spec fn ready(&self) -> bool {
        true
    }

    closed spec fn openable(&self, name: Seq<u8>) -> bool {
        is_utf8(name)
    }

    closed spec fn accepts(&self, name: Seq<u8>) -> bool {
        is_utf8(name)
    }

    proof fn lemma_dom_openable(&self) {
    }

    fn names(&self) -> (r: Result<Vec<Vec<u8>>, StoreError>) {
        Ok(self.persy.names())
    }

    fn segment(&mut self, name: Vec<u8>) -> (r: Option<PersySeg>) {
        if !check_utf8(&name) {
            return None;
        }
        let content = match self.persy.get(&name) {
            Some(m) => m,
            None => RowMap::new(),
        };
        self.persy.set(clone_bytes(&name), content.duplicate());
        Some(PersySeg { name, rows: content })
    }

    fn absorb(&mut self, seg: PersySeg) {
        self.persy.set(seg.name, seg.rows);
    }

    fn flush(&mut self) {
    }
}

} // verus!
