//! A RocksDB-style backend: column families addressed by UTF-8 names, held
//! in process memory, with one reserved family name kept for the engine's
//! own bookkeeping.  The reserved name is never enumerated and cannot be
//! opened as a segment; a name that is not valid UTF-8 cannot be opened
//! either.

use crate::db::mem::{RowMap, SegStore};
use crate::db::model::{RowView, SegView, StoreView};
use crate::db::names::{
    bytes_eq, check_utf8, clone_bytes, clone_rows, is_utf8, utf8_names, view_rows,
};
use crate::db::{Database, MigrationError, RowField, Segment, SegmentIter, SkippedRow, StoreError, WriteError};
use vstd::prelude::*;

verus! {

/// The reserved column-family name, as bytes.
pub open spec fn default_cf() -> Seq<u8> {
    seq![100u8, 101u8, 102u8, 97u8, 117u8, 108u8, 116u8]
}

fn default_cf_bytes() -> (r: Vec<u8>)
    ensures
        r@ == default_cf(),
{
    let mut r: Vec<u8> = Vec::new();
    r.push(100);
    r.push(101);
    r.push(102);
    r.push(97);
    r.push(117);
    r.push(108);
    r.push(116);
    proof {
        assert(r@ =~= default_cf());
    }
    r
}

/// The compression algorithms in use.
#[derive(Clone, Copy, Debug, PartialEq, Eq, Structural)]
pub enum Compression {
    Lz4,
    Zstd,
}

/// The compaction style in use.
#[derive(Clone, Copy, Debug, PartialEq, Eq, Structural)]
pub enum CompactionStyle {
    Level,
}

/// How a write-ahead log with a corrupted tail is recovered.
#[derive(Clone, Copy, Debug, PartialEq, Eq, Structural)]
pub enum RecoveryMode {
    TolerateCorruptedTailRecords,
}

/// The engine options this backend is opened with.
#[derive(Clone, Copy, Debug, PartialEq, Eq, Structural)]
pub struct Options {
    pub create_if_missing: bool,
    pub max_open_files: i32,
    pub compression: Compression,
    pub bottommost_compression: Compression,
    pub compaction_style: CompactionStyle,
    pub level_compaction_dynamic_level_bytes: bool,
    pub bytes_per_sync: u64,
    pub keep_log_file_num: usize,
    pub wal_recovery_mode: RecoveryMode,
    pub block_size: usize,
}

/// The option set this tool opens the engine with.
pub open spec fn default_options() -> Options {
    Options {
        create_if_missing: true,
        max_open_files: 512,
        compression: Compression::Lz4,
        bottommost_compression: Compression::Zstd,
        compaction_style: CompactionStyle::Level,
        level_compaction_dynamic_level_bytes: true,
        bytes_per_sync: 1048576,
        keep_log_file_num: 100,
        wal_recovery_mode: RecoveryMode::TolerateCorruptedTailRecords,
        block_size: 4096,
    }
}

/// The fixed option set this tool opens the engine with.
pub fn options() -> (o: Options)
    ensures
        o == default_options(),
{
    Options {
        create_if_missing: true,
        max_open_files: 512,
        compression: Compression::Lz4,
        bottommost_compression: Compression::Zstd,
        compaction_style: CompactionStyle::Level,
        level_compaction_dynamic_level_bytes: true,
        bytes_per_sync: 1048576,
        keep_log_file_num: 100,
        wal_recovery_mode: RecoveryMode::TolerateCorruptedTailRecords,
        block_size: 4096,
    }
}

/// A fresh, empty store of column families, configured with `options`.
pub fn new_conn() -> (r: Result<RocksDB, StoreError>)
    ensures
        r is Ok,
        (r->Ok_0)@ == Map::<Seq<u8>, SegView>::empty(),
        (r->Ok_0).exact(),
        (r->Ok_0).ready(),
        (r->Ok_0).options_of() == default_options(),
{
    Ok(RocksDB { rocks: SegStore::new(), opts: options() })
}

/// Name validation: this store opens or creates exactly the valid UTF-8
/// names other than the reserved family name.  A name that is not valid
/// UTF-8, and the reserved name, are never present in an exact store, so
/// enumeration never returns them, and they cannot be opened or created as
/// segments.
pub proof fn lemma_name_validation(db: &RocksDB, n: Seq<u8>)
    requires
        db.exact(),
    ensures
        db.openable(n) == (is_utf8(n) && n != default_cf()),
        !is_utf8(n) || n == default_cf() ==> !db.view().dom().contains(n),
{
}

/// A store of column families.
pub struct RocksDB {
    rocks: SegStore,
    opts: Options,
}

impl RocksDB {
    /// The options the store was opened with.
    pub closed spec fn options_of(&self) -> Options {
        self.opts
    }
}

/// One column family, checked out of its store.
pub struct RocksDBCF {
    name: Vec<u8>,
    rows: RowMap,
}

/// One full scan over a column family; restartable.
pub struct RocksDBCFIter {
    rows: Vec<(Vec<u8>, Vec<u8>)>,
}

impl SegmentIter for RocksDBCFIter {
    closed spec fn rows(&self) -> Seq<RowView> {
        view_rows(self.rows@)
    }

    closed spec fn skips(&self) -> Seq<(int, RowField)> {
        Seq::empty()
    }

    closed spec fn exact(&self) -> bool {
        true
    }

    fn iter(&mut self) -> (r: Result<
        (Vec<(Vec<u8>, Vec<u8>)>, Vec<SkippedRow>),
        MigrationError,
    >) {
        Ok((clone_rows(&self.rows), Vec::new()))
    }
}

impl Segment for RocksDBCF {
    type It = RocksDBCFIter;

    closed spec fn content(&self) -> SegView {
        self.rows@
    }

    closed spec fn exact(&self) -> bool {
        self.rows.wf()
    }

    closed spec fn name(&self) -> Seq<u8> {
        self.name@
    }

    fn batch_insert(&mut self, batch: Vec<(Vec<u8>, Vec<u8>)>) -> (r: Result<(), WriteError>) {
        self.rows.insert_all(batch);
        Ok(())
    }

    fn get_iter(&mut self) -> (it: RocksDBCFIter) {
        proof {
            if self.rows.wf() {
                self.rows.lemma_rows();
            }
        }
        RocksDBCFIter { rows: self.rows.snapshot_rows() }
    }
}

impl Database for RocksDB {
    type Seg = RocksDBCF;

    closed spec fn view(&self) -> StoreView {
        self.rocks@
    }

    closed spec fn exact(&self) -> bool {
        self.rocks.wf() && utf8_names(self.rocks@) && !self.rocks@.dom().contains(default_cf())
    }

    closed spec fn ready(&self) -> bool {
        true
    }

    closed spec fn openable(&self, name: Seq<u8>) -> bool {
        is_utf8(name) && name != default_cf()
    }

    closed spec fn accepts(&self, name: Seq<u8>) -> bool {
        is_utf8(name) && name != default_cf()
    }

    proof fn lemma_dom_openable(&self) {
    }

    fn names(&self) -> (r: Result<Vec<Vec<u8>>, StoreError>) {
        Ok(self.rocks.names())
    }

    fn segment(&mut self, name: Vec<u8>) -> (r: Option<RocksDBCF>) {
        if !check_utf8(&name) {
            return None;
        }
        if bytes_eq(&name, &default_cf_bytes()) {
            return None;
        }
        let content = match self.rocks.get(&name) {
            Some(m) => m,
            None => RowMap::new(),
        };
        self.rocks.set(clone_bytes(&name), content.duplicate());
        Some(RocksDBCF { name, rows: content })
    }

    fn absorb(&mut self, seg: RocksDBCF) {
        self.rocks.set(seg.name, seg.rows);
    }

    fn flush(&mut self) {
    }
}

} // verus!
