//! The uniform storage contract and the migration engine.
//!
//! A store is a named collection of segments, each an unordered collection of
//! unique byte-string keys mapped to byte-string values.  `copy_database`
//! walks a source store and replays its contents into a destination store in
//! bounded batches, merging segment by segment.

pub mod heed;
pub mod mem;
pub mod model;
pub mod names;
pub mod persy;
pub mod rocksdb;
pub mod rows;
pub mod sled;
pub mod sqlite;

use vstd::prelude::*;

use crate::db::model::{
    insert_rows, lemma_insert_rows_concat, lemma_insert_rows_union, lemma_migrate_restrict_empty,
    lemma_migrate_step, merge_seg, migrated, rows_to_map, seg_or_empty, unique_keys, RowView,
    SegView, StoreView,
};
use crate::db::names::{clone_bytes, copy_range, view_names, view_rows};

verus! {

/// The row-validation policy, read-only for one migration invocation: when a
/// stored row's key or value cannot be decoded, skip and record the row if
/// `ignore_broken_rows` is set, otherwise fail the migration.
#[derive(Clone, Copy, Debug)]
pub struct Config {
    pub ignore_broken_rows: bool,
}

/// Which field of a stored row could not be decoded.
#[derive(Clone, Copy, Debug, PartialEq, Eq, Structural)]
pub enum RowField {
    Key,
    Value,
}

/// A source row whose key or value could not be decoded as a byte string.
#[derive(Clone, Debug, PartialEq, Eq)]
pub struct MalformedRowError {
    /// The name of the segment that holds the row.
    pub segment: Vec<u8>,
    /// The field that failed to decode.
    pub field: RowField,
}

impl MalformedRowError {
    /// What to tell the operator: which field was unreadable, that the
    /// tolerant mode exists, and its caveat (the malformed rows are lost).
    pub fn message(&self) -> (r: &'static str)
        ensures
            self.field == RowField::Key ==> r@ == (
            "this row has a malformed key; `--ignore-broken-rows` skips such rows, at the cost of losing them")@,
            self.field == RowField::Value ==> r@ == (
            "this row has a malformed value; `--ignore-broken-rows` skips such rows, at the cost of losing them")@,
    {
        match self.field {
            RowField::Key => "this row has a malformed key; `--ignore-broken-rows` skips such rows, at the cost of losing them",
            RowField::Value => "this row has a malformed value; `--ignore-broken-rows` skips such rows, at the cost of losing them",
        }
    }
}

/// A store or segment could not be opened or created.
#[derive(Clone, Debug, PartialEq, Eq)]
pub struct StoreError {
    /// The name of the segment that failed to open, where one is at fault.
    pub segment: Vec<u8>,
}

/// A destination transaction failed to commit; rows of prior batches remain.
#[derive(Clone, Debug, PartialEq, Eq)]
pub struct WriteError {
    /// The name of the segment whose batch failed.
    pub segment: Vec<u8>,
}

/// An invalid invocation, rejected before any store is touched.
#[derive(Clone, Copy, Debug, PartialEq, Eq, Structural)]
pub enum ConfigurationError {
    /// The backend name names no compiled-in adapter.
    UnknownBackend,
    /// The chunk size is zero.
    InvalidChunkSize,
}

/// The first unrecoverable error of a migration.
#[derive(Clone, Debug, PartialEq, Eq)]
pub enum MigrationError {
    Configuration(ConfigurationError),
    Store(StoreError),
    Write(WriteError),
    MalformedRow(MalformedRowError),
}

/// One malformed row that the tolerant policy skipped: the segment it was
/// stored in, its position in that segment's delivery order, and the field
/// that was unreadable.
#[derive(Clone, Debug, PartialEq, Eq)]
pub struct SkippedRow {
    pub segment: Vec<u8>,
    pub index: usize,
    pub field: RowField,
}

/// The positions and fields that a skip record holds.
pub open spec fn view_skips(v: Seq<SkippedRow>) -> Seq<(int, RowField)> {
    Seq::new(v.len(), |i: int| (v[i].index as int, v[i].field))
}

/// What a successful migration reports: one entry per row that the tolerant
/// policy skipped, for the caller to warn about.  Empty whenever no row was
/// skipped.
#[derive(Clone, Debug, PartialEq, Eq)]
pub struct MigrationReport {
    pub skipped: Vec<SkippedRow>,
}

/// The iterator role of the storage contract: one pass over the rows that a
/// segment held when the iteration was obtained.
pub trait SegmentIter: Sized {
    /// The rows this iteration delivers, in order.
    spec fn rows(&self) -> Seq<RowView>;

    /// The rows the tolerant policy skips, by position and failing field.
    spec fn skips(&self) -> Seq<(int, RowField)>;

    /// Whether this iterator's model is exact: `rows` and `skips` say
    /// precisely what `iter` delivers.  An iterator that reads through an
    /// outside storage engine is exact only as far as its own state pins the
    /// outcome down.
    spec fn exact(&self) -> bool;

    /// Every row of the iteration, in delivery order, with the skip record.
    /// An iterator whose backend can hold undecodable rows applies the
    /// row-validation policy here: tolerant mode records each skipped row,
    /// strict mode reports the first malformed row instead.
    fn iter(&mut self) -> (r: Result<
        (Vec<(Vec<u8>, Vec<u8>)>, Vec<SkippedRow>),
        MigrationError,
    >)
        ensures
            old(self).exact() ==> r is Ok && view_rows((r->Ok_0).0@) == old(self).rows()
                && view_skips((r->Ok_0).1@) == old(self).skips(),
    ;
}

/// The segment role of the storage contract: a named, unordered collection
/// of unique byte-string keys mapped to byte-string values, checked out of
/// its store for the duration of a copy.
pub trait Segment: Sized {
    type It: SegmentIter;

    /// The committed key-to-value content.
    spec fn content(&self) -> SegView;

    /// Whether this segment's model is exact (see `Database::exact`).
    spec fn exact(&self) -> bool;

    /// The segment's name within its store.
    spec fn name(&self) -> Seq<u8>;

    /// Applies all rows as one atomic unit: either every row becomes
    /// visible, the last write to a key winning, or none does.
    fn batch_insert(&mut self, batch: Vec<(Vec<u8>, Vec<u8>)>) -> (r: Result<(), WriteError>)
        ensures
            final(self).name() == old(self).name(),
            old(self).exact() ==> final(self).exact() && r is Ok && final(self).content()
                == insert_rows(old(self).content(), view_rows(batch@)),
    ;

    /// An iteration over the segment's committed state at this moment.  An
    /// exact segment holds only well-formed rows, so its iteration skips
    /// nothing.
    fn get_iter(&mut self) -> (it: Self::It)
        ensures
            final(self).name() == old(self).name(),
            old(self).exact() ==> final(self).exact() && final(self).content() == old(
                self,
            ).content() && it.exact() && unique_keys(it.rows()) && rows_to_map(it.rows()) == old(
                self,
            ).content() && it.skips() == Seq::<(int, RowField)>::empty(),
    ;
}

/// The store role of the storage contract.
///
/// A segment handle is checked out with `segment` and handed back with
/// `absorb`; while one is out, the store is not `ready` for further calls.
/// `exact` says whether the store's `view` is an exact model of its content:
/// it holds for stores whose state lives in this process, and not for
/// adapters over an outside storage engine, of which only what their own
/// documentation promises is stated.
pub trait Database: Sized {
    type Seg: Segment;

    /// The content: segment names to segment contents.
    spec fn view(&self) -> StoreView;

    /// Whether `view` models the store's content exactly.
    spec fn exact(&self) -> bool;

    /// No segment handle is checked out.
    spec fn ready(&self) -> bool;

    /// The segment names this store can open or create.
    spec fn openable(&self, name: Seq<u8>) -> bool;

    /// Which checked-out segments `absorb` takes back, by name.
    spec fn accepts(&self, name: Seq<u8>) -> bool;

    /// Every segment present in an exact store can be reopened by name.
    proof fn lemma_dom_openable(&self)
        requires
            self.exact(),
        ensures
            forall|n: Seq<u8>| #[trigger] self.view().dom().contains(n) ==> self.openable(n),
    ;

    /// Every segment name currently present, each once, a snapshot at call
    /// time.  A name the backend cannot represent losslessly is not in the
    /// view and so not returned.  A store whose contents cannot be
    /// enumerated at all is a store error, never an empty listing.
    fn names(&self) -> (r: Result<Vec<Vec<u8>>, StoreError>)
        requires
            self.ready(),
        ensures
            self.exact() ==> r is Ok && {
                let nv = view_names((r->Ok_0)@);
                &&& forall|i: int, j: int| 0 <= i < j < nv.len() ==> nv[i] != nv[j]
                &&& forall|i: int|
                    0 <= i < nv.len() ==> self.view().dom().contains(#[trigger] nv[i])
                &&& forall|n: Seq<u8>| #[trigger] self.view().dom().contains(n) ==> nv.contains(n)
            },
    ;

    /// Checks the named segment out, creating it empty where the store has
    /// none.  Idempotent: the same name yields a handle to the same data.
    /// `None` means the name cannot be opened or created here; the store is
    /// then unchanged.
    fn segment(&mut self, name: Vec<u8>) -> (r: Option<Self::Seg>)
        requires
            old(self).ready(),
        ensures
            match r {
                Some(seg) => {
                    &&& final(self).accepts(seg.name())
                    &&& seg.name() == name@
                    &&& (old(self).exact() ==> {
                        &&& final(self).exact()
                        &&& seg.exact()
                        &&& seg.content() == seg_or_empty(old(self).view(), name@)
                        &&& final(self).view() == old(self).view().insert(
                            name@,
                            seg_or_empty(old(self).view(), name@),
                        )
                        &&& forall|m: Seq<u8>|
                            final(self).openable(m) == #[trigger] old(self).openable(m)
                    })
                },
                None => *final(self) == *old(self),
            },
            r is Some ==> old(self).openable(name@),
            old(self).exact() ==> (r is Some <==> old(self).openable(name@)),
    ;

    /// Hands a checked-out segment back; its content replaces the store's
    /// segment of that name.
    fn absorb(&mut self, seg: Self::Seg)
        requires
            old(self).accepts(seg.name()),
        ensures
            final(self).ready(),
            old(self).exact() && seg.exact() ==> {
                &&& final(self).exact()
                &&& final(self).view() == old(self).view().insert(seg.name(), seg.content())
                &&& forall|m: Seq<u8>| final(self).openable(m) == #[trigger] old(self).openable(m)
            },
    ;

    /// Forces buffered state to durable storage; a no-op for backends that
    /// are durable per transaction.  The content is unchanged.
    fn flush(&mut self)
        requires
            old(self).ready(),
        ensures
            final(self).ready(),
            old(self).exact() ==> final(self).exact() && final(self).view() == old(self).view()
                && forall|m: Seq<u8>|
                final(self).openable(m) == #[trigger] old(self).openable(m),
    ;
}

/// Extending a prefix of a sequence by one element extends the set of its
/// elements by that element.
proof fn lemma_take_one_more(s: Seq<Seq<u8>>, i: int)
    requires
        0 <= i < s.len(),
    ensures
        s.take(i + 1).to_set() == s.take(i).to_set().insert(s[i]),
{
    let a = s.take(i + 1).to_set();
    let b = s.take(i).to_set().insert(s[i]);
    assert forall|x: Seq<u8>| a.contains(x) implies b.contains(x) by {
        let j = choose|j: int| 0 <= j < s.take(i + 1).len() && (#[trigger] s.take(i + 1)[j]) == x;
        if j < i {
            assert(s.take(i)[j] == x);
            assert(s.take(i).contains(x));
        } else {
            assert(x == s[i]);
        }
    }
    assert forall|x: Seq<u8>| b.contains(x) implies a.contains(x) by {
        if x == s[i] {
            assert(s.take(i + 1)[i] == x);
            assert(s.take(i + 1).contains(x));
        } else {
            assert(s.take(i).to_set().contains(x));
            let j = choose|j: int| 0 <= j < s.take(i).len() && (#[trigger] s.take(i)[j]) == x;
            assert(s.take(i + 1)[j] == x);
            assert(s.take(i + 1).contains(x));
        }
    }
    assert(a =~= b);
}

/// The migration engine: walks every segment of the source store and replays
/// its rows into the destination store's segment of the same name, in
/// batches of at most `chunk_size` rows, each batch one transaction.
///
/// A `chunk_size` of zero is a configuration error, rejected before any
/// store is touched.  A segment that cannot be opened on either side is
/// fatal: the migration stops there, and segments already copied remain.  On
/// success the destination holds the merge of the source over what it held
/// before (`migrated`), whatever the chunk size; the source is unchanged;
/// and the report lists every row the tolerant policy skipped, one entry per
/// row, for the caller to warn about (none for an exact source, whose rows
/// are all well-formed).  After a mid-segment write failure only that
/// segment's batches before the failure are committed: the copy is not
/// atomic at segment or store level.  The destination is flushed once, after
/// all segments.
#[verifier::loop_isolation(false)]
pub fn copy_database<S: Database, D: Database>(
    src: &mut S,
    dst: &mut D,
    chunk_size: usize,
) -> (r: Result<MigrationReport, MigrationError>)
    requires
        old(src).ready(),
        old(dst).ready(),
    ensures
        final(src).ready(),
        final(dst).ready(),
        chunk_size == 0 ==> r == Err::<MigrationReport, MigrationError>(
            MigrationError::Configuration(ConfigurationError::InvalidChunkSize),
        ) && *final(src) == *old(src) && *final(dst) == *old(dst),
        old(src).exact() ==> final(src).exact() && final(src).view() == old(src).view() && (
        forall|m: Seq<u8>| final(src).openable(m) == #[trigger] old(src).openable(m)),
        old(src).exact() && r is Ok ==> (r->Ok_0).skipped@.len() == 0,
        old(dst).exact() ==> final(dst).exact() && (forall|m: Seq<u8>|
            final(dst).openable(m) == #[trigger] old(dst).openable(m)),
        old(src).exact() && old(dst).exact() && chunk_size >= 1 ==> {
            &&& ((r is Ok) <==> (forall|n: Seq<u8>|
                #[trigger] old(src).view().dom().contains(n) ==> old(dst).openable(n)))
            &&& (r is Ok ==> final(dst).view() == migrated(old(dst).view(), old(src).view()))
            &&& (r is Err ==> (r->Err_0) is Store && old(src).view().dom().contains(
                ((r->Err_0)->Store_0).segment@,
            ) && !old(dst).openable(((r->Err_0)->Store_0).segment@) && exists|ns: Set<Seq<u8>>|
                #[trigger] ns.subset_of(old(src).view().dom()) && final(dst).view() == migrated(
                    old(dst).view(),
                    old(src).view().restrict(ns),
                ))
        },
{
    if chunk_size == 0 {
        return Err(MigrationError::Configuration(ConfigurationError::InvalidChunkSize));
    }
    let ghost s0 = src.view();
    let ghost d0 = dst.view();
    let seg_names = match src.names() {
        Ok(seg_names) => seg_names,
        Err(e) => {
            proof {
                if old(src).exact() {
                    assert(false);
                }
            }
            return Err(MigrationError::Store(e));
        },
    };
    let ghost nv = view_names(seg_names@);
    let n_count = seg_names.len();
    proof {
        if old(src).exact() && old(dst).exact() {
            lemma_migrate_restrict_empty(d0, s0);
            assert(nv.take(0).to_set() =~= Set::<Seq<u8>>::empty());
        }
    }
    let mut report: Vec<SkippedRow> = Vec::new();
    let mut idx: usize = 0;
    while idx < n_count
        invariant
            idx <= n_count,
            src.ready(),
            dst.ready(),
            old(src).exact() ==> src.exact() && src.view() == s0 && report@.len() == 0 && (
            forall|m: Seq<u8>| src.openable(m) == #[trigger] old(src).openable(m)),
            old(dst).exact() ==> dst.exact() && (forall|m: Seq<u8>|
                dst.openable(m) == #[trigger] old(dst).openable(m)),
            old(src).exact() && old(dst).exact() ==> {
                &&& dst.view() == migrated(d0, s0.restrict(nv.take(idx as int).to_set()))
                &&& (forall|j: int| 0 <= j < idx ==> old(dst).openable(#[trigger] nv[j]))
            },
        decreases n_count - idx,
    {
        let ghost n = nv[idx as int];
        proof {
            if old(src).exact() {
                assert(s0.dom().contains(n));
            }
        }
        let src_seg_opt = src.segment(clone_bytes(&seg_names[idx]));
        let mut src_seg = match src_seg_opt {
            Some(seg) => seg,
            None => {
                proof {
                    if old(src).exact() {
                        src.lemma_dom_openable();
                        assert(false);
                    }
                }
                return Err(
                    MigrationError::Store(StoreError { segment: clone_bytes(&seg_names[idx]) }),
                );
            },
        };
        let dst_seg_opt = dst.segment(clone_bytes(&seg_names[idx]));
        let mut dst_seg = match dst_seg_opt {
            Some(seg) => seg,
            None => {
                src.absorb(src_seg);
                proof {
                    if old(src).exact() {
                        assert(src.view() =~= s0);
                    }
                    if old(src).exact() && old(dst).exact() {
                        let ghost ns = nv.take(idx as int).to_set();
                        assert(ns.subset_of(s0.dom())) by {
                            assert forall|x: Seq<u8>| ns.contains(x) implies s0.dom().contains(
                                x,
                            ) by {
                                let j = choose|j: int|
                                    0 <= j < nv.take(idx as int).len() && (#[trigger] nv.take(
                                        idx as int,
                                    )[j]) == x;
                                assert(nv[j] == x);
                            }
                        }
                    }
                }
                return Err(
                    MigrationError::Store(StoreError { segment: clone_bytes(&seg_names[idx]) }),
                );
            },
        };
        let ghost migr_ns = migrated(d0, s0.restrict(nv.take(idx as int).to_set()));
        let ghost c0 = dst_seg.content();
        let mut it = src_seg.get_iter();
        let (rows, mut skipped) = match it.iter() {
            Ok(p) => p,
            Err(e) => {
                proof {
                    if old(src).exact() {
                        assert(false);
                    }
                }
                src.absorb(src_seg);
                dst.absorb(dst_seg);
                return Err(e);
            },
        };
        proof {
            if old(src).exact() {
                assert(view_skips(skipped@).len() == skipped@.len());
            }
        }
        report.append(&mut skipped);
        let ghost rseq = view_rows(rows@);
        let total = rows.len();
        let mut pos: usize = 0;
        let mut write_err: Option<WriteError> = None;
        while pos < total && write_err.is_none()
            invariant
                pos <= total,
                total == rows@.len(),
                dst_seg.name() == n,
                old(dst).exact() ==> write_err is None && dst_seg.exact() && dst_seg.content()
                    == insert_rows(c0, rseq.take(pos as int)),
            decreases total - pos, (if write_err is None { 1int } else { 0int }),
        {
            let end = if total - pos > chunk_size {
                pos + chunk_size
            } else {
                total
            };
            let chunk = copy_range(&rows, pos, end);
            match dst_seg.batch_insert(chunk) {
                Ok(u) => {
                    proof {
                        if old(dst).exact() {
                            lemma_insert_rows_concat(
                                c0,
                                rseq.take(pos as int),
                                rseq.subrange(pos as int, end as int),
                            );
                            assert(rseq.take(pos as int) + rseq.subrange(pos as int, end as int)
                                =~= rseq.take(end as int));
                        }
                    }
                    pos = end;
                },
                Err(e) => {
                    proof {
                        if old(dst).exact() {
                            assert(false);
                        }
                    }
                    write_err = Some(e);
                },
            };
        }
        match write_err {
            None => {
                proof {
                    if old(dst).exact() {
                        assert(pos == total);
                    }
                }
            },
            Some(e) => {
                proof {
                    if old(dst).exact() {
                        assert(false);
                    }
                }
                src.absorb(src_seg);
                dst.absorb(dst_seg);
                proof {
                    if old(src).exact() {
                        assert(src.view() =~= s0);
                    }
                }
                return Err(MigrationError::Write(e));
            },
        }
        proof {
            if old(src).exact() {
                assert(rseq.take(total as int) =~= rseq);
                lemma_insert_rows_union(c0, rseq);
                assert(rows_to_map(rseq) == s0[n]);
            }
        }
        src.absorb(src_seg);
        dst.absorb(dst_seg);
        proof {
            if old(src).exact() {
                assert(src.view() =~= s0);
            }
            if old(src).exact() && old(dst).exact() {
                let ns = nv.take(idx as int).to_set();
                assert(!ns.contains(n)) by {
                    if ns.contains(n) {
                        let j = choose|j: int|
                            0 <= j < nv.take(idx as int).len() && (#[trigger] nv.take(
                                idx as int,
                            )[j]) == n;
                        assert(nv[j] == nv[idx as int]);
                        assert(false);
                    }
                }
                lemma_migrate_step(d0, s0, ns, n);
                assert(dst.view() =~= migr_ns.insert(
                    n,
                    merge_seg(seg_or_empty(migr_ns, n), s0[n]),
                ));
                lemma_take_one_more(nv, idx as int);
                assert(s0.restrict(ns.insert(n)) =~= s0.restrict(nv.take(idx + 1).to_set()));
            }
        }
        idx = idx + 1;
    }
    proof {
        if old(src).exact() && old(dst).exact() {
            assert(nv.take(n_count as int) =~= nv);
            assert(nv.to_set() =~= s0.dom()) by {
                assert forall|x: Seq<u8>| nv.to_set().contains(x) implies s0.dom().contains(x) by {
                    let j = choose|j: int| 0 <= j < nv.len() && (#[trigger] nv[j]) == x;
                }
                assert forall|x: Seq<u8>| s0.dom().contains(x) implies nv.to_set().contains(x) by {
                    assert(nv.contains(x));
                }
            }
            assert(s0.restrict(s0.dom()) =~= s0);
            assert forall|n: Seq<u8>| #[trigger] s0.dom().contains(n) implies old(
                dst,
            ).openable(n) by {
                let j = choose|j: int| 0 <= j < nv.len() && (#[trigger] nv[j]) == n;
                assert(old(dst).openable(nv[j]));
            }
        }
    }
    dst.flush();
    Ok(MigrationReport { skipped: report })
}

} // verus!

