//! The mathematical model of stores and of migration.
//!
//! A segment is a map from byte-string keys to byte-string values, a store a
//! map from byte-string names to segments.  Writing a sequence of rows into a
//! segment applies them in order, the last write to a key winning, and
//! migrating a source store into a destination merges every source segment
//! over the destination's segment of the same name.

use vstd::prelude::*;

verus! {

/// One row: a key and a value.
pub type RowView = (Seq<u8>, Seq<u8>);

/// A segment's content.
pub type SegView = Map<Seq<u8>, Seq<u8>>;

/// A store's content.
pub type StoreView = Map<Seq<u8>, SegView>;

/// The segment after the rows were applied in order, the last write to a key
/// winning.
pub open spec fn insert_rows(m: SegView, rows: Seq<RowView>) -> SegView
    decreases rows.len(),
{
    if rows.len() == 0 {
        m
    } else {
        insert_rows(m, rows.drop_last()).insert(rows.last().0, rows.last().1)
    }
}

/// The map that a row sequence denotes on its own.
pub open spec fn rows_to_map(rows: Seq<RowView>) -> SegView {
    insert_rows(Map::empty(), rows)
}

/// No key occurs twice.
pub open spec fn unique_keys(rows: Seq<RowView>) -> bool {
    forall|i: int, j: int| 0 <= i < j < rows.len() ==> rows[i].0 != rows[j].0
}

/// The destination's segment of that name, or an empty one where it has none.
pub open spec fn seg_or_empty(d: StoreView, n: Seq<u8>) -> SegView {
    if d.dom().contains(n) {
        d[n]
    } else {
        Map::empty()
    }
}

/// Merging a source segment over a destination segment: source rows overwrite
/// rows of the same key, all other destination rows stay.
pub open spec fn merge_seg(dseg: SegView, sseg: SegView) -> SegView {
    dseg.union_prefer_right(sseg)
}

/// The destination store after a complete migration of `s` into `d`: every
/// source segment is merged over the destination segment of its name (which
/// exists afterwards even when the source segment is empty), and segments
/// only in the destination are untouched.
pub open spec fn migrated(d: StoreView, s: StoreView) -> StoreView {
    Map::new(
        |n: Seq<u8>| d.dom().contains(n) || s.dom().contains(n),
        |n: Seq<u8>|
            if s.dom().contains(n) {
                merge_seg(seg_or_empty(d, n), s[n])
            } else {
                d[n]
            },
    )
}

/// Applying a concatenation of row sequences equals applying them one after
/// the other.
pub proof fn lemma_insert_rows_concat(m: SegView, a: Seq<RowView>, b: Seq<RowView>)
    ensures
        insert_rows(m, a + b) == insert_rows(insert_rows(m, a), b),
    decreases b.len(),
{
    if b.len() == 0 {
        assert(a + b =~= a);
    } else {
        lemma_insert_rows_concat(m, a, b.drop_last());
        assert((a + b).drop_last() =~= a + b.drop_last());
        assert((a + b).last() == b.last());
    }
}

/// Applying rows to a segment merges the map they denote over it.
pub proof fn lemma_insert_rows_union(m: SegView, rows: Seq<RowView>)
    ensures
        insert_rows(m, rows) == m.union_prefer_right(rows_to_map(rows)),
    decreases rows.len(),
{
    if rows.len() == 0 {
        assert(insert_rows(m, rows) =~= m.union_prefer_right(rows_to_map(rows)));
    } else {
        lemma_insert_rows_union(m, rows.drop_last());
        assert(insert_rows(m, rows) =~= m.union_prefer_right(rows_to_map(rows)));
    }
}

/// Consecutive chunks of at most `size` rows, in order; the final chunk may
/// be shorter.
pub open spec fn chunks_of(rows: Seq<RowView>, size: int) -> Seq<Seq<RowView>>
    decreases rows.len() when size >= 1
{
    if rows.len() == 0 {
        Seq::empty()
    } else if rows.len() <= size {
        seq![rows]
    } else {
        seq![rows.take(size)] + chunks_of(rows.skip(size), size)
    }
}

/// The segment after the chunks were applied one after the other.
pub open spec fn apply_chunks(m: SegView, cs: Seq<Seq<RowView>>) -> SegView
    decreases cs.len(),
{
    if cs.len() == 0 {
        m
    } else {
        apply_chunks(insert_rows(m, cs[0]), cs.skip(1))
    }
}

/// Applying the chunks of a row sequence equals applying the sequence whole.
pub proof fn lemma_chunking_irrelevant(m: SegView, rows: Seq<RowView>, size: int)
    requires
        size >= 1,
    ensures
        apply_chunks(m, chunks_of(rows, size)) == insert_rows(m, rows),
    decreases rows.len(),
{
    if rows.len() == 0 {
    } else if rows.len() <= size {
        let cs = chunks_of(rows, size);
        assert(cs == seq![rows]);
        assert(cs[0] == rows);
        assert(cs.skip(1) =~= Seq::<Seq<RowView>>::empty());
        assert(apply_chunks(m, cs) == apply_chunks(insert_rows(m, cs[0]), cs.skip(1)));
        assert(apply_chunks(insert_rows(m, rows), cs.skip(1)) == insert_rows(m, rows));
    } else {
        let head = rows.take(size);
        let rest = rows.skip(size);
        let cs = chunks_of(rows, size);
        assert(cs == seq![head] + chunks_of(rest, size));
        assert(cs[0] == head);
        assert(cs.skip(1) =~= chunks_of(rest, size));
        assert(apply_chunks(m, cs) == apply_chunks(insert_rows(m, head), chunks_of(rest, size)));
        lemma_chunking_irrelevant(insert_rows(m, head), rest, size);
        lemma_insert_rows_concat(m, head, rest);
        assert(head + rest =~= rows);
    }
}

/// Chunk-size invariance: the destination segment that results from writing a
/// row sequence in bounded chunks does not depend on the chunk size.
pub proof fn lemma_chunk_size_invariance(m: SegView, rows: Seq<RowView>, s1: int, s2: int)
    requires
        s1 >= 1,
        s2 >= 1,
    ensures
        apply_chunks(m, chunks_of(rows, s1)) == apply_chunks(m, chunks_of(rows, s2)),
{
    lemma_chunking_irrelevant(m, rows, s1);
    lemma_chunking_irrelevant(m, rows, s2);
}

/// Completeness: after migration, every key of every source segment is
/// present in the destination under the same segment name, with the same
/// value.
pub proof fn lemma_migrate_completeness(d: StoreView, s: StoreView, n: Seq<u8>, k: Seq<u8>)
    requires
        s.dom().contains(n),
        s[n].dom().contains(k),
    ensures
        migrated(d, s).dom().contains(n),
        migrated(d, s)[n].dom().contains(k),
        migrated(d, s)[n][k] == s[n][k],
{
}

/// Merge semantics: a source row overwrites the destination row of the same
/// key, and destination rows whose key the source segment lacks keep their
/// value.
pub proof fn lemma_migrate_merge(d: StoreView, s: StoreView, n: Seq<u8>, k: Seq<u8>)
    requires
        s.dom().contains(n),
    ensures
        s[n].dom().contains(k) ==> migrated(d, s)[n][k] == s[n][k],
        !s[n].dom().contains(k) && seg_or_empty(d, n).dom().contains(k) ==> migrated(d, s)[n].dom().contains(k)
            && migrated(d, s)[n][k] == seg_or_empty(d, n)[k],
{
}

/// Empty segment preservation: every source segment name exists in the
/// destination after migration, rows or no rows; and segments only in the
/// destination are untouched.
pub proof fn lemma_segment_preservation(d: StoreView, s: StoreView, n: Seq<u8>)
    ensures
        s.dom().contains(n) ==> migrated(d, s).dom().contains(n),
        d.dom().contains(n) && !s.dom().contains(n) ==> migrated(d, s).dom().contains(n)
            && migrated(d, s)[n] == d[n],
{
}

/// Idempotence: migrating the same source a second time, with no intervening
/// writes to the destination, changes nothing.
pub proof fn lemma_migrate_idempotent(d: StoreView, s: StoreView)
    ensures
        migrated(migrated(d, s), s) == migrated(d, s),
{
    let once = migrated(d, s);
    let twice = migrated(once, s);
    assert forall|n: Seq<u8>| twice.dom().contains(n) implies #[trigger] twice[n] == once[n] by {
        if s.dom().contains(n) {
            assert(twice[n] =~= once[n]);
        }
    }
    assert(twice =~= once);
}

/// Migrating an empty selection of source segments changes nothing.
pub proof fn lemma_migrate_restrict_empty(d: StoreView, s: StoreView)
    ensures
        migrated(d, s.restrict(Set::empty())) == d,
{
    assert(migrated(d, s.restrict(Set::empty())) =~= d);
}

/// One engine step: merging one more source segment into a destination that
/// already holds the migration of the segments in `ns`.
pub proof fn lemma_migrate_step(d: StoreView, s: StoreView, ns: Set<Seq<u8>>, n: Seq<u8>)
    requires
        s.dom().contains(n),
        !ns.contains(n),
    ensures
        migrated(d, s.restrict(ns)).insert(
            n,
            merge_seg(seg_or_empty(migrated(d, s.restrict(ns)), n), s[n]),
        ) == migrated(d, s.restrict(ns.insert(n))),
{
    let lhs = migrated(d, s.restrict(ns)).insert(
        n,
        merge_seg(seg_or_empty(migrated(d, s.restrict(ns)), n), s[n]),
    );
    let rhs = migrated(d, s.restrict(ns.insert(n)));
    assert(seg_or_empty(migrated(d, s.restrict(ns)), n) =~= seg_or_empty(d, n));
    assert forall|m: Seq<u8>| lhs.dom().contains(m) implies #[trigger] lhs[m] == rhs[m] by {
        if m != n && s.restrict(ns).dom().contains(m) {
            assert(s.restrict(ns.insert(n)).dom().contains(m));
            assert(s.restrict(ns.insert(n))[m] == s.restrict(ns)[m]);
        }
    }
    assert(lhs =~= rhs);
}

} // verus!
