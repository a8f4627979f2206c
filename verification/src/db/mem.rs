//! In-memory storage shared by the in-process backends: association lists
//! with unique keys, for a segment's rows and for a store's segments.

use crate::db::model::{insert_rows, rows_to_map, unique_keys, RowView, SegView, StoreView};
use crate::db::names::{bytes_eq, clone_bytes, clone_rows, view_names, view_rows};
use vstd::prelude::*;
use vstd::std_specs::vec::vec_index_mut;

verus! {

/// The map that an association list denotes; a later entry would win, though
/// well-formed lists hold each key once.
pub open spec fn alist_view<V>(l: Seq<(Seq<u8>, V)>) -> Map<Seq<u8>, V>
    decreases l.len(),
{
    if l.len() == 0 {
        Map::empty()
    } else {
        alist_view(l.drop_last()).insert(l.last().0, l.last().1)
    }
}

/// No key occurs twice.
pub open spec fn alist_wf<V>(l: Seq<(Seq<u8>, V)>) -> bool {
    forall|i: int, j: int| 0 <= i < j < l.len() ==> l[i].0 != l[j].0
}

/// The denoted map's domain holds exactly the listed keys, and on a
/// well-formed list each key finds its listed value.
pub proof fn lemma_alist_dom<V>(l: Seq<(Seq<u8>, V)>)
    ensures
        forall|i: int| 0 <= i < l.len() ==> #[trigger] alist_view(l).dom().contains(l[i].0),
        forall|k: Seq<u8>|
            #[trigger] alist_view(l).dom().contains(k) ==> exists|i: int|
                0 <= i < l.len() && l[i].0 == k,
        alist_wf(l) ==> forall|i: int|
            0 <= i < l.len() ==> alist_view(l)[#[trigger] l[i].0] == l[i].1,
    decreases l.len(),
{
    if l.len() > 0 {
        let dl = l.drop_last();
        lemma_alist_dom(dl);
        assert forall|i: int| 0 <= i < l.len() implies #[trigger] alist_view(l).dom().contains(
            l[i].0,
        ) by {
            if i < l.len() - 1 {
                assert(dl[i] == l[i]);
                assert(alist_view(dl).dom().contains(dl[i].0));
            }
        }
        assert forall|k: Seq<u8>| #[trigger] alist_view(l).dom().contains(k) implies exists|i: int|
            0 <= i < l.len() && l[i].0 == k by {
            if k != l.last().0 {
                assert(alist_view(dl).dom().contains(k));
                let i = choose|i: int| 0 <= i < dl.len() && (#[trigger] dl[i]).0 == k;
                assert(l[i].0 == k);
            } else {
                assert(l[l.len() - 1].0 == k);
            }
        }
        if alist_wf(l) {
            assert forall|i: int| 0 <= i < l.len() implies alist_view(l)[(#[trigger] l[i]).0]
                == l[i].1 by {
                if i < l.len() - 1 {
                    assert(dl[i] == l[i]);
                    assert(alist_view(dl)[dl[i].0] == dl[i].1);
                    assert(l[i].0 != l.last().0);
                }
            }
        }
    }
}

/// Overwriting the value at an existing key updates the denoted map at that
/// key and keeps the list well-formed.
pub proof fn lemma_alist_update<V>(l: Seq<(Seq<u8>, V)>, i: int, v: V)
    requires
        alist_wf(l),
        0 <= i < l.len(),
    ensures
        alist_view(l.update(i, (l[i].0, v))) == alist_view(l).insert(l[i].0, v),
        alist_wf(l.update(i, (l[i].0, v))),
    decreases l.len(),
{
    let k = l[i].0;
    let lu = l.update(i, (k, v));
    assert forall|a: int, b: int| 0 <= a < b < lu.len() implies lu[a].0 != lu[b].0 by {
        assert(lu[a].0 == l[a].0 && lu[b].0 == l[b].0);
    }
    if i == l.len() - 1 {
        assert(lu.drop_last() =~= l.drop_last());
        assert(lu.last() == (k, v));
        assert(alist_view(lu) =~= alist_view(l).insert(k, v));
    } else {
        let dl = l.drop_last();
        lemma_alist_update(dl, i, v);
        assert(lu.drop_last() =~= dl.update(i, (dl[i].0, v)));
        assert(lu.last() == l.last());
        assert(k != l.last().0);
        assert(alist_view(lu) =~= alist_view(l).insert(k, v));
    }
}

/// Appending a fresh key inserts it into the denoted map and keeps the list
/// well-formed.
pub proof fn lemma_alist_push<V>(l: Seq<(Seq<u8>, V)>, k: Seq<u8>, v: V)
    requires
        alist_wf(l),
        forall|i: int| 0 <= i < l.len() ==> (#[trigger] l[i]).0 != k,
    ensures
        alist_view(l.push((k, v))) == alist_view(l).insert(k, v),
        alist_wf(l.push((k, v))),
{
    let lp = l.push((k, v));
    assert(lp.drop_last() =~= l);
    assert(lp.last() == (k, v));
    assert forall|a: int, b: int| 0 <= a < b < lp.len() implies lp[a].0 != lp[b].0 by {
        if b < lp.len() - 1 {
            assert(lp[a].0 == l[a].0 && lp[b].0 == l[b].0);
        } else {
            assert(lp[a].0 == l[a].0 && lp[b].0 == k);
        }
    }
}

/// The denoted map of a row list equals the map the rows write.
pub proof fn lemma_rows_alist(rows: Seq<RowView>)
    ensures
        rows_to_map(rows) == alist_view(rows),
    decreases rows.len(),
{
    if rows.len() > 0 {
        lemma_rows_alist(rows.drop_last());
    }
}

/// A segment's rows held in memory: an association list with unique keys.
pub struct RowMap {
    rows: Vec<(Vec<u8>, Vec<u8>)>,
}

impl View for RowMap {
    type V = SegView;

    closed spec fn view(&self) -> SegView {
        alist_view(view_rows(self.rows@))
    }
}

impl RowMap {
    /// The rows in storage order.
    pub closed spec fn row_list(&self) -> Seq<RowView> {
        view_rows(self.rows@)
    }

    /// Each key held once.
    pub closed spec fn wf(&self) -> bool {
        alist_wf(self.row_list())
    }

    /// The row list holds each key once and denotes exactly the map.
    pub proof fn lemma_rows(&self)
        requires
            self.wf(),
        ensures
            unique_keys(self.row_list()),
            rows_to_map(self.row_list()) == self@,
    {
        lemma_rows_alist(self.row_list());
    }

    /// An empty segment.
    pub fn new() -> (r: RowMap)
        ensures
            r@ == Map::<Seq<u8>, Seq<u8>>::empty(),
            r.wf(),
            r.row_list() == Seq::<RowView>::empty(),
    {
        let r = RowMap { rows: Vec::new() };
        proof {
            assert(r.row_list() =~= Seq::<RowView>::empty());
        }
        r
    }

    fn find(&self, key: &Vec<u8>) -> (r: Option<usize>)
        ensures
            match r {
                Some(i) => i < self.row_list().len() && self.row_list()[i as int].0 == key@,
                None => forall|i: int|
                    0 <= i < self.row_list().len() ==> (#[trigger] self.row_list()[i]).0 != key@,
            },
    {
        let n = self.rows.len();
        let mut i: usize = 0;
        while i < n
            invariant
                i <= n,
                n == self.rows@.len(),
                forall|j: int| 0 <= j < i ==> (#[trigger] self.row_list()[j]).0 != key@,
            decreases n - i,
        {
            if bytes_eq(&self.rows[i].0, key) {
                return Some(i);
            }
            i = i + 1;
        }
        None
    }

    /// Inserts one row; an existing key's value is overwritten.
    pub fn insert(&mut self, key: Vec<u8>, value: Vec<u8>)
        ensures
            old(self).wf() ==> final(self).wf() && final(self)@ == old(self)@.insert(
                key@,
                value@,
            ),
    {
        let ghost l = self.row_list();
        match self.find(&key) {
            Some(i) => {
                proof {
                    if alist_wf(l) {
                        lemma_alist_update(l, i as int, value@);
                    }
                }
                let slot = vec_index_mut(&mut self.rows, i);
                *slot = (key, value);
                proof {
                    assert(self.row_list() =~= l.update(i as int, (l[i as int].0, value@)));
                }
            },
            None => {
                proof {
                    if alist_wf(l) {
                        lemma_alist_push(l, key@, value@);
                    }
                }
                self.rows.push((key, value));
                proof {
                    assert(self.row_list() =~= l.push((key@, value@)));
                }
            },
        }
    }

    /// Applies a batch in order, the last write to a key winning.
    #[verifier::loop_isolation(false)]
    pub fn insert_all(&mut self, batch: Vec<(Vec<u8>, Vec<u8>)>)
        ensures
            old(self).wf() ==> final(self).wf() && final(self)@ == insert_rows(
                old(self)@,
                view_rows(batch@),
            ),
    {
        let ghost b = view_rows(batch@);
        let n = batch.len();
        let mut i: usize = 0;
        while i < n
            invariant
                i <= n,
                n == batch@.len(),
                old(self).wf() ==> self.wf() && self@ == insert_rows(old(self)@, b.take(i as int)),
            decreases n - i,
        {
            let kk = clone_bytes(&batch[i].0);
            let vv = clone_bytes(&batch[i].1);
            self.insert(kk, vv);
            proof {
                assert(b.take(i + 1).drop_last() =~= b.take(i as int));
                assert(b.take(i + 1).last() == b[i as int]);
            }
            i = i + 1;
        }
        proof {
            assert(b.take(n as int) =~= b);
        }
    }

    /// The rows, copied out in storage order.
    pub fn snapshot_rows(&self) -> (r: Vec<(Vec<u8>, Vec<u8>)>)
        ensures
            view_rows(r@) == self.row_list(),
    {
        clone_rows(&self.rows)
    }

    /// An identical copy.
    pub fn duplicate(&self) -> (r: RowMap)
        ensures
            r@ == self@,
            r.wf() == self.wf(),
            r.row_list() == self.row_list(),
    {
        RowMap { rows: clone_rows(&self.rows) }
    }
}

/// The name-to-content pairs that a segment list holds.
pub open spec fn seg_pairs(v: Seq<(Vec<u8>, RowMap)>) -> Seq<(Seq<u8>, SegView)> {
    Seq::new(v.len(), |i: int| (v[i].0@, v[i].1@))
}

/// A store's segments held in memory: names to row maps, names unique.
pub struct SegStore {
    segs: Vec<(Vec<u8>, RowMap)>,
}

impl View for SegStore {
    type V = StoreView;

    closed spec fn view(&self) -> StoreView {
        alist_view(seg_pairs(self.segs@))
    }
}

impl SegStore {
    /// Each name held once, each segment well-formed.
    pub closed spec fn wf(&self) -> bool {
        &&& alist_wf(seg_pairs(self.segs@))
        &&& forall|i: int| 0 <= i < self.segs@.len() ==> (#[trigger] self.segs@[i]).1.wf()
    }

    /// The names in storage order.
    pub closed spec fn name_list(&self) -> Seq<Seq<u8>> {
        Seq::new(self.segs@.len(), |i: int| self.segs@[i].0@)
    }

    /// An empty store.
    pub fn new() -> (r: SegStore)
        ensures
            r@ == Map::<Seq<u8>, SegView>::empty(),
            r.wf(),
    {
        let r = SegStore { segs: Vec::new() };
        proof {
            assert(seg_pairs(r.segs@) =~= Seq::<(Seq<u8>, SegView)>::empty());
        }
        r
    }

    /// Every segment name, each once.
    #[verifier::loop_isolation(false)]
    pub fn names(&self) -> (r: Vec<Vec<u8>>)
        ensures
            self.wf() ==> ({
                let nv = view_names(r@);
                &&& forall|i: int, j: int| 0 <= i < j < nv.len() ==> nv[i] != nv[j]
                &&& forall|i: int| 0 <= i < nv.len() ==> self@.dom().contains(#[trigger] nv[i])
                &&& forall|n: Seq<u8>| #[trigger] self@.dom().contains(n) ==> nv.contains(n)
            }),
    {
        proof {
            lemma_alist_dom(seg_pairs(self.segs@));
        }
        let ghost keys = self.name_list();
        let mut r: Vec<Vec<u8>> = Vec::new();
        let n = self.segs.len();
        let mut i: usize = 0;
        proof {
            assert(view_names(r@) =~= keys.take(0));
        }
        while i < n
            invariant
                i <= n,
                n == self.segs@.len(),
                view_names(r@) == keys.take(i as int),
            decreases n - i,
        {
            r.push(clone_bytes(&self.segs[i].0));
            proof {
                assert(view_names(r@) =~= keys.take(i + 1));
            }
            i = i + 1;
        }
        proof {
            assert(keys.take(n as int) =~= keys);
            let nv = view_names(r@);
            assert(nv == keys);
            if self.wf() {
                assert forall|i2: int, j: int| 0 <= i2 < j < nv.len() implies nv[i2] != nv[j] by {
                assert(seg_pairs(self.segs@)[i2].0 == nv[i2]);
                assert(seg_pairs(self.segs@)[j].0 == nv[j]);
            }
                assert forall|i2: int| 0 <= i2 < nv.len() implies self@.dom().contains(
                    #[trigger] nv[i2],
                ) by {
                    assert(self@.dom().contains(seg_pairs(self.segs@)[i2].0));
                }
                assert forall|m: Seq<u8>| #[trigger] self@.dom().contains(m) implies nv.contains(
                    m,
                ) by {
                    let j = choose|j: int|
                        0 <= j < seg_pairs(self.segs@).len() && (#[trigger] seg_pairs(
                            self.segs@,
                        )[j]).0 == m;
                    assert(nv[j] == m);
                }
            }
        }
        r
    }

    fn find(&self, name: &Vec<u8>) -> (r: Option<usize>)
        ensures
            match r {
                Some(i) => i < self.segs@.len() && seg_pairs(self.segs@)[i as int].0 == name@,
                None => forall|i: int|
                    0 <= i < self.segs@.len() ==> (#[trigger] seg_pairs(self.segs@)[i]).0 != name@,
            },
    {
        let n = self.segs.len();
        let mut i: usize = 0;
        while i < n
            invariant
                i <= n,
                n == self.segs@.len(),
                forall|j: int| 0 <= j < i ==> (#[trigger] seg_pairs(self.segs@)[j]).0 != name@,
            decreases n - i,
        {
            if bytes_eq(&self.segs[i].0, name) {
                proof {
                    assert(seg_pairs(self.segs@)[i as int].0 == name@);
                }
                return Some(i);
            }
            i = i + 1;
        }
        None
    }

    /// The named segment's rows, copied out; `None` where the store has no
    /// segment of that name.
    pub fn get(&self, name: &Vec<u8>) -> (r: Option<RowMap>)
        ensures
            self.wf() ==> match r {
                Some(m) => self@.dom().contains(name@) && m@ == self@[name@] && m.wf(),
                None => !self@.dom().contains(name@),
            },
    {
        proof {
            lemma_alist_dom(seg_pairs(self.segs@));
        }
        match self.find(name) {
            Some(i) => {
                proof {
                    if self.wf() {
                        assert(self@[seg_pairs(self.segs@)[i as int].0] == seg_pairs(
                            self.segs@,
                        )[i as int].1);
                    }
                }
                Some(self.segs[i].1.duplicate())
            },
            None => {
                proof {
                    if self@.dom().contains(name@) {
                        let i = choose|i: int|
                            0 <= i < seg_pairs(self.segs@).len() && (#[trigger] seg_pairs(
                                self.segs@,
                            )[i]).0 == name@;
                        assert(false);
                    }
                }
                None
            },
        }
    }

    /// Sets the named segment's content, creating the segment where absent.
    pub fn set(&mut self, name: Vec<u8>, seg: RowMap)
        ensures
            old(self).wf() && seg.wf() ==> final(self).wf() && final(self)@ == old(
                self,
            )@.insert(name@, seg@),
    {
        let ghost l = seg_pairs(self.segs@);
        match self.find(&name) {
            Some(i) => {
                proof {
                    if alist_wf(l) {
                        lemma_alist_update(l, i as int, seg@);
                    }
                }
                let slot = vec_index_mut(&mut self.segs, i);
                *slot = (name, seg);
                proof {
                    assert(seg_pairs(self.segs@) =~= l.update(i as int, (l[i as int].0, seg@)));
                    if old(self).wf() && seg.wf() {
                        assert forall|j: int| 0 <= j < self.segs@.len() implies (#[trigger] self.segs@[j]).1.wf() by {
                            if j != i {
                                assert(self.segs@[j] == old(self).segs@[j]);
                            }
                        }
                    }
                }
            },
            None => {
                proof {
                    if alist_wf(l) {
                        lemma_alist_push(l, name@, seg@);
                    }
                }
                self.segs.push((name, seg));
                proof {
                    assert(seg_pairs(self.segs@) =~= l.push((name@, seg@)));
                    if old(self).wf() && seg.wf() {
                        assert forall|j: int| 0 <= j < self.segs@.len() implies (#[trigger] self.segs@[j]).1.wf() by {
                            if j < self.segs@.len() - 1 {
                                assert(self.segs@[j] == old(self).segs@[j]);
                            }
                        }
                    }
                }
            },
        }
    }
}

} // verus!
