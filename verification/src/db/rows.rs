//! The row-validation policy.
//!
//! Some backends can hold rows whose stored key or value cannot be decoded
//! as a byte string (a SQL NULL where bytes were expected, a type mismatch
//! from manual tampering).  Decoding applies the policy row by row: with
//! `ignore_broken_rows` the malformed row is skipped and recorded, otherwise
//! decoding stops at the first malformed row with an error naming the
//! segment and the field at fault.  The key is examined before the value.

use crate::db::model::RowView;
use crate::db::names::{clone_bytes, view_rows};
use crate::db::{view_skips, Config, MalformedRowError, RowField, SkippedRow};
use vstd::prelude::*;

verus! {

/// One row as a backend stored it: each field decoded to bytes, or not
/// decodable.
pub type StoredRow = (Option<Vec<u8>>, Option<Vec<u8>>);

/// The stored rows that a vector of them holds.
pub open spec fn view_stored(v: Seq<StoredRow>) -> Seq<(Option<Seq<u8>>, Option<Seq<u8>>)> {
    Seq::new(
        v.len(),
        |i: int|
            (
                match v[i].0 {
                    Some(k) => Some(k@),
                    None => None,
                },
                match v[i].1 {
                    Some(w) => Some(w@),
                    None => None,
                },
            ),
    )
}

/// Both fields decoded.
pub open spec fn row_ok(r: (Option<Seq<u8>>, Option<Seq<u8>>)) -> bool {
    r.0 is Some && r.1 is Some
}

/// The well-formed rows, in order, the malformed ones left out.
pub open spec fn decoded(raw: Seq<(Option<Seq<u8>>, Option<Seq<u8>>)>) -> Seq<RowView>
    decreases raw.len(),
{
    if raw.len() == 0 {
        Seq::empty()
    } else {
        decoded(raw.drop_last()) + (match (raw.last().0, raw.last().1) {
            (Some(k), Some(v)) => seq![(k, v)],
            _ => Seq::empty(),
        })
    }
}

/// The field at fault in a malformed row; the key is examined first.
pub open spec fn bad_field(r: (Option<Seq<u8>>, Option<Seq<u8>>)) -> RowField {
    if r.0 is None {
        RowField::Key
    } else {
        RowField::Value
    }
}

/// The malformed rows, in order: each one's position and failing field.
pub open spec fn skips_of(raw: Seq<(Option<Seq<u8>>, Option<Seq<u8>>)>) -> Seq<(int, RowField)>
    decreases raw.len(),
{
    if raw.len() == 0 {
        Seq::empty()
    } else {
        skips_of(raw.drop_last()) + (if row_ok(raw.last()) {
            Seq::empty()
        } else {
            seq![(raw.len() - 1, bad_field(raw.last()))]
        })
    }
}

/// Applies the row-validation policy to one segment's stored rows.
///
/// In tolerant mode every well-formed row is kept, in order, and each
/// malformed one is dropped and recorded, with its position and failing
/// field, for the caller to warn about.  In strict mode the result is the
/// same whenever every row is well-formed (the record then empty), and
/// otherwise the first malformed row aborts decoding with an error naming
/// the segment and whether its key or its value was unreadable.
pub fn decode_rows(raw: &Vec<StoredRow>, segment: &Vec<u8>, config: Config) -> (r: Result<
    (Vec<(Vec<u8>, Vec<u8>)>, Vec<SkippedRow>),
    MalformedRowError,
>)
    ensures
        config.ignore_broken_rows ==> r is Ok,
        !config.ignore_broken_rows ==> ((r is Ok) <==> (forall|i: int|
            0 <= i < view_stored(raw@).len() ==> row_ok(#[trigger] view_stored(raw@)[i]))),
        r is Ok ==> view_rows((r->Ok_0).0@) == decoded(view_stored(raw@)) && view_skips(
            (r->Ok_0).1@,
        ) == skips_of(view_stored(raw@)) && (forall|j: int|
            0 <= j < (r->Ok_0).1@.len() ==> (#[trigger] (r->Ok_0).1@[j]).segment@ == segment@),
        r is Err ==> {
            let sv = view_stored(raw@);
            &&& !config.ignore_broken_rows
            &&& (r->Err_0).segment@ == segment@
            &&& exists|i: int|
                0 <= i < sv.len() && !row_ok(#[trigger] sv[i]) && (forall|j: int|
                    0 <= j < i ==> row_ok(#[trigger] sv[j])) && (r->Err_0).field == (if sv[i].0
                    is None {
                    RowField::Key
                } else {
                    RowField::Value
                })
        },
{
    let ghost sv = view_stored(raw@);
    let mut out: Vec<(Vec<u8>, Vec<u8>)> = Vec::new();
    let mut skips: Vec<SkippedRow> = Vec::new();
    let n = raw.len();
    let mut i: usize = 0;
    proof {
        assert(view_rows(out@) =~= decoded(sv.take(0)));
        assert(view_skips(skips@) =~= skips_of(sv.take(0)));
    }
    while i < n
        invariant
            i <= n,
            n == raw@.len(),
            sv == view_stored(raw@),
            view_rows(out@) == decoded(sv.take(i as int)),
            view_skips(skips@) == skips_of(sv.take(i as int)),
            forall|j: int| 0 <= j < skips@.len() ==> (#[trigger] skips@[j]).segment@ == segment@,
            !config.ignore_broken_rows ==> forall|j: int| 0 <= j < i ==> row_ok(#[trigger] sv[j]),
        decreases n - i,
    {
        proof {
            assert(sv.take(i + 1).drop_last() =~= sv.take(i as int));
            assert(sv.take(i + 1).last() == sv[i as int]);
        }
        match (&raw[i].0, &raw[i].1) {
            (Some(k), Some(v)) => {
                let kk = clone_bytes(k);
                let vv = clone_bytes(v);
                out.push((kk, vv));
                proof {
                    assert(row_ok(sv[i as int]));
                    assert(view_rows(out@) =~= decoded(sv.take(i + 1)));
                    assert(view_skips(skips@) =~= skips_of(sv.take(i + 1)));
                }
            },
            (None, _) => {
                if !config.ignore_broken_rows {
                    return Err(
                        MalformedRowError { segment: clone_bytes(segment), field: RowField::Key },
                    );
                }
                let ghost pre = skips@;
                skips.push(
                    SkippedRow { segment: clone_bytes(segment), index: i, field: RowField::Key },
                );
                proof {
                    assert(!(sv[i as int].0 is Some));
                    assert(view_rows(out@) =~= decoded(sv.take(i + 1)));
                    lemma_skip_extend(pre, skips@, sv, i as int, RowField::Key);
                }
            },
            (Some(_), None) => {
                if !config.ignore_broken_rows {
                    return Err(
                        MalformedRowError { segment: clone_bytes(segment), field: RowField::Value },
                    );
                }
                let ghost pre = skips@;
                skips.push(
                    SkippedRow { segment: clone_bytes(segment), index: i, field: RowField::Value },
                );
                proof {
                    assert(!(sv[i as int].1 is Some));
                    assert(view_rows(out@) =~= decoded(sv.take(i + 1)));
                    lemma_skip_extend(pre, skips@, sv, i as int, RowField::Value);
                }
            },
        }
        i = i + 1;
    }
    proof {
        assert(sv.take(n as int) =~= sv);
    }
    Ok((out, skips))
}

/// Appending one skip entry extends the skip view by the row's position and
/// failing field.
proof fn lemma_skip_extend(
    pre: Seq<SkippedRow>,
    post: Seq<SkippedRow>,
    sv: Seq<(Option<Seq<u8>>, Option<Seq<u8>>)>,
    i: int,
    field: RowField,
)
    requires
        0 <= i < sv.len(),
        view_skips(pre) == skips_of(sv.take(i)),
        post.len() == pre.len() + 1,
        forall|j: int| 0 <= j < pre.len() ==> post[j] == pre[j],
        post.last().index == i,
        post.last().field == field,
        !row_ok(sv[i]),
        bad_field(sv[i]) == field,
    ensures
        view_skips(post) == skips_of(sv.take(i + 1)),
{
    assert(sv.take(i + 1).drop_last() =~= sv.take(i));
    assert(sv.take(i + 1).last() == sv[i]);
    let a = view_skips(post);
    let b = skips_of(sv.take(i + 1));
    assert forall|j: int| 0 <= j < a.len() implies a[j] == b[j] by {
        if j < pre.len() {
            assert(view_skips(pre)[j] == skips_of(sv.take(i))[j]);
        } else {
            assert(a[j] == (i, field));
        }
    }
    assert(a =~= b);
}

} // verus!
