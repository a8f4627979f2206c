//! Byte-string helpers and segment-name validation.
//!
//! Segment names are arbitrary byte strings, but several backends can only
//! address names that are valid UTF-8, and SQL-backed ones only names that
//! are safe identifiers.  The predicates here are the single place where
//! those rules are written down.

use crate::db::model::{RowView, StoreView};
use vstd::prelude::*;

verus! {

/// Every segment name of the store is valid UTF-8.
pub open spec fn utf8_names(m: StoreView) -> bool {
    forall|n: Seq<u8>| #[trigger] m.dom().contains(n) ==> is_utf8(n)
}

/// The byte strings that a vector of byte vectors holds.
pub open spec fn view_names(v: Seq<Vec<u8>>) -> Seq<Seq<u8>> {
    Seq::new(v.len(), |i: int| v[i]@)
}

/// The rows that a vector of key-value pairs holds.
pub open spec fn view_rows(v: Seq<(Vec<u8>, Vec<u8>)>) -> Seq<RowView> {
    Seq::new(v.len(), |i: int| (v[i].0@, v[i].1@))
}

/// Valid UTF-8: the byte string parses as a sequence of well-formed UTF-8
/// characters (no overlong forms, no surrogate code points, nothing past
/// U+10FFFF).
pub open spec fn is_utf8(s: Seq<u8>) -> bool
    decreases s.len(),
{
    if s.len() == 0 {
        true
    } else if s[0] < 0x80 {
        is_utf8(s.skip(1))
    } else if 0xC2 <= s[0] < 0xE0 {
        s.len() >= 2 && is_cont(s[1]) && is_utf8(s.skip(2))
    } else if s[0] == 0xE0 {
        s.len() >= 3 && 0xA0 <= s[1] < 0xC0 && is_cont(s[2]) && is_utf8(s.skip(3))
    } else if 0xE1 <= s[0] < 0xED {
        s.len() >= 3 && is_cont(s[1]) && is_cont(s[2]) && is_utf8(s.skip(3))
    } else if s[0] == 0xED {
        s.len() >= 3 && 0x80 <= s[1] < 0xA0 && is_cont(s[2]) && is_utf8(s.skip(3))
    } else if 0xEE <= s[0] < 0xF0 {
        s.len() >= 3 && is_cont(s[1]) && is_cont(s[2]) && is_utf8(s.skip(3))
    } else if s[0] == 0xF0 {
        s.len() >= 4 && 0x90 <= s[1] < 0xC0 && is_cont(s[2]) && is_cont(s[3]) && is_utf8(s.skip(4))
    } else if 0xF1 <= s[0] < 0xF4 {
        s.len() >= 4 && is_cont(s[1]) && is_cont(s[2]) && is_cont(s[3]) && is_utf8(s.skip(4))
    } else if s[0] == 0xF4 {
        s.len() >= 4 && 0x80 <= s[1] < 0x90 && is_cont(s[2]) && is_cont(s[3]) && is_utf8(s.skip(4))
    } else {
        false
    }
}

/// A UTF-8 continuation byte.
pub open spec fn is_cont(b: u8) -> bool {
    0x80 <= b < 0xC0
}

/// A safe SQL identifier: ASCII letters, digits and underscores, not empty,
/// not starting with a digit.
pub open spec fn is_safe_ident(s: Seq<u8>) -> bool {
    &&& s.len() > 0
    &&& !is_digit(s[0])
    &&& forall|i: int| 0 <= i < s.len() ==> is_ident_byte(#[trigger] s[i])
}

pub open spec fn is_digit(b: u8) -> bool {
    0x30 <= b <= 0x39
}

pub open spec fn is_ident_byte(b: u8) -> bool {
    ||| 0x41 <= b <= 0x5A
    ||| 0x61 <= b <= 0x7A
    ||| is_digit(b)
    ||| b == 0x5F
}

/// Whether a byte string is valid UTF-8.
pub fn check_utf8(s: &Vec<u8>) -> (r: bool)
    ensures
        r == is_utf8(s@),
{
    let n = s.len();
    let mut i: usize = 0;
    proof {
        assert(s@.skip(0) =~= s@);
    }
    loop
        invariant
            i <= n,
            n == s@.len(),
            is_utf8(s@) == is_utf8(s@.skip(i as int)),
        decreases n - i,
    {
        if i == n {
            proof {
                assert(s@.skip(i as int) =~= Seq::<u8>::empty());
            }
            return true;
        }
        let ghost suf = s@.skip(i as int);
        assert(suf[0] == s@[i as int]);
        let b0 = s[i];
        let need: usize = if b0 < 0x80 {
            1
        } else if 0xC2 <= b0 && b0 < 0xE0 {
            2
        } else if 0xE0 <= b0 && b0 < 0xF0 {
            3
        } else if 0xF0 <= b0 && b0 < 0xF5 {
            4
        } else {
            return false;
        };
        if n - i < need {
            return false;
        }
        proof {
            assert forall|k: int| 1 <= k < need implies suf[k] == s@[i + k] by {}
        }
        if need >= 2 {
            let b1 = s[i + 1];
            let lo: u8 = if b0 == 0xE0 {
                0xA0
            } else if b0 == 0xED || b0 == 0xF4 {
                0x80
            } else if b0 == 0xF0 {
                0x90
            } else {
                0x80
            };
            let hi: u8 = if b0 == 0xED {
                0xA0
            } else if b0 == 0xF4 {
                0x90
            } else {
                0xC0
            };
            if !(lo <= b1 && b1 < hi) {
                return false;
            }
            if need >= 3 {
                let b2 = s[i + 2];
                if !(0x80 <= b2 && b2 < 0xC0) {
                    return false;
                }
                if need >= 4 {
                    let b3 = s[i + 3];
                    if !(0x80 <= b3 && b3 < 0xC0) {
                        return false;
                    }
                }
            }
        }
        proof {
            assert(suf.skip(need as int) =~= s@.skip(i + need as int));
            assert(is_utf8(suf) == is_utf8(suf.skip(need as int)));
        }
        i = i + need;
    }
}

/// Whether a byte string is a safe SQL identifier.
pub fn check_safe_ident(s: &Vec<u8>) -> (r: bool)
    ensures
        r == is_safe_ident(s@),
{
    let n = s.len();
    if n == 0 {
        return false;
    }
    if 0x30 <= s[0] && s[0] <= 0x39 {
        return false;
    }
    let mut i: usize = 0;
    while i < n
        invariant
            i <= n,
            n == s@.len(),
            forall|j: int| 0 <= j < i ==> is_ident_byte(#[trigger] s@[j]),
        decreases n - i,
    {
        let b = s[i];
        let ok = (0x41 <= b && b <= 0x5A) || (0x61 <= b && b <= 0x7A) || (0x30 <= b && b <= 0x39)
            || b == 0x5F;
        if !ok {
            return false;
        }
        i = i + 1;
    }
    true
}

/// A copy of a byte string.
pub fn clone_bytes(b: &Vec<u8>) -> (r: Vec<u8>)
    ensures
        r@ == b@,
{
    let mut r: Vec<u8> = Vec::new();
    let n = b.len();
    let mut i: usize = 0;
    while i < n
        invariant
            i <= n,
            n == b@.len(),
            r@ == b@.take(i as int),
        decreases n - i,
    {
        r.push(b[i]);
        proof {
            assert(r@ =~= b@.take(i + 1));
        }
        i = i + 1;
    }
    proof {
        assert(b@.take(n as int) =~= b@);
    }
    r
}

/// Whether two byte strings are equal.
pub fn bytes_eq(a: &Vec<u8>, b: &Vec<u8>) -> (r: bool)
    ensures
        r == (a@ == b@),
{
    let n = a.len();
    if n != b.len() {
        return false;
    }
    let mut i: usize = 0;
    while i < n
        invariant
            i <= n,
            n == a@.len() == b@.len(),
            forall|j: int| 0 <= j < i ==> a@[j] == b@[j],
        decreases n - i,
    {
        if a[i] != b[i] {
            return false;
        }
        i = i + 1;
    }
    proof {
        assert(a@ =~= b@);
    }
    true
}

/// A copy of the rows from `start` (inclusive) to `end` (exclusive).
pub fn copy_range(rows: &Vec<(Vec<u8>, Vec<u8>)>, start: usize, end: usize) -> (r: Vec<
    (Vec<u8>, Vec<u8>),
>)
    requires
        start <= end <= rows@.len(),
    ensures
        view_rows(r@) == view_rows(rows@).subrange(start as int, end as int),
{
    let mut r: Vec<(Vec<u8>, Vec<u8>)> = Vec::new();
    let mut i: usize = start;
    proof {
        assert(view_rows(r@) =~= view_rows(rows@).subrange(start as int, start as int));
    }
    while i < end
        invariant
            start <= i <= end <= rows@.len(),
            view_rows(r@) == view_rows(rows@).subrange(start as int, i as int),
        decreases end - i,
    {
        let kk = clone_bytes(&rows[i].0);
        let vv = clone_bytes(&rows[i].1);
        let ghost pre = r@;
        r.push((kk, vv));
        proof {
            assert(view_rows(pre).len() == pre.len());
            assert(pre.len() == i - start);
            assert(r@[i - start] == (kk, vv));
            let vr = view_rows(r@);
            let goal = view_rows(rows@).subrange(start as int, i + 1);
            assert forall|j: int| 0 <= j < vr.len() implies vr[j] == goal[j] by {
                if j < i - start {
                    assert(view_rows(pre)[j] == view_rows(rows@).subrange(
                        start as int,
                        i as int,
                    )[j]);
                    assert(r@[j] == pre[j]);
                } else {
                    assert(vr[j] == (kk@, vv@));
                }
            }
            assert(vr =~= goal);
        }
        i = i + 1;
    }
    r
}

/// A copy of a row sequence.
pub fn clone_rows(rows: &Vec<(Vec<u8>, Vec<u8>)>) -> (r: Vec<(Vec<u8>, Vec<u8>)>)
    ensures
        view_rows(r@) == view_rows(rows@),
{
    let mut r: Vec<(Vec<u8>, Vec<u8>)> = Vec::new();
    let n = rows.len();
    let mut i: usize = 0;
    while i < n
        invariant
            i <= n,
            n == rows@.len(),
            view_rows(r@) == view_rows(rows@).take(i as int),
        decreases n - i,
    {
        let kk = clone_bytes(&rows[i].0);
        let vv = clone_bytes(&rows[i].1);
        let ghost pre = r@;
        r.push((kk, vv));
        proof {
            assert(view_rows(pre).len() == pre.len());
            assert(pre.len() == i as int);
            let vr = view_rows(r@);
            let goal = view_rows(rows@).take(i + 1);
            assert(r@[i as int] == (kk, vv));
            assert forall|j: int| 0 <= j < vr.len() implies vr[j] == goal[j] by {
                if j < i {
                    assert(view_rows(pre)[j] == view_rows(rows@).take(i as int)[j]);
                    assert(r@[j] == pre[j]);
                } else {
                    assert(vr[j] == (kk@, vv@));
                }
            }
            assert(vr =~= goal);
        }
        i = i + 1;
    }
    proof {
        assert(view_rows(rows@).take(n as int) =~= view_rows(rows@));
    }
    r
}

} // verus!
