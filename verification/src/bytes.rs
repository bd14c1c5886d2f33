//! Byte-string utilities for the record parser: whitespace trimming, the
//! `": "` key/value separator search, and byte-wise equality, each an
//! executable function proved against a small spec-level model.

use vstd::prelude::*;

verus! {

/// ASCII whitespace as the dataset uses it (space, tab, line feed,
/// vertical tab, form feed, carriage return).
pub open spec fn is_ws(b: u8) -> bool {
    b == 32 || b == 9 || b == 10 || b == 11 || b == 12 || b == 13
}

pub fn byte_is_ws(b: u8) -> (r: bool)
    ensures
        r == is_ws(b),
{
    b == 32 || b == 9 || b == 10 || b == 11 || b == 12 || b == 13
}

/// `s` with leading whitespace removed.
pub open spec fn trim_front(s: Seq<u8>) -> Seq<u8>
    decreases s.len(),
{
    if s.len() > 0 && is_ws(s[0]) {
        trim_front(s.drop_first())
    } else {
        s
    }
}

/// `s` with trailing whitespace removed.
pub open spec fn trim_back(s: Seq<u8>) -> Seq<u8>
    decreases s.len(),
{
    if s.len() > 0 && is_ws(s.last()) {
        trim_back(s.drop_last())
    } else {
        s
    }
}

/// `s` with surrounding whitespace removed.
pub open spec fn trimmed(s: Seq<u8>) -> Seq<u8> {
    trim_back(trim_front(s))
}

pub proof fn lemma_trim_front_idx(s: Seq<u8>, i: int)
    requires
        0 <= i <= s.len(),
        forall|j: int| 0 <= j < i ==> is_ws(s[j]),
        i < s.len() ==> !is_ws(s[i]),
    ensures
        trim_front(s) == s.subrange(i, s.len() as int),
    decreases i,
{
    if i == 0 {
        assert(s.subrange(0, s.len() as int) =~= s);
    } else {
        let s1 = s.drop_first();
        lemma_trim_front_idx(s1, i - 1);
        assert(s1.subrange(i - 1, s1.len() as int) =~= s.subrange(i, s.len() as int));
    }
}

pub proof fn lemma_trim_back_idx(s: Seq<u8>, e: int)
    requires
        0 <= e <= s.len(),
        forall|j: int| e <= j < s.len() ==> is_ws(s[j]),
        e > 0 ==> !is_ws(s[e - 1]),
    ensures
        trim_back(s) == s.subrange(0, e),
    decreases s.len(),
{
    if e == s.len() {
        assert(s.subrange(0, e) =~= s);
    } else {
        let s1 = s.drop_last();
        lemma_trim_back_idx(s1, e);
        assert(s1.subrange(0, e) =~= s.subrange(0, e));
    }
}

/// The trimmed extent of `v[lo..hi]`: indices `r.0 <= r.1` within
/// `[lo, hi]` such that `v[r.0..r.1]` is the trimmed slice.
pub fn trim_range(v: &Vec<u8>, lo: usize, hi: usize) -> (r: (usize, usize))
    requires
        lo <= hi <= v@.len(),
    ensures
        lo <= r.0 <= r.1 <= hi,
        v@.subrange(r.0 as int, r.1 as int) == trimmed(v@.subrange(lo as int, hi as int)),
{
    let mut a = lo;
    while a < hi && byte_is_ws(v[a])
        invariant
            lo <= a <= hi <= v@.len(),
            forall|j: int| lo <= j < a ==> is_ws(v@[j]),
        decreases hi - a,
    {
        a = a + 1;
    }
    let mut b = hi;
    while b > a && byte_is_ws(v[b - 1])
        invariant
            lo <= a <= b <= hi <= v@.len(),
            forall|j: int| b <= j < hi ==> is_ws(v@[j]),
        decreases b,
    {
        b = b - 1;
    }
    proof {
        let s = v@.subrange(lo as int, hi as int);
        lemma_trim_front_idx(s, a - lo);
        assert(s.subrange(a - lo, s.len() as int) =~= v@.subrange(a as int, hi as int));
        let t = v@.subrange(a as int, hi as int);
        lemma_trim_back_idx(t, b - a);
        assert(t.subrange(0, b - a) =~= v@.subrange(a as int, b as int));
    }
    (a, b)
}

/// Is the two-byte separator `": "` at position `i` of `s`?
pub open spec fn sep_at(s: Seq<u8>, i: int) -> bool {
    0 <= i && i + 1 < s.len() && s[i] == 58 && s[i + 1] == 32
}

/// The position of the first `": "` in `s`, or -1 if there is none.
pub open spec fn find_sep(s: Seq<u8>) -> int
    decreases s.len(),
{
    if s.len() < 2 {
        -1
    } else if s[0] == 58 && s[1] == 32 {
        0
    } else {
        let r = find_sep(s.drop_first());
        if r < 0 {
            -1
        } else {
            r + 1
        }
    }
}

pub proof fn lemma_find_sep_found(s: Seq<u8>, i: int)
    requires
        sep_at(s, i),
        forall|j: int| 0 <= j < i ==> !sep_at(s, j),
    ensures
        find_sep(s) == i,
    decreases i,
{
    if i > 0 {
        assert(!sep_at(s, 0));
        let s1 = s.drop_first();
        assert(sep_at(s1, i - 1));
        assert(forall|j: int| 0 <= j < i - 1 ==> !sep_at(s, j + 1) && !sep_at(s1, j));
        lemma_find_sep_found(s1, i - 1);
    }
}

pub proof fn lemma_find_sep_none(s: Seq<u8>)
    requires
        forall|j: int| !sep_at(s, j),
    ensures
        find_sep(s) == -1,
    decreases s.len(),
{
    if s.len() >= 2 {
        assert(!sep_at(s, 0));
        let s1 = s.drop_first();
        assert forall|j: int| !sep_at(s1, j) by {
            if sep_at(s1, j) {
                assert(s1[j] == s[j + 1]);
                assert(s1[j + 1] == s[j + 2]);
                assert(sep_at(s, j + 1));
            }
        }
        lemma_find_sep_none(s1);
    }
}

/// The position of the first `": "` within `v[lo..hi]`, as an absolute
/// index into `v`.
pub fn find_sep_range(v: &Vec<u8>, lo: usize, hi: usize) -> (r: Option<usize>)
    requires
        lo <= hi <= v@.len(),
    ensures
        match r {
            Some(i) => lo <= i && i + 1 < hi && find_sep(v@.subrange(lo as int, hi as int)) == i
                - lo,
            None => find_sep(v@.subrange(lo as int, hi as int)) == -1,
        },
{
    let ghost s = v@.subrange(lo as int, hi as int);
    let mut i = lo;
    while hi - i > 1
        invariant
            lo <= i <= hi <= v@.len(),
            i <= hi,
            s == v@.subrange(lo as int, hi as int),
            forall|j: int| 0 <= j < i - lo ==> !sep_at(s, j),
        decreases hi - i,
    {
        if v[i] == 58 && v[i + 1] == 32 {
            proof {
                assert(sep_at(s, i - lo));
                lemma_find_sep_found(s, i - lo);
            }
            return Some(i);
        }
        i = i + 1;
    }
    proof {
        assert(forall|j: int| j >= i - lo ==> !sep_at(s, j));
        lemma_find_sep_none(s);
    }
    None
}

/// A fresh copy of `v[lo..hi]`.
pub fn sub_bytes(v: &Vec<u8>, lo: usize, hi: usize) -> (r: Vec<u8>)
    requires
        lo <= hi <= v@.len(),
    ensures
        r@ == v@.subrange(lo as int, hi as int),
{
    let mut r: Vec<u8> = Vec::new();
    let mut i = lo;
    while i < hi
        invariant
            lo <= i <= hi <= v@.len(),
            r@ == v@.subrange(lo as int, i as int),
        decreases hi - i,
    {
        r.push(v[i]);
        i = i + 1;
        proof {
            assert(v@.subrange(lo as int, i as int) =~= v@.subrange(lo as int, i - 1).push(
                v@[i - 1],
            ));
        }
    }
    r
}

/// Byte-wise equality of two byte strings.
pub fn bytes_eq(a: &Vec<u8>, b: &Vec<u8>) -> (r: bool)
    ensures
        r == (a@ == b@),
{
    if a.len() != b.len() {
        return false;
    }
    let mut i: usize = 0;
    while i < a.len()
        invariant
            i <= a@.len(),
            a@.len() == b@.len(),
            forall|j: int| 0 <= j < i ==> a@[j] == b@[j],
        decreases a@.len() - i,
    {
        if a[i] != b[i] {
            return false;
        }
        i = i + 1;
    }
    proof {
        assert(a@ =~= b@);
    }
    true
}

/// The field key that names the reviewing user.
pub open spec fn user_key() -> Seq<u8> {
    seq![114u8, 101u8, 118u8, 105u8, 101u8, 119u8, 47u8, 117u8, 115u8, 101u8, 114u8, 73u8, 100u8]
}

/// The field key that names the reviewed product.
pub open spec fn product_key() -> Seq<u8> {
    seq![112u8, 114u8, 111u8, 100u8, 117u8, 99u8, 116u8, 47u8, 112u8, 114u8, 111u8, 100u8, 117u8,
        99u8, 116u8, 73u8, 100u8]
}

/// The bytes of `"review/userId"`.
pub fn user_key_vec() -> (r: Vec<u8>)
    ensures
        r@ == user_key(),
{
    let mut r: Vec<u8> = Vec::new();
    r.push(114);
    r.push(101);
    r.push(118);
    r.push(105);
    r.push(101);
    r.push(119);
    r.push(47);
    r.push(117);
    r.push(115);
    r.push(101);
    r.push(114);
    r.push(73);
    r.push(100);
    proof {
        assert(r@ =~= user_key());
    }
    r
}

/// The bytes of `"product/productId"`.
pub fn product_key_vec() -> (r: Vec<u8>)
    ensures
        r@ == product_key(),
{
    let mut r: Vec<u8> = Vec::new();
    r.push(112);
    r.push(114);
    r.push(111);
    r.push(100);
    r.push(117);
    r.push(99);
    r.push(116);
    r.push(47);
    r.push(112);
    r.push(114);
    r.push(111);
    r.push(100);
    r.push(117);
    r.push(99);
    r.push(116);
    r.push(73);
    r.push(100);
    proof {
        assert(r@ =~= product_key());
    }
    r
}

} // verus!
