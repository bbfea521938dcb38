//! Byte-level helpers shared by the cookie engine: whitespace trimming,
//! byte searches over an immutable buffer, and a subsequence relation used
//! to state what the cookie parser preserves of its input.
use vstd::prelude::*;

verus! {

/// Separator between cookie clauses.
pub const SEMI: u8 = 59;

/// Separator between a cookie name and its value.
pub const EQ: u8 = 61;

/// The two bytes the cookie grammar treats as whitespace.
pub open spec fn is_ws(c: u8) -> bool {
    c == 32 || c == 9
}

/// First index in `[lo, hi)` holding a non-whitespace byte, or `hi` if none.
pub open spec fn ws_lo(s: Seq<u8>, lo: int, hi: int) -> int
    decreases hi - lo,
{
    if lo >= hi {
        hi
    } else if is_ws(s[lo]) {
        ws_lo(s, lo + 1, hi)
    } else {
        lo
    }
}

/// One past the last index in `[lo, hi)` holding a non-whitespace byte, or `lo` if none.
pub open spec fn ws_hi(s: Seq<u8>, lo: int, hi: int) -> int
    decreases hi - lo,
{
    if hi <= lo {
        lo
    } else if is_ws(s[hi - 1]) {
        ws_hi(s, lo, hi - 1)
    } else {
        hi
    }
}

/// The region `[lo, hi)` of `s` with whitespace stripped from both ends.
pub open spec fn trim_seq(s: Seq<u8>, lo: int, hi: int) -> Seq<u8> {
    s.subrange(ws_lo(s, lo, hi), ws_hi(s, ws_lo(s, lo, hi), hi))
}

/// First index at or after `from` where `s` holds `c`.
pub open spec fn find_at(s: Seq<u8>, from: int, c: u8) -> Option<int>
    decreases s.len() - from,
{
    if from < 0 || from >= s.len() {
        None
    } else if s[from] == c {
        Some(from)
    } else {
        find_at(s, from + 1, c)
    }
}

pub proof fn lemma_ws_lo_bounds(s: Seq<u8>, lo: int, hi: int)
    requires
        0 <= lo <= hi <= s.len(),
    ensures
        lo <= ws_lo(s, lo, hi) <= hi,
        forall|j: int| lo <= j < ws_lo(s, lo, hi) ==> is_ws(s[j]),
        ws_lo(s, lo, hi) < hi ==> !is_ws(s[ws_lo(s, lo, hi)]),
    decreases hi - lo,
{
    if lo < hi && is_ws(s[lo]) {
        lemma_ws_lo_bounds(s, lo + 1, hi);
    }
}

pub proof fn lemma_ws_hi_bounds(s: Seq<u8>, lo: int, hi: int)
    requires
        0 <= lo <= hi <= s.len(),
    ensures
        lo <= ws_hi(s, lo, hi) <= hi,
        forall|j: int| ws_hi(s, lo, hi) <= j < hi ==> is_ws(s[j]),
        ws_hi(s, lo, hi) > lo ==> !is_ws(s[ws_hi(s, lo, hi) - 1]),
    decreases hi - lo,
{
    if hi > lo && is_ws(s[hi - 1]) {
        lemma_ws_hi_bounds(s, lo, hi - 1);
    }
}

pub proof fn lemma_find_at_bounds(s: Seq<u8>, from: int, c: u8)
    requires
        0 <= from <= s.len(),
    ensures
        match find_at(s, from, c) {
            Some(i) => from <= i < s.len() && s[i] == c && forall|j: int|
                from <= j < i ==> s[j] != c,
            None => forall|j: int| from <= j < s.len() ==> s[j] != c,
        },
    decreases s.len() - from,
{
    if from < s.len() && s[from] != c {
        lemma_find_at_bounds(s, from + 1, c);
    }
}

/// First index at or after `from` where `s` holds a clause or pair separator.
pub open spec fn find_sep_at(s: Seq<u8>, from: int) -> Option<int>
    decreases s.len() - from,
{
    if from < 0 || from >= s.len() {
        None
    } else if s[from] == SEMI || s[from] == EQ {
        Some(from)
    } else {
        find_sep_at(s, from + 1)
    }
}

pub proof fn lemma_find_sep_at_bounds(s: Seq<u8>, from: int)
    requires
        0 <= from <= s.len(),
    ensures
        match find_sep_at(s, from) {
            Some(i) => from <= i < s.len() && (s[i] == SEMI || s[i] == EQ) && forall|j: int|
                from <= j < i ==> s[j] != SEMI && s[j] != EQ,
            None => forall|j: int| from <= j < s.len() ==> s[j] != SEMI && s[j] != EQ,
        },
    decreases s.len() - from,
{
    if from < s.len() && s[from] != SEMI && s[from] != EQ {
        lemma_find_sep_at_bounds(s, from + 1);
    }
}

/// First clause or pair separator in `data` at or after `from`.
pub fn find_sep_from(data: &[u8], from: usize) -> (r: Option<usize>)
    requires
        from <= data@.len(),
    ensures
        match r {
            Some(i) => Some(i as int) == find_sep_at(data@, from as int),
            None => find_sep_at(data@, from as int) is None,
        },
{
    let mut i: usize = from;
    while i < data.len()
        invariant
            from <= i <= data@.len(),
            find_sep_at(data@, from as int) == find_sep_at(data@, i as int),
        decreases data@.len() - i,
    {
        let c = *vstd::slice::slice_index_get(data, i);
        if c == SEMI || c == EQ {
            return Some(i);
        }
        i = i + 1;
    }
    None
}

/// First non-whitespace index in `[lo, hi)` of `data`, or `hi`.
pub fn ws_lo_exec(data: &[u8], lo: usize, hi: usize) -> (r: usize)
    requires
        lo <= hi <= data@.len(),
    ensures
        r == ws_lo(data@, lo as int, hi as int),
{
    let mut i: usize = lo;
    while i < hi && is_whitespace(*vstd::slice::slice_index_get(data, i))
        invariant
            lo <= i <= hi <= data@.len(),
            ws_lo(data@, lo as int, hi as int) == ws_lo(data@, i as int, hi as int),
        decreases hi - i,
    {
        i = i + 1;
    }
    i
}

/// One past the last non-whitespace index in `[lo, hi)` of `data`, or `lo`.
pub fn ws_hi_exec(data: &[u8], lo: usize, hi: usize) -> (r: usize)
    requires
        lo <= hi <= data@.len(),
    ensures
        r == ws_hi(data@, lo as int, hi as int),
{
    let mut i: usize = hi;
    while i > lo && is_whitespace(*vstd::slice::slice_index_get(data, i - 1))
        invariant
            lo <= i <= hi <= data@.len(),
            ws_hi(data@, lo as int, hi as int) == ws_hi(data@, lo as int, i as int),
        decreases i,
    {
        i = i - 1;
    }
    i
}

/// First occurrence of `target` in `data` at or after `from`.
pub fn find_from(data: &[u8], from: usize, target: u8) -> (r: Option<usize>)
    requires
        from <= data@.len(),
    ensures
        match r {
            Some(i) => Some(i as int) == find_at(data@, from as int, target),
            None => find_at(data@, from as int, target) is None,
        },
{
    let mut i: usize = from;
    while i < data.len()
        invariant
            from <= i <= data@.len(),
            find_at(data@, from as int, target) == find_at(data@, i as int, target),
        decreases data@.len() - i,
    {
        if *vstd::slice::slice_index_get(data, i) == target {
            return Some(i);
        }
        i = i + 1;
    }
    None
}

/// Whether the byte counts as whitespace for cookie parsing.
pub fn is_whitespace(c: u8) -> (r: bool)
    ensures
        r == is_ws(c),
{
    c == 32 || c == 9
}

/// Strips leading whitespace, returning a sub-slice of the input.
pub fn ltrim<'a>(data: &'a [u8]) -> (r: &'a [u8])
    ensures
        r@ == data@.subrange(ws_lo(data@, 0, data@.len() as int), data@.len() as int),
{
    proof {
        lemma_ws_lo_bounds(data@, 0, data@.len() as int);
    }
    let lo = ws_lo_exec(data, 0, data.len());
    vstd::slice::slice_subrange(data, lo, data.len())
}

/// Strips trailing whitespace, returning a sub-slice of the input.
pub fn rtrim<'a>(data: &'a [u8]) -> (r: &'a [u8])
    ensures
        r@ == data@.subrange(0, ws_hi(data@, 0, data@.len() as int)),
{
    proof {
        lemma_ws_hi_bounds(data@, 0, data@.len() as int);
    }
    let hi = ws_hi_exec(data, 0, data.len());
    vstd::slice::slice_subrange(data, 0, hi)
}

/// Strips whitespace from both ends, returning a sub-slice of the input.
pub fn trim<'a>(data: &'a [u8]) -> (r: &'a [u8])
    ensures
        r@ == trim_seq(data@, 0, data@.len() as int),
{
    trim_range(data, 0, data.len())
}

/// Trims the region `[lo, hi)` of `data`, returning a sub-slice of the input.
pub fn trim_range<'a>(data: &'a [u8], lo: usize, hi: usize) -> (r: &'a [u8])
    requires
        lo <= hi <= data@.len(),
    ensures
        r@ == trim_seq(data@, lo as int, hi as int),
{
    proof {
        lemma_ws_lo_bounds(data@, lo as int, hi as int);
    }
    let l = ws_lo_exec(data, lo, hi);
    proof {
        lemma_ws_hi_bounds(data@, l as int, hi as int);
    }
    let h = ws_hi_exec(data, l, hi);
    vstd::slice::slice_subrange(data, l, h)
}

/// Splits at the first occurrence of `sep`, excluding the separator itself.
pub fn split_once<'a>(data: &'a [u8], sep: u8) -> (r: Option<(&'a [u8], &'a [u8])>)
    ensures
        match r {
            Some(p) => {
                &&& find_at(data@, 0, sep) is Some
                &&& p.0@ == data@.subrange(0, find_at(data@, 0, sep).unwrap())
                &&& p.1@ == data@.subrange(
                    find_at(data@, 0, sep).unwrap() + 1,
                    data@.len() as int,
                )
            },
            None => find_at(data@, 0, sep) is None,
        },
{
    proof {
        lemma_find_at_bounds(data@, 0, sep);
    }
    let n = data.len();
    match find_from(data, 0, sep) {
        Some(i) => {
            proof {
                assert(find_at(data@, 0, sep) == Some(i as int));
                assert(i < n);
            }
            Some(
                (
                    vstd::slice::slice_subrange(data, 0, i),
                    vstd::slice::slice_subrange(data, i + 1, n),
                ),
            )
        },
        None => None,
    }
}

/// The empty sub-slice at the end of the input.
pub fn to_end_slice<'a>(data: &'a [u8]) -> (r: &'a [u8])
    ensures
        r@ == Seq::<u8>::empty(),
{
    let n = data.len();
    let r = vstd::slice::slice_subrange(data, n, n);
    proof {
        assert(r@ =~= Seq::<u8>::empty());
    }
    r
}

/// Content equality of two byte slices.
pub fn bytes_eq(a: &[u8], b: &[u8]) -> (r: bool)
    ensures
        r == (a@ == b@),
{
    if a.len() != b.len() {
        proof {
            assert(a@ != b@);
        }
        return false;
    }
    let n = a.len();
    let mut i: usize = 0;
    while i < n
        invariant
            i <= n,
            n == a@.len() == b@.len(),
            forall|j: int| 0 <= j < i ==> a@[j] == b@[j],
        decreases n - i,
    {
        if *vstd::slice::slice_index_get(a, i) != *vstd::slice::slice_index_get(b, i) {
            proof {
                assert(a@[i as int] != b@[i as int]);
            }
            return false;
        }
        i = i + 1;
    }
    proof {
        assert(a@ =~= b@);
    }
    true
}

/// `a` occurs inside `b` in order, though not necessarily contiguously.
pub open spec fn is_subseq(a: Seq<u8>, b: Seq<u8>) -> bool
    decreases b.len(),
{
    if a.len() == 0 {
        true
    } else if b.len() == 0 {
        false
    } else {
        (a[0] == b[0] && is_subseq(a.skip(1), b.skip(1))) || is_subseq(a, b.skip(1))
    }
}

pub proof fn lemma_subseq_refl(a: Seq<u8>)
    ensures
        is_subseq(a, a),
    decreases a.len(),
{
    if a.len() > 0 {
        lemma_subseq_refl(a.skip(1));
    }
}

/// Prepending to the right side preserves the relation.
pub proof fn lemma_subseq_prepend(a: Seq<u8>, b1: Seq<u8>, b2: Seq<u8>)
    requires
        is_subseq(a, b2),
    ensures
        is_subseq(a, b1 + b2),
    decreases b1.len(),
{
    if a.len() == 0 {
    } else if b1.len() == 0 {
        assert(b1 + b2 =~= b2);
    } else {
        lemma_subseq_prepend(a, b1.skip(1), b2);
        assert((b1 + b2).skip(1) =~= b1.skip(1) + b2);
        assert(is_subseq(a, (b1 + b2).skip(1)));
    }
}

/// Concatenation on both sides preserves the relation.
pub proof fn lemma_subseq_concat(a1: Seq<u8>, b1: Seq<u8>, a2: Seq<u8>, b2: Seq<u8>)
    requires
        is_subseq(a1, b1),
        is_subseq(a2, b2),
    ensures
        is_subseq(a1 + a2, b1 + b2),
    decreases b1.len(),
{
    if a1.len() == 0 {
        assert(a1 + a2 =~= a2);
        lemma_subseq_prepend(a2, b1, b2);
    } else if b1.len() == 0 {
    } else {
        if a1[0] == b1[0] && is_subseq(a1.skip(1), b1.skip(1)) {
            lemma_subseq_concat(a1.skip(1), b1.skip(1), a2, b2);
            assert((a1 + a2).skip(1) =~= a1.skip(1) + a2);
            assert((b1 + b2).skip(1) =~= b1.skip(1) + b2);
            assert((a1 + a2)[0] == (b1 + b2)[0]);
            assert(is_subseq((a1 + a2).skip(1), (b1 + b2).skip(1)));
        } else {
            lemma_subseq_concat(a1, b1.skip(1), a2, b2);
            assert((b1 + b2).skip(1) =~= b1.skip(1) + b2);
            assert(is_subseq(a1 + a2, (b1 + b2).skip(1)));
        }
    }
}

/// Extending the right side at its end preserves the relation.
pub proof fn lemma_subseq_extend(a: Seq<u8>, b1: Seq<u8>, b2: Seq<u8>)
    requires
        is_subseq(a, b1),
    ensures
        is_subseq(a, b1 + b2),
{
    lemma_subseq_concat(a, b1, Seq::<u8>::empty(), b2);
    assert(a + Seq::<u8>::empty() =~= a);
}

/// Every contiguous region of a sequence is a subsequence of it.
pub proof fn lemma_subseq_subrange(s: Seq<u8>, lo: int, hi: int)
    requires
        0 <= lo <= hi <= s.len(),
    ensures
        is_subseq(s.subrange(lo, hi), s),
{
    let pre = s.subrange(0, lo);
    let mid = s.subrange(lo, hi);
    let post = s.subrange(hi, s.len() as int);
    lemma_subseq_refl(mid);
    lemma_subseq_prepend(mid, pre, mid);
    lemma_subseq_extend(mid, pre + mid, post);
    assert(pre + mid + post =~= s);
}

} // verus!
