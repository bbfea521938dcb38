//! The cookie engine: decodes `Cookie` headers into name/value pairs and
//! `Set-Cookie` headers into a record with its attributes, without copying
//! out of the header buffer.
use vstd::prelude::*;

use crate::bytes::{
    find_at, find_sep_at, find_from, find_sep_from, is_subseq, is_ws, lemma_find_at_bounds,
    lemma_find_sep_at_bounds, lemma_ws_hi_bounds, lemma_ws_lo_bounds, to_end_slice, trim_range,
    trim_seq, ws_hi, ws_hi_exec, ws_lo, ws_lo_exec, EQ, SEMI,
};

verus! {

/// One decoded `Set-Cookie` header: name, value and attributes, all
/// borrowed from the header buffer.
#[derive(Debug, PartialEq, Hash)]
pub struct SetCookie<'a> {
    pub name: &'a [u8],
    pub value: &'a [u8],
    pub attrs: SetCookieAttributes<'a>,
}

/// The attributes of a `Set-Cookie` header, with `Expires` already
/// normalized into a relative max-age.
#[derive(Debug, PartialEq, Hash, Clone, Copy)]
pub struct SetCookieAttributes<'a> {
    pub max_age: Option<u32>,
    pub domain: &'a [u8],
    pub path: &'a [u8],
    pub same_site: SameSite,
    pub secure: bool,
    pub http_only: bool,
    pub partitioned: bool,
}

/// The `SameSite` cookie attribute.
#[derive(Debug, PartialEq, Hash, Clone, Copy)]
pub enum SameSite {
    Strict,
    Lax,
    NoneValue,
}

/// Mathematical image of a parsed attribute record.
pub ghost struct AttrsModel {
    pub max_age: Option<u32>,
    pub domain: Seq<u8>,
    pub path: Seq<u8>,
    pub same_site: SameSite,
    pub secure: bool,
    pub http_only: bool,
    pub partitioned: bool,
}

impl<'a> View for SetCookieAttributes<'a> {
    type V = AttrsModel;

    open spec fn view(&self) -> AttrsModel {
        AttrsModel {
            max_age: self.max_age,
            domain: self.domain@,
            path: self.path@,
            same_site: self.same_site,
            secure: self.secure,
            http_only: self.http_only,
            partitioned: self.partitioned,
        }
    }
}

/// Mathematical image of a parsed `Set-Cookie` record.
pub ghost struct SetCookieModel {
    pub name: Seq<u8>,
    pub value: Seq<u8>,
    pub attrs: AttrsModel,
}

impl<'a> View for SetCookie<'a> {
    type V = SetCookieModel;

    open spec fn view(&self) -> SetCookieModel {
        SetCookieModel { name: self.name@, value: self.value@, attrs: self.attrs@ }
    }
}

/// The sequence of (name, value) pairs that a `Cookie` header denotes:
/// the header splits at `;` into clauses, a clause splits at its first
/// `=` into a name and a value, both stripped of surrounding
/// whitespace, and a clause without `=` is skipped.
pub open spec fn cookie_pairs(s: Seq<u8>) -> Seq<(Seq<u8>, Seq<u8>)>
    decreases s.len(),
    via cookie_pairs_decreases
{
    let e = match find_at(s, 0, SEMI) {
        Option::Some(j) => j,
        Option::None => s.len() as int,
    };
    let head: Seq<(Seq<u8>, Seq<u8>)> = match find_at(s, 0, EQ) {
        Option::Some(i) => if i < e {
            seq![(trim_seq(s, 0, i), trim_seq(s, i + 1, e))]
        } else {
            Seq::empty()
        },
        Option::None => Seq::empty(),
    };
    if e < s.len() {
        head + cookie_pairs(s.subrange(e + 1, s.len() as int))
    } else {
        head
    }
}

#[via_fn]
proof fn cookie_pairs_decreases(s: Seq<u8>) {
    lemma_find_at_bounds(s, 0, SEMI);
}

/// One step of the clause cursor: the first pair (clauses without `=`
/// skipped) and the bytes left after its clause's `;`, or `None` with
/// nothing left.
pub open spec fn next_model(s: Seq<u8>) -> (Option<(Seq<u8>, Seq<u8>)>, Seq<u8>)
    decreases s.len(),
    via next_model_decreases
{
    let e = match find_at(s, 0, SEMI) {
        Option::Some(j) => j,
        Option::None => s.len() as int,
    };
    let rest: Seq<u8> = if e < s.len() {
        s.subrange(e + 1, s.len() as int)
    } else {
        Seq::empty()
    };
    let has_pair = match find_at(s, 0, EQ) {
        Option::Some(i) => i < e,
        Option::None => false,
    };
    if has_pair {
        let i = find_at(s, 0, EQ).unwrap();
        (Option::Some((trim_seq(s, 0, i), trim_seq(s, i + 1, e))), rest)
    } else if e < s.len() {
        next_model(rest)
    } else {
        (Option::None, Seq::<u8>::empty())
    }
}

#[via_fn]
proof fn next_model_decreases(s: Seq<u8>) {
    lemma_find_at_bounds(s, 0, SEMI);
}

/// The pairs of a header are its first pair followed by the pairs of
/// what the cursor leaves behind.
proof fn lemma_next_pairs(s: Seq<u8>)
    ensures
        ({
            let step = next_model(s);
            cookie_pairs(s) == match step.0 {
                Option::Some(p) => seq![p] + cookie_pairs(step.1),
                Option::None => Seq::<(Seq<u8>, Seq<u8>)>::empty(),
            }
        }),
    decreases s.len(),
{
    lemma_find_at_bounds(s, 0, SEMI);
    lemma_find_at_bounds(s, 0, EQ);
    let e = match find_at(s, 0, SEMI) {
        Option::Some(j) => j,
        Option::None => s.len() as int,
    };
    let has_pair = match find_at(s, 0, EQ) {
        Option::Some(i) => i < e,
        Option::None => false,
    };
    if has_pair {
        if e >= s.len() {
            assert(cookie_pairs(s) == seq![next_model(s).0.unwrap()]);
            assert(cookie_pairs(Seq::<u8>::empty()) =~= Seq::<(Seq<u8>, Seq<u8>)>::empty());
            assert(seq![next_model(s).0.unwrap()] + cookie_pairs(Seq::<u8>::empty())
                =~= seq![next_model(s).0.unwrap()]);
        }
    } else {
        if e < s.len() {
            let rest = s.subrange(e + 1, s.len() as int);
            lemma_next_pairs(rest);
            assert(cookie_pairs(s) =~= cookie_pairs(rest));
        }
    }
}

/// Lazy cursor over the clauses of a `Cookie` header.
pub struct CookieIterator<'a> {
    slice: &'a [u8],
}

/// Builds an iterator over the clauses of an HTTP `Cookie` header.
pub fn read_cookies<'a>(data: &'a [u8]) -> (r: CookieIterator<'a>)
    ensures
        r.rem() == data@,
        r.pairs() == cookie_pairs(data@),
{
    CookieIterator::new(data)
}

impl<'a> CookieIterator<'a> {
    /// The input bytes not consumed yet.
    pub closed spec fn rem(self) -> Seq<u8> {
        self.slice@
    }

    /// The pairs still to be yielded.
    pub open spec fn pairs(self) -> Seq<(Seq<u8>, Seq<u8>)> {
        cookie_pairs(self.rem())
    }

    fn new(slice: &'a [u8]) -> (r: Self)
        ensures
            r.rem() == slice@,
    {
        Self { slice }
    }

    /// The input bytes not consumed yet.
    pub fn remaining(&self) -> (r: &'a [u8])
        ensures
            r@ == self.rem(),
    {
        self.slice
    }

    /// Yields the next (name, value) pair, skipping clauses without `=`,
    /// or `None` when none is left; the cursor lands exactly after the
    /// yielded clause's `;`.
    pub fn next(&mut self) -> (r: Option<(&'a [u8], &'a [u8])>)
        ensures
            ({
                let step = next_model(old(self).rem());
                &&& final(self).rem() == step.1
                &&& (match r {
                    Option::Some(p) => step.0 == Option::Some((p.0@, p.1@)),
                    Option::None => step.0 is None,
                })
            }),
            match r {
                Option::Some(p) => {
                    &&& old(self).pairs().len() > 0
                    &&& p.0@ == old(self).pairs()[0].0
                    &&& p.1@ == old(self).pairs()[0].1
                    &&& final(self).pairs() == old(self).pairs().skip(1)
                    &&& final(self).rem().len() < old(self).rem().len()
                },
                Option::None => {
                    &&& old(self).pairs().len() == 0
                    &&& final(self).rem().len() == 0
                    &&& final(self).pairs().len() == 0
                },
            },
        decreases old(self).rem().len(),
    {
        let s = self.slice;
        let n = s.len();
        proof {
            lemma_find_at_bounds(s@, 0, SEMI);
            lemma_find_at_bounds(s@, 0, EQ);
            lemma_next_pairs(s@);
        }
        let e: usize = match find_from(s, 0, SEMI) {
            Some(j) => j,
            None => n,
        };
        let mut has_pair = false;
        let mut eq_at: usize = 0;
        match find_from(s, 0, EQ) {
            Some(i) => {
                if i < e {
                    has_pair = true;
                    eq_at = i;
                }
            },
            None => {},
        }
        if has_pair {
            let name = trim_range(s, 0, eq_at);
            let value = trim_range(s, eq_at + 1, e);
            if e < n {
                self.slice = vstd::slice::slice_subrange(s, e + 1, n);
            } else {
                self.slice = to_end_slice(s);
            }
            proof {
                assert(cookie_pairs(s@) == seq![(name@, value@)] + cookie_pairs(self.slice@));
                assert(cookie_pairs(s@).skip(1) =~= cookie_pairs(self.slice@));
            }
            Some((name, value))
        } else if e < n {
            self.slice = vstd::slice::slice_subrange(s, e + 1, n);
            proof {
                assert(cookie_pairs(s@) =~= cookie_pairs(self.slice@));
            }
            self.next()
        } else {
            self.slice = to_end_slice(s);
            proof {
                assert(cookie_pairs(s@) =~= Seq::<(Seq<u8>, Seq<u8>)>::empty());
                assert(cookie_pairs(self.slice@) =~= Seq::<(Seq<u8>, Seq<u8>)>::empty());
            }
            None
        }
    }
}

/// The integer the digits of `s` from `from` on denote, continuing the
/// count `acc`.
pub open spec fn digits_val_at(s: Seq<u8>, from: int, acc: int) -> int
    decreases s.len() - from,
{
    if from < 0 || from >= s.len() {
        acc
    } else {
        digits_val_at(s, from + 1, acc * 10 + (s[from] - 48))
    }
}

/// Saturates an unbounded count into a `u32`.
pub open spec fn clamp_u32(v: int) -> u32 {
    if v > u32::MAX {
        u32::MAX
    } else if v < 0 {
        0u32
    } else {
        v as u32
    }
}

/// Every byte of `s` from `from` on is an ASCII digit.
pub open spec fn all_digits_from(s: Seq<u8>, from: int) -> bool
    decreases s.len() - from,
{
    if from < 0 || from >= s.len() {
        true
    } else {
        48 <= s[from] <= 57 && all_digits_from(s, from + 1)
    }
}

proof fn lemma_not_all_digits(s: Seq<u8>, from: int, i: int)
    requires
        0 <= from <= i < s.len(),
        !(48 <= s[i] <= 57),
    ensures
        !all_digits_from(s, from),
    decreases i - from,
{
    if from < i {
        lemma_not_all_digits(s, from + 1, i);
    }
}

proof fn lemma_all_digits(s: Seq<u8>, from: int)
    requires
        0 <= from <= s.len(),
        forall|j: int| from <= j < s.len() ==> 48 <= #[trigger] s[j] <= 57,
    ensures
        all_digits_from(s, from),
    decreases s.len() - from,
{
    if from < s.len() {
        lemma_all_digits(s, from + 1);
    }
}

/// What `parse_max_age` returns: `None` for an empty or non-numeric
/// value, 0 for a negative one, and otherwise the denoted count,
/// saturated at `u32::MAX`.
pub open spec fn max_age_model(s: Seq<u8>) -> Option<u32> {
    if s.len() == 0 {
        Option::None
    } else {
        let neg = s[0] == 45;
        let start: int = if neg {
            1
        } else {
            0
        };
        if s.len() == start {
            Option::None
        } else if !all_digits_from(s, start) {
            Option::None
        } else if neg {
            Option::Some(0u32)
        } else {
            Option::Some(clamp_u32(digits_val_at(s, start, 0)))
        }
    }
}

/// Decodes a `Max-Age` attribute value: digits with an optional sign,
/// negative values clamped to 0, values past `u32::MAX` saturated.
pub fn parse_max_age(max_age: &[u8]) -> (r: Option<u32>)
    ensures
        r == max_age_model(max_age@),
{
    let n = max_age.len();
    if n == 0 {
        return None;
    }
    let neg = *vstd::slice::slice_index_get(max_age, 0) == 45;
    let start: usize = if neg {
        1
    } else {
        0
    };
    if n == start {
        return None;
    }
    let mut delta: u32 = 0;
    let ghost mut v: int = 0;
    let mut i: usize = start;
    while i < n
        invariant
            start <= i <= n,
            0 < n == max_age@.len(),
            neg == (max_age@[0] == 45),
            start == if neg { 1usize } else { 0usize },
            n != start,
            v >= 0,
            forall|j: int| start <= j < i ==> 48 <= #[trigger] max_age@[j] <= 57,
            digits_val_at(max_age@, start as int, 0) == digits_val_at(max_age@, i as int, v),
            delta == clamp_u32(v),
        decreases n - i,
    {
        let c = *vstd::slice::slice_index_get(max_age, i);
        if c < 48 || 57 < c {
            proof {
                lemma_not_all_digits(max_age@, start as int, i as int);
            }
            return None;
        }
        let t: u64 = delta as u64 * 10 + (c - 48) as u64;
        let ghost v0 = v;
        proof {
            v = v0 * 10 + (c - 48);
            if v0 > u32::MAX {
                assert(v > u32::MAX);
            }
        }
        delta = if t > u32::MAX as u64 {
            u32::MAX
        } else {
            t as u32
        };
        i = i + 1;
    }
    proof {
        lemma_all_digits(max_age@, start as int);
    }
    if neg {
        delta = 0;
    }
    Some(delta)
}

/// Relies on chrono's `DateTime::parse_from_rfc2822`: the instant a
/// well-formed RFC 2822 date denotes, in seconds since the Unix epoch,
/// depends on the given bytes alone.
pub uninterp spec fn rfc2822_epoch_of(s: Seq<u8>) -> Option<i64>;

/// Relies on chrono's `DateTime::parse_from_rfc2822` (and its conversion
/// to UTC) to read an `Expires` date into a Unix timestamp.
#[verifier::external_body]
fn rfc2822_epoch(expires: &[u8]) -> (r: Option<i64>)
    ensures
        r == rfc2822_epoch_of(expires@),
{
    let s = core::str::from_utf8(expires).ok()?;
    let date = chrono::DateTime::parse_from_rfc2822(s).ok()?;
    Some(date.with_timezone(&chrono::Utc).timestamp())
}

/// Seconds from `now` until `end_time`: 0 for dates at or before `now`,
/// saturated at `u32::MAX`.
pub open spec fn epoch_to_max_age(end_time: i64, now: u64) -> u32 {
    if end_time <= 0 {
        0u32
    } else if end_time as int <= now as int {
        0u32
    } else if end_time as int - now as int > u32::MAX as int {
        u32::MAX
    } else {
        (end_time as int - now as int) as u32
    }
}

/// What an `Expires` attribute contributes: the seconds left until the
/// parsed date, relative to `now`.
pub open spec fn expires_model(value: Seq<u8>, now: u64) -> Option<u32> {
    match rfc2822_epoch_of(value) {
        Option::Some(t) => Option::Some(epoch_to_max_age(t, now)),
        Option::None => Option::None,
    }
}

/// Turns an absolute expiry timestamp into a relative max-age: dates at
/// or before `timestamp` give 0, larger deltas saturate at `u32::MAX`.
pub fn max_age_from_epoch(end_time: i64, timestamp: u64) -> (r: u32)
    ensures
        r == epoch_to_max_age(end_time, timestamp),
{
    if end_time <= 0 {
        return 0;
    }
    let end = end_time as u64;
    if end <= timestamp {
        return 0;
    }
    let duration = end - timestamp;
    if duration > u32::MAX as u64 {
        u32::MAX
    } else {
        duration as u32
    }
}

/// Decodes an `Expires` attribute into a relative max-age.
fn parse_expires(expires: &[u8], timestamp: u64) -> (r: Option<u32>)
    ensures
        r == expires_model(expires@, timestamp),
{
    match rfc2822_epoch(expires) {
        Some(end_time) => Some(max_age_from_epoch(end_time, timestamp)),
        None => None,
    }
}

/// ASCII upper-casing as the attribute-name lookup table defines it:
/// letters fold to upper case, `-` stays, anything else maps to 0.
pub open spec fn upper_b(c: u8) -> u8 {
    if c == 45 {
        45u8
    } else if 97 <= c <= 122 {
        (c - 32) as u8
    } else if 65 <= c <= 90 {
        c
    } else {
        0u8
    }
}

/// Upper-cases a name of at most 12 bytes; longer names give the empty
/// sequence, which matches no keyword.
pub open spec fn upper12(s: Seq<u8>) -> Seq<u8> {
    if s.len() > 12 {
        Seq::empty()
    } else {
        Seq::new(s.len(), |i: int| upper_b(s[i]))
    }
}

/// The attribute keywords the parser recognizes.
#[derive(Debug, PartialEq)]
pub enum AttrKw {
    MaxAge,
    Expires,
    Domain,
    Path,
    Secure,
    HttpOnly,
    Partitioned,
    SameSite,
    SsNone,
    SsStrict,
    Other,
}

pub open spec fn kw_max_age() -> Seq<u8> {
    seq![77u8, 65, 88, 45, 65, 71, 69]
}

pub open spec fn kw_expires() -> Seq<u8> {
    seq![69u8, 88, 80, 73, 82, 69, 83]
}

pub open spec fn kw_domain() -> Seq<u8> {
    seq![68u8, 79, 77, 65, 73, 78]
}

pub open spec fn kw_path() -> Seq<u8> {
    seq![80u8, 65, 84, 72]
}

pub open spec fn kw_secure() -> Seq<u8> {
    seq![83u8, 69, 67, 85, 82, 69]
}

pub open spec fn kw_http_only() -> Seq<u8> {
    seq![72u8, 84, 84, 80, 79, 78, 76, 89]
}

pub open spec fn kw_partitioned() -> Seq<u8> {
    seq![80u8, 65, 82, 84, 73, 84, 73, 79, 78, 69, 68]
}

pub open spec fn kw_same_site() -> Seq<u8> {
    seq![83u8, 65, 77, 69, 83, 73, 84, 69]
}

pub open spec fn kw_ss_none() -> Seq<u8> {
    seq![78u8, 79, 78, 69]
}

pub open spec fn kw_ss_strict() -> Seq<u8> {
    seq![83u8, 84, 82, 73, 67, 84]
}

/// Which keyword an upper-cased name denotes.
pub open spec fn spec_classify(u: Seq<u8>) -> AttrKw {
    if u == kw_max_age() {
        AttrKw::MaxAge
    } else if u == kw_expires() {
        AttrKw::Expires
    } else if u == kw_domain() {
        AttrKw::Domain
    } else if u == kw_path() {
        AttrKw::Path
    } else if u == kw_secure() {
        AttrKw::Secure
    } else if u == kw_http_only() {
        AttrKw::HttpOnly
    } else if u == kw_partitioned() {
        AttrKw::Partitioned
    } else if u == kw_same_site() {
        AttrKw::SameSite
    } else if u == kw_ss_none() {
        AttrKw::SsNone
    } else if u == kw_ss_strict() {
        AttrKw::SsStrict
    } else {
        AttrKw::Other
    }
}

/// Upper-cases one byte as the lookup table does.
fn upper_byte(c: u8) -> (r: u8)
    ensures
        r == upper_b(c),
{
    if c == 45 {
        45
    } else if 97 <= c && c <= 122 {
        c - 32
    } else if 65 <= c && c <= 90 {
        c
    } else {
        0
    }
}

/// Classifies an attribute name (or `SameSite` value), case-insensitively.
fn classify_kw(name: &[u8]) -> (k: AttrKw)
    ensures
        k == spec_classify(upper12(name@)),
{
    let n = name.len();
    if n > 12 {
        proof {
            assert(upper12(name@) =~= Seq::<u8>::empty());
            assert(upper12(name@).len() == 0);
        }
        return AttrKw::Other;
    }
    let ghost u = upper12(name@);
    proof {
        assert(u.len() == n);
    }
    if n == 4 {
        let b0 = upper_byte(*vstd::slice::slice_index_get(name, 0));
        let b1 = upper_byte(*vstd::slice::slice_index_get(name, 1));
        let b2 = upper_byte(*vstd::slice::slice_index_get(name, 2));
        let b3 = upper_byte(*vstd::slice::slice_index_get(name, 3));
        if b0 == 80 && b1 == 65 && b2 == 84 && b3 == 72 {
            proof {
                assert(u =~= kw_path());
            }
            AttrKw::Path
        } else if b0 == 78 && b1 == 79 && b2 == 78 && b3 == 69 {
            proof {
                assert(u =~= kw_ss_none());
            }
            AttrKw::SsNone
        } else {
            AttrKw::Other
        }
    } else if n == 6 {
        let b0 = upper_byte(*vstd::slice::slice_index_get(name, 0));
        let b1 = upper_byte(*vstd::slice::slice_index_get(name, 1));
        let b2 = upper_byte(*vstd::slice::slice_index_get(name, 2));
        let b3 = upper_byte(*vstd::slice::slice_index_get(name, 3));
        let b4 = upper_byte(*vstd::slice::slice_index_get(name, 4));
        let b5 = upper_byte(*vstd::slice::slice_index_get(name, 5));
        if b0 == 68 && b1 == 79 && b2 == 77 && b3 == 65 && b4 == 73 && b5 == 78 {
            proof {
                assert(u =~= kw_domain());
            }
            AttrKw::Domain
        } else if b0 == 83 && b1 == 69 && b2 == 67 && b3 == 85 && b4 == 82 && b5 == 69 {
            proof {
                assert(u =~= kw_secure());
            }
            AttrKw::Secure
        } else if b0 == 83 && b1 == 84 && b2 == 82 && b3 == 73 && b4 == 67 && b5 == 84 {
            proof {
                assert(u =~= kw_ss_strict());
            }
            AttrKw::SsStrict
        } else {
            AttrKw::Other
        }
    } else if n == 7 {
        let b0 = upper_byte(*vstd::slice::slice_index_get(name, 0));
        let b1 = upper_byte(*vstd::slice::slice_index_get(name, 1));
        let b2 = upper_byte(*vstd::slice::slice_index_get(name, 2));
        let b3 = upper_byte(*vstd::slice::slice_index_get(name, 3));
        let b4 = upper_byte(*vstd::slice::slice_index_get(name, 4));
        let b5 = upper_byte(*vstd::slice::slice_index_get(name, 5));
        let b6 = upper_byte(*vstd::slice::slice_index_get(name, 6));
        if b0 == 77 && b1 == 65 && b2 == 88 && b3 == 45 && b4 == 65 && b5 == 71 && b6 == 69 {
            proof {
                assert(u =~= kw_max_age());
            }
            AttrKw::MaxAge
        } else if b0 == 69 && b1 == 88 && b2 == 80 && b3 == 73 && b4 == 82 && b5 == 69 && b6 == 83 {
            proof {
                assert(u =~= kw_expires());
            }
            AttrKw::Expires
        } else {
            AttrKw::Other
        }
    } else if n == 8 {
        let b0 = upper_byte(*vstd::slice::slice_index_get(name, 0));
        let b1 = upper_byte(*vstd::slice::slice_index_get(name, 1));
        let b2 = upper_byte(*vstd::slice::slice_index_get(name, 2));
        let b3 = upper_byte(*vstd::slice::slice_index_get(name, 3));
        let b4 = upper_byte(*vstd::slice::slice_index_get(name, 4));
        let b5 = upper_byte(*vstd::slice::slice_index_get(name, 5));
        let b6 = upper_byte(*vstd::slice::slice_index_get(name, 6));
        let b7 = upper_byte(*vstd::slice::slice_index_get(name, 7));
        if b0 == 72 && b1 == 84 && b2 == 84 && b3 == 80 && b4 == 79 && b5 == 78 && b6 == 76 && b7
            == 89 {
            proof {
                assert(u =~= kw_http_only());
            }
            AttrKw::HttpOnly
        } else if b0 == 83 && b1 == 65 && b2 == 77 && b3 == 69 && b4 == 83 && b5 == 73 && b6 == 84
            && b7 == 69 {
            proof {
                assert(u =~= kw_same_site());
            }
            AttrKw::SameSite
        } else {
            AttrKw::Other
        }
    } else if n == 11 {
        let b0 = upper_byte(*vstd::slice::slice_index_get(name, 0));
        let b1 = upper_byte(*vstd::slice::slice_index_get(name, 1));
        let b2 = upper_byte(*vstd::slice::slice_index_get(name, 2));
        let b3 = upper_byte(*vstd::slice::slice_index_get(name, 3));
        let b4 = upper_byte(*vstd::slice::slice_index_get(name, 4));
        let b5 = upper_byte(*vstd::slice::slice_index_get(name, 5));
        let b6 = upper_byte(*vstd::slice::slice_index_get(name, 6));
        let b7 = upper_byte(*vstd::slice::slice_index_get(name, 7));
        let b8 = upper_byte(*vstd::slice::slice_index_get(name, 8));
        let b9 = upper_byte(*vstd::slice::slice_index_get(name, 9));
        let b10 = upper_byte(*vstd::slice::slice_index_get(name, 10));
        if b0 == 80 && b1 == 65 && b2 == 82 && b3 == 84 && b4 == 73 && b5 == 84 && b6 == 73 && b7
            == 79 && b8 == 78 && b9 == 69 && b10 == 68 {
            proof {
                assert(u =~= kw_partitioned());
            }
            AttrKw::Partitioned
        } else {
            AttrKw::Other
        }
    } else {
        AttrKw::Other
    }
}

/// Fold state of attribute parsing: the record built so far, and whether
/// a valid `Max-Age` has fixed the expiry.
pub ghost struct AttrsFold {
    pub attrs: AttrsModel,
    pub has_max_age: bool,
}

impl<'a> Default for SetCookieAttributes<'a> {
    /// The attribute record before any attribute applies.
    fn default() -> (r: SetCookieAttributes<'a>)
        ensures
            r@ == default_attrs_model(),
    {
        let empty: &[u8] = &[];
        let r = SetCookieAttributes {
            max_age: None,
            domain: empty,
            path: empty,
            same_site: SameSite::Lax,
            secure: false,
            http_only: false,
            partitioned: false,
        };
        proof {
            assert(r@.domain =~= Seq::<u8>::empty());
            assert(r@.path =~= Seq::<u8>::empty());
        }
        r
    }
}

/// The attribute record before any attribute applies.
pub open spec fn default_attrs_model() -> AttrsModel {
    AttrsModel {
        max_age: Option::None,
        domain: Seq::empty(),
        path: Seq::empty(),
        same_site: SameSite::Lax,
        secure: false,
        http_only: false,
        partitioned: false,
    }
}

/// Applies one `name=value` attribute to the fold state.
pub open spec fn apply_attr(name: Seq<u8>, value: Seq<u8>, st: AttrsFold, now: u64) -> AttrsFold {
    match spec_classify(upper12(name)) {
        AttrKw::MaxAge => match max_age_model(value) {
            Option::Some(v) => AttrsFold {
                attrs: AttrsModel { max_age: Option::Some(v), ..st.attrs },
                has_max_age: true,
            },
            Option::None => st,
        },
        AttrKw::Expires => if !st.has_max_age {
            match expires_model(value, now) {
                Option::Some(v) => AttrsFold {
                    attrs: AttrsModel { max_age: Option::Some(v), ..st.attrs },
                    ..st
                },
                Option::None => st,
            }
        } else {
            st
        },
        AttrKw::Domain => if value.len() == 0 {
            st
        } else if value[0] == 46 {
            AttrsFold { attrs: AttrsModel { domain: value.skip(1), ..st.attrs }, ..st }
        } else {
            AttrsFold { attrs: AttrsModel { domain: value, ..st.attrs }, ..st }
        },
        AttrKw::Path => if value.len() > 0 && value[0] == 47 {
            AttrsFold { attrs: AttrsModel { path: value, ..st.attrs }, ..st }
        } else {
            st
        },
        AttrKw::Secure => AttrsFold { attrs: AttrsModel { secure: true, ..st.attrs }, ..st },
        AttrKw::HttpOnly => AttrsFold { attrs: AttrsModel { http_only: true, ..st.attrs }, ..st },
        AttrKw::Partitioned => AttrsFold {
            attrs: AttrsModel { partitioned: true, ..st.attrs },
            ..st
        },
        AttrKw::SameSite => {
            let v = upper12(value);
            let ss = if v == kw_ss_none() {
                SameSite::NoneValue
            } else if v == kw_ss_strict() {
                SameSite::Strict
            } else {
                SameSite::Lax
            };
            AttrsFold { attrs: AttrsModel { same_site: ss, ..st.attrs }, ..st }
        },
        _ => st,
    }
}

/// Processes the part `[pos, e)` of the attribute bytes; the second
/// component reports the unterminated-quote abort.
pub open spec fn attrs_step(s: Seq<u8>, pos: int, e: int, st: AttrsFold, now: u64) -> (
    AttrsFold,
    bool,
) {
    let tlo = ws_lo(s, pos, e);
    let thi = ws_hi(s, tlo, e);
    let eqj = find_at(s, tlo, EQ);
    if eqj is Some && eqj.unwrap() < thi {
        let j = eqj.unwrap();
        let vlo = ws_lo(s, j + 1, thi);
        let name = s.subrange(tlo, ws_hi(s, tlo, j));
        if vlo < thi && s[vlo] == 34 {
            if thi - vlo >= 2 && s[thi - 1] == 34 {
                let value = s.subrange(ws_lo(s, vlo + 1, thi - 1), thi - 1);
                (apply_attr(name, value, st, now), false)
            } else {
                (st, true)
            }
        } else {
            let value = s.subrange(vlo, thi);
            (apply_attr(name, value, st, now), false)
        }
    } else {
        let name = s.subrange(tlo, thi);
        (apply_attr(name, Seq::empty(), st, now), false)
    }
}

/// Folds the `;`-separated parts of the attribute bytes from `pos` on.
pub open spec fn attrs_from(s: Seq<u8>, now: u64, pos: int, st: AttrsFold) -> AttrsFold
    decreases s.len() - pos,
    via attrs_from_decreases
{
    let e = match find_at(s, pos, SEMI) {
        Option::Some(j) => j,
        Option::None => s.len() as int,
    };
    let step = attrs_step(s, pos, e, st, now);
    if step.1 {
        step.0
    } else if e < s.len() {
        attrs_from(s, now, e + 1, step.0)
    } else {
        step.0
    }
}

#[via_fn]
proof fn attrs_from_decreases(s: Seq<u8>, now: u64, pos: int, st: AttrsFold) {
    lemma_find_at_bounds(s, if pos < 0 {
        0
    } else if pos > s.len() {
        s.len() as int
    } else {
        pos
    }, SEMI);
}

/// What `parse_set_cookie_attribute` returns for the attribute bytes.
pub open spec fn attrs_model(s: Seq<u8>, now: u64) -> AttrsModel {
    attrs_from(
        s,
        now,
        0,
        AttrsFold { attrs: default_attrs_model(), has_max_age: false },
    ).attrs
}

/// Applies one recognized attribute to the record being built.
#[verifier::rlimit(60)]
fn apply_named<'a>(
    name_sl: &'a [u8],
    value_sl: &'a [u8],
    st: SetCookieAttributes<'a>,
    has_max_age: bool,
    timestamp: u64,
) -> (r: (SetCookieAttributes<'a>, bool))
    ensures
        (AttrsFold { attrs: r.0@, has_max_age: r.1 } == apply_attr(
            name_sl@,
            value_sl@,
            AttrsFold { attrs: st@, has_max_age },
            timestamp,
        )),
{
    let mut attrs = st;
    let mut has_ma = has_max_age;
    match classify_kw(name_sl) {
        AttrKw::MaxAge => {
            match parse_max_age(value_sl) {
                Some(v) => {
                    has_ma = true;
                    attrs.max_age = Some(v);
                },
                None => {},
            }
        },
        AttrKw::Expires => {
            if !has_ma {
                match parse_expires(value_sl, timestamp) {
                    Some(v) => {
                        attrs.max_age = Some(v);
                    },
                    None => {},
                }
            }
        },
        AttrKw::Domain => {
            if value_sl.len() > 0 {
                if *vstd::slice::slice_index_get(value_sl, 0) == 46 {
                    attrs.domain = vstd::slice::slice_subrange(value_sl, 1, value_sl.len());
                    proof {
                        assert(attrs.domain@ =~= value_sl@.skip(1));
                    }
                } else {
                    attrs.domain = value_sl;
                }
            }
        },
        AttrKw::Path => {
            if value_sl.len() > 0 && *vstd::slice::slice_index_get(value_sl, 0) == 47 {
                attrs.path = value_sl;
            }
        },
        AttrKw::Secure => {
            attrs.secure = true;
        },
        AttrKw::HttpOnly => {
            attrs.http_only = true;
        },
        AttrKw::Partitioned => {
            attrs.partitioned = true;
        },
        AttrKw::SameSite => {
            attrs.same_site = match classify_kw(value_sl) {
                AttrKw::SsNone => SameSite::NoneValue,
                AttrKw::SsStrict => SameSite::Strict,
                _ => SameSite::Lax,
            };
        },
        _ => {},
    }
    (attrs, has_ma)
}

/// Processes the part `[pos, e)` of the attribute bytes; the last
/// component reports the unterminated-quote abort.
#[verifier::rlimit(60)]
fn attr_part<'a>(
    data: &'a [u8],
    pos: usize,
    e: usize,
    st: SetCookieAttributes<'a>,
    has_max_age: bool,
    timestamp: u64,
) -> (r: (SetCookieAttributes<'a>, bool, bool))
    requires
        pos <= e <= data@.len(),
    ensures
        ({
            let step = attrs_step(
                data@,
                pos as int,
                e as int,
                AttrsFold { attrs: st@, has_max_age },
                timestamp,
            );
            &&& (AttrsFold { attrs: r.0@, has_max_age: r.1 } == step.0)
            &&& r.2 == step.1
        }),
{
    proof {
        lemma_ws_lo_bounds(data@, pos as int, e as int);
    }
    let tlo = ws_lo_exec(data, pos, e);
    proof {
        lemma_ws_hi_bounds(data@, tlo as int, e as int);
    }
    let thi = ws_hi_exec(data, tlo, e);
    proof {
        lemma_find_at_bounds(data@, tlo as int, EQ);
    }
    match find_from(data, tlo, EQ) {
        Some(j) => {
            if j < thi {
                proof {
                    lemma_ws_lo_bounds(data@, j + 1, thi as int);
                }
                let vlo = ws_lo_exec(data, j + 1, thi);
                proof {
                    lemma_ws_hi_bounds(data@, tlo as int, j as int);
                }
                let nh = ws_hi_exec(data, tlo, j);
                let name_sl = vstd::slice::slice_subrange(data, tlo, nh);
                if vlo < thi && *vstd::slice::slice_index_get(data, vlo) == 34 {
                    if thi - vlo >= 2 && *vstd::slice::slice_index_get(data, thi - 1) == 34 {
                        proof {
                            lemma_ws_lo_bounds(data@, vlo + 1, thi as int - 1);
                        }
                        let qlo = ws_lo_exec(data, vlo + 1, thi - 1);
                        let value_sl = vstd::slice::slice_subrange(data, qlo, thi - 1);
                        let (attrs, has) = apply_named(name_sl, value_sl, st, has_max_age, timestamp);
                        (attrs, has, false)
                    } else {
                        (st, has_max_age, true)
                    }
                } else {
                    let value_sl = vstd::slice::slice_subrange(data, vlo, thi);
                    let (attrs, has) = apply_named(name_sl, value_sl, st, has_max_age, timestamp);
                    (attrs, has, false)
                }
            } else {
                let name_sl = vstd::slice::slice_subrange(data, tlo, thi);
                let value_sl = to_end_slice(data);
                let (attrs, has) = apply_named(name_sl, value_sl, st, has_max_age, timestamp);
                (attrs, has, false)
            }
        },
        None => {
            let name_sl = vstd::slice::slice_subrange(data, tlo, thi);
            let value_sl = to_end_slice(data);
            let (attrs, has) = apply_named(name_sl, value_sl, st, has_max_age, timestamp);
            (attrs, has, false)
        },
    }
}

/// Decodes the attribute bytes of a `Set-Cookie` header: parts are split
/// at `;`, names match case-insensitively, a later occurrence overrides
/// an earlier one, and an unterminated opening quote ends parsing.
pub fn parse_set_cookie_attribute<'a>(data: &'a [u8], timestamp: u64) -> (r: SetCookieAttributes<
    'a,
>)
    ensures
        r@ == attrs_model(data@, timestamp),
{
    let n = data.len();
    let mut attrs = SetCookieAttributes {
        max_age: None,
        domain: to_end_slice(data),
        path: to_end_slice(data),
        same_site: SameSite::Lax,
        secure: false,
        http_only: false,
        partitioned: false,
    };
    let mut has_max_age = false;
    let mut pos: usize = 0;
    let mut done = false;
    proof {
        assert(attrs@ =~= default_attrs_model());
    }
    while !done
        invariant
            pos <= n,
            n == data@.len(),
            attrs_from(
                data@,
                timestamp,
                0,
                AttrsFold { attrs: default_attrs_model(), has_max_age: false },
            ) == if done {
                AttrsFold { attrs: attrs@, has_max_age }
            } else {
                attrs_from(
                    data@,
                    timestamp,
                    pos as int,
                    AttrsFold { attrs: attrs@, has_max_age },
                )
            },
        decreases n - pos + (if done {
            0int
        } else {
            1int
        }),
    {
        let ghost cur = AttrsFold { attrs: attrs@, has_max_age };
        proof {
            lemma_find_at_bounds(data@, pos as int, SEMI);
        }
        let e: usize = match find_from(data, pos, SEMI) {
            Some(j) => j,
            None => n,
        };
        let (new_attrs, new_has, abort) = attr_part(data, pos, e, attrs, has_max_age, timestamp);
        proof {
            assert(attrs_from(data@, timestamp, pos as int, cur) == (if abort {
                cur
            } else if (e as int) < data@.len() {
                attrs_from(
                    data@,
                    timestamp,
                    e + 1,
                    AttrsFold { attrs: new_attrs@, has_max_age: new_has },
                )
            } else {
                AttrsFold { attrs: new_attrs@, has_max_age: new_has }
            }));
        }
        if abort {
            done = true;
        } else {
            attrs = new_attrs;
            has_max_age = new_has;
            if e < n {
                pos = e + 1;
            } else {
                done = true;
            }
        }
    }
    attrs
}

/// Where the cookie name ends: the ltrimmed, rtrimmed bytes before the
/// first `=`, refused when a `;` comes first or the name is empty; the
/// index returned points just past the `=`.
pub open spec fn name_split(s: Seq<u8>) -> Option<(Seq<u8>, int)> {
    let l0 = ws_lo(s, 0, s.len() as int);
    match find_sep_at(s, l0) {
        Option::Some(i) => if s[i] == EQ {
            let nh = ws_hi(s, l0, i);
            if nh > l0 {
                Option::Some((s.subrange(l0, nh), i + 1))
            } else {
                Option::None
            }
        } else {
            Option::None
        },
        Option::None => Option::None,
    }
}

/// The cookie value (trimmed) and the remaining attribute bytes.
pub open spec fn value_split(s: Seq<u8>) -> (Seq<u8>, Seq<u8>) {
    let l0 = ws_lo(s, 0, s.len() as int);
    match find_at(s, l0, SEMI) {
        Option::Some(j) => (s.subrange(l0, ws_hi(s, l0, j)), s.subrange(j + 1, s.len() as int)),
        Option::None => (s.subrange(l0, ws_hi(s, l0, s.len() as int)), Seq::<u8>::empty()),
    }
}

/// What `parse_set_cookie` returns: `None` only when no name can be
/// found at all.
pub open spec fn set_cookie_model(s: Seq<u8>, now: u64) -> Option<SetCookieModel> {
    match name_split(s) {
        Option::Some(ns) => {
            let rest = s.subrange(ns.1, s.len() as int);
            let vs = value_split(rest);
            Option::Some(
                SetCookieModel { name: ns.0, value: vs.0, attrs: attrs_model(vs.1, now) },
            )
        },
        Option::None => Option::None,
    }
}

impl<'a> SetCookie<'a> {
    fn parse_name(data: &'a [u8]) -> (r: Option<(&'a [u8], &'a [u8])>)
        ensures
            match r {
                Option::Some(p) => {
                    &&& name_split(data@) is Some
                    &&& p.0@ == name_split(data@).unwrap().0
                    &&& p.1@ == data@.subrange(name_split(data@).unwrap().1, data@.len() as int)
                },
                Option::None => name_split(data@) is None,
            },
    {
        let n = data.len();
        let l0 = ws_lo_exec(data, 0, n);
        proof {
            lemma_ws_lo_bounds(data@, 0, n as int);
            lemma_find_sep_at_bounds(data@, l0 as int);
        }
        match find_sep_from(data, l0) {
            Some(i) => {
                if *vstd::slice::slice_index_get(data, i) == EQ {
                    proof {
                        lemma_ws_hi_bounds(data@, l0 as int, i as int);
                    }
                    let nh = ws_hi_exec(data, l0, i);
                    if nh > l0 {
                        Some(
                            (
                                vstd::slice::slice_subrange(data, l0, nh),
                                vstd::slice::slice_subrange(data, i + 1, n),
                            ),
                        )
                    } else {
                        None
                    }
                } else {
                    None
                }
            },
            None => None,
        }
    }

    fn parse_value(data: &'a [u8]) -> (r: Option<(&'a [u8], &'a [u8])>)
        ensures
            r is Some,
            r.unwrap().0@ == value_split(data@).0,
            r.unwrap().1@ == value_split(data@).1,
    {
        let n = data.len();
        let l0 = ws_lo_exec(data, 0, n);
        proof {
            lemma_ws_lo_bounds(data@, 0, n as int);
            lemma_find_at_bounds(data@, l0 as int, SEMI);
        }
        match find_from(data, l0, SEMI) {
            Some(j) => {
                proof {
                    lemma_ws_hi_bounds(data@, l0 as int, j as int);
                }
                let vh = ws_hi_exec(data, l0, j);
                Some(
                    (
                        vstd::slice::slice_subrange(data, l0, vh),
                        vstd::slice::slice_subrange(data, j + 1, n),
                    ),
                )
            },
            None => {
                proof {
                    lemma_ws_hi_bounds(data@, l0 as int, n as int);
                }
                let vh = ws_hi_exec(data, l0, n);
                Some((vstd::slice::slice_subrange(data, l0, vh), to_end_slice(data)))
            },
        }
    }
}

/// Decodes one `Set-Cookie` header; `None` only when no `name=` can be
/// located at all.
pub fn parse_set_cookie<'a>(data: &'a [u8], timestamp: u64) -> (r: Option<SetCookie<'a>>)
    ensures
        match r {
            Option::Some(c) => set_cookie_model(data@, timestamp) == Option::Some(c@),
            Option::None => set_cookie_model(data@, timestamp) is None,
        },
{
    match SetCookie::parse_name(data) {
        Some((name, rest)) => {
            // the value parser always yields a split
            let (value, attrs_data) = SetCookie::parse_value(rest).unwrap();
            let attrs = parse_set_cookie_attribute(attrs_data, timestamp);
            Some(SetCookie { name, value, attrs })
        },
        None => None,
    }
}

/// Joins decoded pairs back together: `name=value` clauses with a `;`
/// between consecutive clauses.
pub open spec fn joined(ps: Seq<(Seq<u8>, Seq<u8>)>) -> Seq<u8>
    decreases ps.len(),
{
    if ps.len() == 0 {
        Seq::empty()
    } else if ps.len() == 1 {
        ps[0].0 + seq![EQ] + ps[0].1
    } else {
        ps[0].0 + seq![EQ] + ps[0].1 + seq![SEMI] + joined(ps.skip(1))
    }
}

/// A sequence with no whitespace at either edge.
pub open spec fn no_edge_ws(x: Seq<u8>) -> bool {
    x.len() > 0 ==> !is_ws(x[0]) && !is_ws(x[x.len() - 1])
}

/// What the `Cookie` parser preserves of its input, for every byte
/// string: the decoded pairs, joined back with their separators, occur
/// in the input in order, and each decoded name and value carries no
/// whitespace at its edges. The parser itself is verified, so it cannot
/// panic on any input.
pub proof fn lemma_cookie_pairs_subsequence(s: Seq<u8>)
    ensures
        crate::bytes::is_subseq(joined(cookie_pairs(s)), s),
        forall|k: int| 0 <= k < cookie_pairs(s).len() ==> no_edge_ws(
            #[trigger] cookie_pairs(s)[k].0,
        ) && no_edge_ws(cookie_pairs(s)[k].1),
    decreases s.len(),
{
    lemma_find_at_bounds(s, 0, SEMI);
    lemma_find_at_bounds(s, 0, EQ);
    let e = match find_at(s, 0, SEMI) {
        Option::Some(j) => j,
        Option::None => s.len() as int,
    };
    let has_pair = match find_at(s, 0, EQ) {
        Option::Some(i) => i < e,
        Option::None => false,
    };
    let ps = cookie_pairs(s);
    if has_pair {
        let i = find_at(s, 0, EQ).unwrap();
        let name = trim_seq(s, 0, i);
        let value = trim_seq(s, i + 1, e);
        let a = s.subrange(0, i);
        let eqs = seq![EQ];
        let b = s.subrange(i + 1, e);
        lemma_ws_lo_bounds(s, 0, i);
        lemma_ws_hi_bounds(s, ws_lo(s, 0, i), i);
        lemma_ws_lo_bounds(s, i + 1, e);
        lemma_ws_hi_bounds(s, ws_lo(s, i + 1, e), e);
        lemma_trim_sub(s, 0, i);
        lemma_trim_sub(s, i + 1, e);
        crate::bytes::lemma_subseq_refl(eqs);
        crate::bytes::lemma_subseq_concat(name, a, eqs, eqs);
        crate::bytes::lemma_subseq_concat(name + eqs, a + eqs, value, b);
        assert(s[i] == EQ);
        if e < s.len() {
            let c = seq![SEMI];
            let rest = s.subrange(e + 1, s.len() as int);
            crate::bytes::lemma_subseq_refl(c);
            lemma_cookie_pairs_subsequence(rest);
            let rps = cookie_pairs(rest);
            assert(ps == seq![(name, value)] + rps);
            assert(ps.skip(1) =~= rps);
            assert(ps[0].0 == name && ps[0].1 == value);
            assert(s[e] == SEMI);
            if rps.len() == 0 {
                assert(joined(ps) == name + eqs + value);
                crate::bytes::lemma_subseq_extend(name + eqs + value, a + eqs + b, c + rest);
                assert(a + eqs + b + (c + rest) =~= s);
                assert(is_subseq(joined(ps), s));
            } else {
                crate::bytes::lemma_subseq_concat(name + eqs + value, a + eqs + b, c, c);
                crate::bytes::lemma_subseq_concat(
                    name + eqs + value + c,
                    a + eqs + b + c,
                    joined(rps),
                    rest,
                );
                assert(joined(ps) == ps[0].0 + seq![EQ] + ps[0].1 + seq![SEMI] + joined(
                    ps.skip(1),
                ));
                assert(joined(ps) =~= name + eqs + value + c + joined(rps));
                assert(a + eqs + b + c + rest =~= s);
                assert(is_subseq(joined(ps), s));
            }
            assert forall|k: int| 0 <= k < ps.len() implies no_edge_ws(#[trigger] ps[k].0)
                && no_edge_ws(ps[k].1) by {
                if k > 0 {
                    assert(ps[k] == rps[k - 1]);
                }
            }
        } else {
            assert(ps =~= seq![(name, value)]);
            assert(joined(ps) == name + eqs + value);
            assert(a + eqs + b =~= s);
            assert(is_subseq(joined(ps), s));
        }
    } else {
        if e < s.len() {
            let rest = s.subrange(e + 1, s.len() as int);
            lemma_cookie_pairs_subsequence(rest);
            let rps = cookie_pairs(rest);
            assert(ps =~= rps);
            crate::bytes::lemma_subseq_prepend(
                joined(ps),
                s.subrange(0, e + 1),
                rest,
            );
            assert(s.subrange(0, e + 1) + rest =~= s);
            assert(is_subseq(joined(ps), s));
            assert forall|k: int| 0 <= k < ps.len() implies no_edge_ws(#[trigger] ps[k].0)
                && no_edge_ws(ps[k].1) by {
                assert(ps[k] == rps[k]);
            }
        } else {
            assert(ps =~= Seq::<(Seq<u8>, Seq<u8>)>::empty());
        }
    }
}

/// The trimmed region `[lo, hi)` occurs inside its region, hence inside
/// the whole sequence, and has no whitespace at its edges.
proof fn lemma_trim_sub(s: Seq<u8>, lo: int, hi: int)
    requires
        0 <= lo <= hi <= s.len(),
    ensures
        is_subseq(trim_seq(s, lo, hi), s.subrange(lo, hi)),
        no_edge_ws(trim_seq(s, lo, hi)),
{
    let l = ws_lo(s, lo, hi);
    lemma_ws_lo_bounds(s, lo, hi);
    let h = ws_hi(s, l, hi);
    lemma_ws_hi_bounds(s, l, hi);
    let t = trim_seq(s, lo, hi);
    assert(t =~= s.subrange(lo, hi).subrange(l - lo, h - lo));
    crate::bytes::lemma_subseq_subrange(s.subrange(lo, hi), l - lo, h - lo);
    if t.len() > 0 {
        assert(t[0] == s[l]);
        assert(t[t.len() - 1] == s[h - 1]);
    }
}


/// The attribute fold gives the same expiry relation under any two
/// reference timestamps, as long as a `Max-Age` fixed it.
proof fn lemma_attrs_step_ts(
    s: Seq<u8>,
    pos: int,
    e: int,
    t1: u64,
    t2: u64,
    st1: AttrsFold,
    st2: AttrsFold,
)
    requires
        st1.has_max_age == st2.has_max_age,
        st1.has_max_age ==> st1.attrs.max_age == st2.attrs.max_age,
    ensures
        ({
            let step1 = attrs_step(s, pos, e, st1, t1);
            let step2 = attrs_step(s, pos, e, st2, t2);
            &&& step1.1 == step2.1
            &&& step1.0.has_max_age == step2.0.has_max_age
            &&& (step1.0.has_max_age ==> step1.0.attrs.max_age == step2.0.attrs.max_age)
        }),
{
}

#[verifier::rlimit(100)]
proof fn lemma_attrs_from_ts(s: Seq<u8>, t1: u64, t2: u64, pos: int, st1: AttrsFold, st2: AttrsFold)
    requires
        st1.has_max_age == st2.has_max_age,
        st1.has_max_age ==> st1.attrs.max_age == st2.attrs.max_age,
    ensures
        ({
            let r1 = attrs_from(s, t1, pos, st1);
            let r2 = attrs_from(s, t2, pos, st2);
            &&& r1.has_max_age == r2.has_max_age
            &&& (r1.has_max_age ==> r1.attrs.max_age == r2.attrs.max_age)
        }),
    decreases s.len() - pos,
{
    let e = match find_at(s, pos, SEMI) {
        Option::Some(j) => j,
        Option::None => s.len() as int,
    };
    if 0 <= pos <= s.len() {
        lemma_find_at_bounds(s, pos, SEMI);
    }
    lemma_attrs_step_ts(s, pos, e, t1, t2, st1, st2);
    let step1 = attrs_step(s, pos, e, st1, t1);
    let step2 = attrs_step(s, pos, e, st2, t2);
    if !step1.1 && e < s.len() {
        lemma_attrs_from_ts(s, t1, t2, e + 1, step1.0, step2.0);
    }
}

/// A `Max-Age` attribute always wins over `Expires`, whatever order the
/// two appear in: whether a valid `Max-Age` was seen does not depend on
/// the reference timestamp, and once one was seen the resulting max-age
/// is the same under every timestamp, so `Expires` contributed nothing.
pub proof fn lemma_max_age_wins(data: Seq<u8>, t1: u64, t2: u64)
    ensures
        ({
            let init = AttrsFold { attrs: default_attrs_model(), has_max_age: false };
            let f1 = attrs_from(data, t1, 0, init);
            let f2 = attrs_from(data, t2, 0, init);
            &&& f1.has_max_age == f2.has_max_age
            &&& (f1.has_max_age ==> attrs_model(data, t1).max_age == attrs_model(
                data,
                t2,
            ).max_age)
        }),
{
    let init = AttrsFold { attrs: default_attrs_model(), has_max_age: false };
    lemma_attrs_from_ts(data, t1, t2, 0, init, init);
}

} // verus!
