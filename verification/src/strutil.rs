//! Character-level string helpers shared by the routing, configuration
//! and authentication modules.
use vstd::prelude::*;

verus! {

/// Relies on `str`'s `==` operator: two string slices are equal exactly
/// when their text is.
#[verifier::external_body]
pub fn str_eq(a: &str, b: &str) -> (r: bool)
    ensures
        r == (a@ == b@),
{
    a == b
}

/// Whether `p` is a prefix of `s`.
pub open spec fn is_prefix_of(p: Seq<char>, s: Seq<char>) -> bool {
    p.len() <= s.len() && s.subrange(0, p.len() as int) == p
}

/// Checks whether `s` starts with `p`, character by character.
pub fn str_starts_with(s: &str, p: &str) -> (r: bool)
    ensures
        r == is_prefix_of(p@, s@),
{
    let n = s.unicode_len();
    let m = p.unicode_len();
    if m > n {
        proof {
            assert(!is_prefix_of(p@, s@));
        }
        return false;
    }
    let mut i: usize = 0;
    while i < m
        invariant
            i <= m <= n,
            n == s@.len(),
            m == p@.len(),
            forall|j: int| 0 <= j < i ==> s@[j] == p@[j],
        decreases m - i,
    {
        if s.get_char(i) != p.get_char(i) {
            proof {
                assert(s@[i as int] != p@[i as int]);
                assert(!is_prefix_of(p@, s@)) by {
                    if is_prefix_of(p@, s@) {
                        assert(s@.subrange(0, m as int)[i as int] == p@[i as int]);
                    }
                }
            }
            return false;
        }
        i = i + 1;
    }
    proof {
        assert(s@.subrange(0, m as int) =~= p@);
    }
    true
}

/// Relies on str's `to_lowercase`: the result depends on the characters
/// alone.
pub uninterp spec fn lower_of(s: Seq<char>) -> Seq<char>;

/// Relies on str's `to_lowercase` for case folding.
#[verifier::external_body]
pub fn lowercase(s: &str) -> (r: String)
    ensures
        r@ == lower_of(s@),
        s@.len() == 0 ==> r@.len() == 0,
{
    s.to_lowercase()
}

/// Strips `p` from the front of `s` when it is a prefix.
pub fn str_strip_prefix(s: &str, p: &str) -> (r: Option<String>)
    ensures
        match r {
            Option::Some(t) => is_prefix_of(p@, s@) && t@ == s@.skip(p@.len() as int),
            Option::None => !is_prefix_of(p@, s@),
        },
{
    if str_starts_with(s, p) {
        let n = s.unicode_len();
        let m = p.unicode_len();
        proof {
            assert(s@.subrange(m as int, n as int) =~= s@.skip(m as int));
        }
        Some(substring_copy(s, m, n))
    } else {
        None
    }
}

/// First occurrence of `c` in `s` at or after `from` (character index).
pub open spec fn char_at(s: Seq<char>, from: int, c: char) -> Option<int>
    decreases s.len() - from,
{
    if from < 0 || from >= s.len() {
        Option::None
    } else if s[from] == c {
        Option::Some(from)
    } else {
        char_at(s, from + 1, c)
    }
}

pub proof fn lemma_char_at_bounds(s: Seq<char>, from: int, c: char)
    requires
        0 <= from <= s.len(),
    ensures
        match char_at(s, from, c) {
            Option::Some(i) => from <= i < s.len() && s[i] == c && forall|j: int|
                from <= j < i ==> s[j] != c,
            Option::None => forall|j: int| from <= j < s.len() ==> s[j] != c,
        },
    decreases s.len() - from,
{
    if from < s.len() && s[from] != c {
        lemma_char_at_bounds(s, from + 1, c);
    }
}

/// First occurrence of `c` in `s`, as a character index.
pub fn find_char(s: &str, c: char) -> (r: Option<usize>)
    ensures
        match r {
            Option::Some(i) => Option::Some(i as int) == char_at(s@, 0, c),
            Option::None => char_at(s@, 0, c) is None,
        },
{
    let n = s.unicode_len();
    let mut i: usize = 0;
    while i < n
        invariant
            i <= n,
            n == s@.len(),
            char_at(s@, 0, c) == char_at(s@, i as int, c),
        decreases n - i,
    {
        if s.get_char(i) == c {
            return Some(i);
        }
        i = i + 1;
    }
    None
}

/// First occurrence of `c` in `s` at or after `from`, as a character index.
pub fn find_char_from(s: &str, from: usize, c: char) -> (r: Option<usize>)
    requires
        from <= s@.len(),
    ensures
        match r {
            Option::Some(i) => Option::Some(i as int) == char_at(s@, from as int, c),
            Option::None => char_at(s@, from as int, c) is None,
        },
{
    let n = s.unicode_len();
    let mut i: usize = from;
    while i < n
        invariant
            from <= i <= n,
            n == s@.len(),
            char_at(s@, from as int, c) == char_at(s@, i as int, c),
        decreases n - i,
    {
        if s.get_char(i) == c {
            return Some(i);
        }
        i = i + 1;
    }
    None
}

/// The characters of `s` from `from` to `to`, as an owned string.
pub fn substring_copy(s: &str, from: usize, to: usize) -> (r: String)
    requires
        from <= to <= s@.len(),
    ensures
        r@ == s@.subrange(from as int, to as int),
{
    String::from_str(s.substring_char(from, to))
}

/// `a` followed by `b`, as an owned string.
pub fn concat_str(a: &str, b: &str) -> (r: String)
    ensures
        r@ == a@ + b@,
{
    String::from_str(a).concat(b)
}

/// Strips one trailing `/`, if present.
pub open spec fn clean_url_model(s: Seq<char>) -> Seq<char> {
    if s.len() > 0 && s[s.len() - 1] == '/' {
        s.subrange(0, s.len() - 1)
    } else {
        s
    }
}

/// Drops a single trailing slash from a URL, as route-table keys and
/// upstream bases are stored without one.
pub fn clean_url(uri: &str) -> (r: String)
    ensures
        r@ == clean_url_model(uri@),
{
    let n = uri.unicode_len();
    if n > 0 && uri.get_char(n - 1) == '/' {
        substring_copy(uri, 0, n - 1)
    } else {
        proof {
            assert(uri@.subrange(0, n as int) =~= uri@);
        }
        substring_copy(uri, 0, n)
    }
}

/// Length of the longest common prefix of `a` and `b` from `i` on.
pub open spec fn cp_from(a: Seq<char>, b: Seq<char>, i: int) -> int
    decreases a.len() - i,
{
    if i < 0 || i >= a.len() || i >= b.len() {
        i
    } else if a[i] != b[i] {
        i
    } else {
        cp_from(a, b, i + 1)
    }
}

proof fn lemma_cp_from_bounds(a: Seq<char>, b: Seq<char>, i: int)
    requires
        0 <= i <= a.len(),
        0 <= i <= b.len(),
    ensures
        i <= cp_from(a, b, i) <= a.len(),
        cp_from(a, b, i) <= b.len(),
    decreases a.len() - i,
{
    if i < a.len() && i < b.len() && a[i] == b[i] {
        lemma_cp_from_bounds(a, b, i + 1);
    }
}

/// The longest common prefix of two strings.
pub fn common_prefix(s1: &str, s2: &str) -> (r: String)
    ensures
        r@ == s1@.subrange(0, cp_from(s1@, s2@, 0)),
{
    let n1 = s1.unicode_len();
    let n2 = s2.unicode_len();
    let mut i: usize = 0;
    let mut done = false;
    while !done
        invariant
            i <= n1,
            i <= n2,
            n1 == s1@.len(),
            n2 == s2@.len(),
            cp_from(s1@, s2@, 0) == cp_from(s1@, s2@, i as int),
            done ==> cp_from(s1@, s2@, i as int) == i,
        decreases n1 - i + (if done {
            0int
        } else {
            1int
        }),
    {
        if i < n1 && i < n2 && s1.get_char(i) == s2.get_char(i) {
            i = i + 1;
        } else {
            done = true;
        }
    }
    substring_copy(s1, 0, i)
}

/// Character-bounded comparison: the first `n` characters agree, with
/// strings that both end before `n` counting as equal.
pub open spec fn strncmp_at(a: Seq<char>, b: Seq<char>, k: int, n: int) -> bool
    decreases n - k,
{
    if k < 0 || k >= n {
        true
    } else if k < a.len() && k < b.len() {
        if a[k] != b[k] {
            false
        } else {
            strncmp_at(a, b, k + 1, n)
        }
    } else if k >= a.len() && k >= b.len() {
        true
    } else {
        false
    }
}

/// Compares the first `n` characters of two strings.
pub fn _strncmp(s1: &str, s2: &str, n: usize) -> (r: bool)
    ensures
        r == strncmp_at(s1@, s2@, 0, n as int),
{
    let n1 = s1.unicode_len();
    let n2 = s2.unicode_len();
    let mut k: usize = 0;
    while k < n
        invariant
            k <= n,
            n1 == s1@.len(),
            n2 == s2@.len(),
            strncmp_at(s1@, s2@, 0, n as int) == strncmp_at(s1@, s2@, k as int, n as int),
        decreases n - k,
    {
        if k < n1 && k < n2 {
            if s1.get_char(k) != s2.get_char(k) {
                return false;
            }
        } else if k >= n1 && k >= n2 {
            return true;
        } else {
            return false;
        }
        k = k + 1;
    }
    true
}

} // verus!
