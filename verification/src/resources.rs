//! The resource tracker: collects the `src`/`href` references and
//! script fetch targets of a proxied page, deduplicated, and answers
//! lookups over them.
use vstd::prelude::*;

use crate::scrape::{scraped_attrs, scraped_texts, select_attrs, select_texts};
use crate::strutil::{
    char_at, find_char, find_char_from, is_prefix_of, lemma_char_at_bounds, str_starts_with,
    substring_copy,
};

verus! {

/// A deduplicated set of resource references, in insertion order.
pub struct ResourceSet {
    items: Vec<String>,
}

impl View for ResourceSet {
    type V = Seq<Seq<char>>;

    closed spec fn view(&self) -> Seq<Seq<char>> {
        self.items.deep_view()
    }
}

/// First index holding `x`, from `i` on.
pub open spec fn set_find(s: Seq<Seq<char>>, x: Seq<char>, i: int) -> Option<int>
    decreases s.len() - i,
{
    if i < 0 || i >= s.len() {
        Option::None
    } else if s[i] == x {
        Option::Some(i)
    } else {
        set_find(s, x, i + 1)
    }
}

/// The set after inserting `x`: unchanged when already present.
pub open spec fn insert_model(s: Seq<Seq<char>>, x: Seq<char>) -> Seq<Seq<char>> {
    if set_find(s, x, 0) is Some {
        s
    } else {
        s + seq![x]
    }
}

/// The set after inserting every element of `xs`, in order.
pub open spec fn insert_all(s: Seq<Seq<char>>, xs: Seq<Seq<char>>) -> Seq<Seq<char>>
    decreases xs.len(),
{
    if xs.len() == 0 {
        s
    } else {
        insert_all(insert_model(s, xs[0]), xs.skip(1))
    }
}

impl ResourceSet {
    /// An empty resource set.
    pub fn new() -> (r: Self)
        ensures
            r@ == Seq::<Seq<char>>::empty(),
    {
        let r = ResourceSet { items: Vec::new() };
        proof {
            assert(r@ =~= Seq::<Seq<char>>::empty());
        }
        r
    }

    /// The collected references, in insertion order.
    pub fn items(&self) -> (r: &Vec<String>)
        ensures
            r.deep_view() == self@,
    {
        &self.items
    }

    /// Inserts one reference unless it is already present.
    pub fn insert(&mut self, value: String)
        ensures
            final(self)@ == insert_model(old(self)@, value@),
    {
        let ghost s = self.items.deep_view();
        let n = self.items.len();
        let mut i: usize = 0;
        while i < n
            invariant
                i <= n,
                n == self.items@.len(),
                s == self.items.deep_view(),
                s.len() == n,
                self@ == s,
                set_find(s, value@, 0) == set_find(s, value@, i as int),
            decreases n - i,
        {
            proof {
                assert(s[i as int] == self.items@[i as int]@);
            }
            if crate::strutil::str_eq(self.items[i].as_str(), value.as_str()) {
                return ;
            }
            i = i + 1;
        }
        let ghost dv0 = self.items.deep_view();
        let ghost vv = value@;
        self.items.push(value);
        proof {
            assert(self.items.deep_view() =~= dv0 + seq![vv]);
        }
    }
}

/// Empties the tracked resource set.
pub fn empty_resources(resources: &mut ResourceSet)
    ensures
        final(resources)@ == Seq::<Seq<char>>::empty(),
{
    resources.items.clear();
    proof {
        assert(resources@ =~= Seq::<Seq<char>>::empty());
    }
}

/// Whether the tracked resource set is empty.
pub fn is_resources_empty(resources: &ResourceSet) -> (r: bool)
    ensures
        r == (resources@.len() == 0),
{
    resources.items.is_empty()
}

/// First tracked reference that starts with `p`, from `i` on.
pub open spec fn res_pref_find(s: Seq<Seq<char>>, p: Seq<char>, i: int) -> Option<int>
    decreases s.len() - i,
{
    if i < 0 || i >= s.len() {
        Option::None
    } else if is_prefix_of(p, s[i]) {
        Option::Some(i)
    } else {
        res_pref_find(s, p, i + 1)
    }
}

/// Finds a tracked reference that starts with `refer`.
pub fn find_resource(resources: &ResourceSet, refer: &str) -> (r: Option<String>)
    ensures
        match r {
            Option::Some(v) => {
                &&& res_pref_find(resources@, refer@, 0) is Some
                &&& v@ == resources@[res_pref_find(resources@, refer@, 0).unwrap()]
            },
            Option::None => res_pref_find(resources@, refer@, 0) is None,
        },
{
    let ghost s = resources@;
    let n = resources.items.len();
    let mut i: usize = 0;
    while i < n
        invariant
            i <= n,
            n == resources.items@.len(),
            s == resources@,
            s == resources.items.deep_view(),
            s.len() == n,
            res_pref_find(s, refer@, 0) == res_pref_find(s, refer@, i as int),
        decreases n - i,
    {
        proof {
            assert(s[i as int] == resources.items@[i as int]@);
        }
        if str_starts_with(resources.items[i].as_str(), refer) {
            return Some(resources.items[i].clone());
        }
        i = i + 1;
    }
    None
}

/// The set with every reference that occurs in `links` removed.
pub open spec fn retain_model(s: Seq<Seq<char>>, links: Seq<Seq<char>>) -> Seq<Seq<char>>
    decreases s.len(),
{
    if s.len() == 0 {
        Seq::empty()
    } else if set_find(links, s[0], 0) is Some {
        retain_model(s.skip(1), links)
    } else {
        seq![s[0]] + retain_model(s.skip(1), links)
    }
}

/// Drops every tracked reference that also occurs in `links`.
pub fn filter_resources_links(links: &ResourceSet, sources: &mut ResourceSet)
    ensures
        final(sources)@ == retain_model(old(sources)@, links@),
{
    let ghost s = old(sources)@;
    let ghost lv = links@;
    let n = sources.items.len();
    let mut out: Vec<String> = Vec::new();
    let mut i: usize = 0;
    proof {
        assert(s.skip(0) =~= s);
        assert(out.deep_view() =~= Seq::<Seq<char>>::empty());
        assert(out.deep_view() + retain_model(s, lv) =~= retain_model(s, lv));
    }
    while i < n
        invariant
            i <= n,
            n == sources.items@.len(),
            sources == old(sources),
            s == sources.items.deep_view(),
            s.len() == n,
            lv == links@,
            out.deep_view() + retain_model(s.skip(i as int), lv) == retain_model(s, lv),
        decreases n - i,
    {
        proof {
            assert(s.skip(i as int)[0] == s[i as int]);
            assert(s.skip(i as int).skip(1) =~= s.skip(i as int + 1));
            assert(s[i as int] == sources.items@[i as int]@);
        }
        let ghost keep_set = lv;
        let mut found = false;
        let m = links.items.len();
        let mut j: usize = 0;
        while j < m
            invariant
                j <= m,
                m == links.items@.len(),
                lv == links@,
                lv == links.items.deep_view(),
                lv.len() == m,
                found ==> set_find(lv, s[i as int], 0) is Some,
                !found ==> set_find(lv, s[i as int], 0) == set_find(lv, s[i as int], j as int),
                s == sources.items.deep_view(),
                i < n == sources.items@.len(),
                sources == old(sources),
                s[i as int] == sources.items@[i as int]@,
            decreases m - j,
        {
            proof {
                assert(lv[j as int] == links.items@[j as int]@);
            }
            if crate::strutil::str_eq(links.items[j].as_str(), sources.items[i].as_str()) {
                found = true;
            }
            j = j + 1;
        }
        if !found {
            let v = sources.items[i].clone();
            let ghost dv0 = out.deep_view();
            let ghost vv = v@;
            out.push(v);
            proof {
                assert(out.deep_view() =~= dv0 + seq![vv]);
                assert(dv0 + seq![vv] + retain_model(s.skip(i as int + 1), lv) =~= dv0 + (
                seq![vv] + retain_model(s.skip(i as int + 1), lv)));
            }
        }
        i = i + 1;
    }
    proof {
        assert(s.skip(n as int) =~= Seq::<Seq<char>>::empty());
        assert(out.deep_view() + Seq::<Seq<char>>::empty() =~= out.deep_view());
    }
    sources.items = out;
}

/// The pattern `p` occurs in `s` at position `i`.
pub open spec fn sub_at(s: Seq<char>, i: int, p: Seq<char>) -> bool {
    0 <= i && i + p.len() <= s.len() && s.subrange(i, i + p.len()) == p
}

/// Last occurrence of `p` in `s` at or before `from`.
pub open spec fn rfind_sub(s: Seq<char>, p: Seq<char>, from: int) -> Option<int>
    decreases from + 1,
{
    if from < 0 {
        Option::None
    } else if sub_at(s, from, p) {
        Option::Some(from)
    } else {
        rfind_sub(s, p, from - 1)
    }
}

/// First occurrence of `p` in `s` at or after `i`.
pub open spec fn find_sub(s: Seq<char>, p: Seq<char>, i: int) -> Option<int>
    decreases s.len() - i,
{
    if p.len() == 0 || i < 0 || i + p.len() > s.len() {
        Option::None
    } else if sub_at(s, i, p) {
        Option::Some(i)
    } else {
        find_sub(s, p, i + 1)
    }
}

pub proof fn lemma_find_sub_bounds(s: Seq<char>, p: Seq<char>, i: int)
    requires
        0 <= i,
    ensures
        match find_sub(s, p, i) {
            Option::Some(j) => i <= j && j + p.len() <= s.len() && sub_at(s, j, p),
            Option::None => true,
        },
    decreases s.len() - i,
{
    if p.len() > 0 && i + p.len() <= s.len() && !sub_at(s, i, p) {
        lemma_find_sub_bounds(s, p, i + 1);
    }
}

/// Checks whether `p` occurs in `s` at position `i`.
fn sub_match(s: &str, i: usize, p: &str) -> (r: bool)
    ensures
        r == sub_at(s@, i as int, p@),
{
    let n = s.unicode_len();
    let m = p.unicode_len();
    if i > n || m > n - i {
        proof {
            assert(!sub_at(s@, i as int, p@));
        }
        return false;
    }
    let mut j: usize = 0;
    while j < m
        invariant
            j <= m,
            i + m <= n,
            n == s@.len(),
            m == p@.len(),
            forall|k: int| 0 <= k < j ==> s@[i + k] == p@[k],
        decreases m - j,
    {
        if s.get_char(i + j) != p.get_char(j) {
            proof {
                assert(s@[i + j] != p@[j as int]);
                assert(!sub_at(s@, i as int, p@)) by {
                    if sub_at(s@, i as int, p@) {
                        assert(s@.subrange(i as int, i + m)[j as int] == p@[j as int]);
                    }
                }
            }
            return false;
        }
        j = j + 1;
    }
    proof {
        assert(s@.subrange(i as int, i + m) =~= p@);
    }
    true
}

/// Last occurrence of `p` in `s` at or before `k`, as a character index.
fn rfind_sub_from(s: &str, p: &str, k: usize) -> (r: Option<usize>)
    ensures
        match r {
            Option::Some(i) => Option::Some(i as int) == rfind_sub(s@, p@, k as int),
            Option::None => rfind_sub(s@, p@, k as int) is None,
        },
    decreases k,
{
    if sub_match(s, k, p) {
        Some(k)
    } else if k == 0 {
        proof {
            assert(rfind_sub(s@, p@, 0) == rfind_sub(s@, p@, -1));
        }
        None
    } else {
        rfind_sub_from(s, p, k - 1)
    }
}

/// Last occurrence of `p` in `s`, as a character index.
fn rfind_sub_exec(s: &str, p: &str) -> (r: Option<usize>)
    ensures
        match r {
            Option::Some(i) => Option::Some(i as int) == rfind_sub(s@, p@, s@.len() - p@.len()),
            Option::None => rfind_sub(s@, p@, s@.len() - p@.len()) is None,
        },
{
    let n = s.unicode_len();
    let m = p.unicode_len();
    if m > n {
        proof {
            lemma_rfind_short(s@, p@, n as int - m as int);
        }
        return None;
    }
    rfind_sub_from(s, p, n - m)
}

proof fn lemma_rfind_short(s: Seq<char>, p: Seq<char>, from: int)
    requires
        p.len() > s.len(),
    ensures
        rfind_sub(s, p, from) is None,
    decreases from + 1,
{
    if from >= 0 {
        lemma_rfind_short(s, p, from - 1);
    }
}

/// The pieces of `s` split at every occurrence of `p`, scanning from
/// `pos`; the separators themselves are dropped.
pub open spec fn split_pat_at(s: Seq<char>, p: Seq<char>, pos: int) -> Seq<Seq<char>>
    decreases s.len() - pos,
    via split_pat_at_decreases
{
    if p.len() == 0 {
        seq![s.skip(pos)]
    } else {
        match find_sub(s, p, pos) {
            Option::None => seq![s.skip(pos)],
            Option::Some(i) => seq![s.subrange(pos, i)] + split_pat_at(s, p, i + p.len()),
        }
    }
}

#[via_fn]
proof fn split_pat_at_decreases(s: Seq<char>, p: Seq<char>, pos: int) {
    if pos >= 0 {
        lemma_find_sub_bounds(s, p, pos);
    } else {
        lemma_find_sub_neg(s, p, pos);
    }
}

proof fn lemma_find_sub_neg(s: Seq<char>, p: Seq<char>, pos: int)
    requires
        pos < 0,
    ensures
        find_sub(s, p, pos) is None,
{
}

/// Splits a string at every occurrence of `p`.
fn split_pat(s: &str, p: &str) -> (r: Vec<String>)
    requires
        p@.len() > 0,
    ensures
        r.deep_view() == split_pat_at(s@, p@, 0),
{
    let n = s.unicode_len();
    let mut out: Vec<String> = Vec::new();
    let mut pos: usize = 0;
    let mut done = false;
    proof {
        assert(out.deep_view() =~= Seq::<Seq<char>>::empty());
    }
    while !done
        invariant
            pos <= n,
            n == s@.len(),
            p@.len() > 0,
            !done ==> out.deep_view() + split_pat_at(s@, p@, pos as int) == split_pat_at(
                s@,
                p@,
                0,
            ),
            done ==> out.deep_view() == split_pat_at(s@, p@, 0),
        decreases n - pos + (if done {
            0int
        } else {
            1int
        }),
    {
        proof {
            lemma_find_sub_bounds(s@, p@, pos as int);
        }
        match find_sub_exec(s, p, pos) {
            Some(i) => {
                let piece = substring_copy(s, pos, i);
                let ghost dv0 = out.deep_view();
                let ghost pv = piece@;
                let m = p.unicode_len();
                out.push(piece);
                proof {
                    assert(out.deep_view() =~= dv0 + seq![pv]);
                    assert(dv0 + seq![pv] + split_pat_at(s@, p@, i + p@.len()) =~= dv0 + (
                    seq![pv] + split_pat_at(s@, p@, i + p@.len())));
                }
                pos = i + m;
            },
            None => {
                proof {
                    assert(s@.subrange(pos as int, n as int) =~= s@.skip(pos as int));
                }
                let piece = substring_copy(s, pos, n);
                let ghost dv0 = out.deep_view();
                let ghost pv = piece@;
                out.push(piece);
                proof {
                    assert(out.deep_view() =~= dv0 + seq![pv]);
                    assert(dv0 + seq![pv] =~= dv0 + seq![s@.skip(pos as int)]);
                }
                done = true;
            },
        }
    }
    out
}

/// First occurrence of `p` in `s` at or after `pos`.
fn find_sub_exec(s: &str, p: &str, pos: usize) -> (r: Option<usize>)
    requires
        pos <= s@.len(),
        p@.len() > 0,
    ensures
        match r {
            Option::Some(i) => Option::Some(i as int) == find_sub(s@, p@, pos as int) && pos <= i
                && i + p@.len() <= s@.len(),
            Option::None => find_sub(s@, p@, pos as int) is None,
        },
{
    let n = s.unicode_len();
    let m = p.unicode_len();
    let mut i: usize = pos;
    while i <= n && m <= n - i
        invariant
            pos <= i <= n,
            n == s@.len(),
            0 < m == p@.len(),
            find_sub(s@, p@, pos as int) == find_sub(s@, p@, i as int),
        decreases n - i,
    {
        if sub_match(s, i, p) {
            proof {
                lemma_find_sub_bounds(s@, p@, i as int);
            }
            return Some(i);
        }
        i = i + 1;
    }
    None
}

/// The text between the first two double quotes, if both exist.
pub open spec fn quotes_model(text: Seq<char>) -> Option<Seq<char>> {
    match char_at(text, 0, '"') {
        Option::None => Option::None,
        Option::Some(i) => match char_at(text, i + 1, '"') {
            Option::None => Option::None,
            Option::Some(j) => Option::Some(text.subrange(i + 1, j)),
        },
    }
}

/// Extracts the text between the first pair of double quotes.
pub fn get_string_quotes(text: &str) -> (r: Option<String>)
    ensures
        match r {
            Option::Some(v) => quotes_model(text@) == Option::Some(v@),
            Option::None => quotes_model(text@) is None,
        },
{
    let n = text.unicode_len();
    match find_char(text, '"') {
        Some(i) => {
            proof {
                lemma_char_at_bounds(text@, 0, '"');
                assert(i < n);
            }
            match find_char_from(text, i + 1, '"') {
                Some(j) => {
                    proof {
                        lemma_char_at_bounds(text@, i + 1, '"');
                    }
                    Some(substring_copy(text, i + 1, j))
                },
                None => None,
            }
        },
        None => None,
    }
}

/// The resource a script line fetches: the first quoted string after
/// the last `fetch(` whose argument starts an absolute path.
pub open spec fn inspect_fetch_model(line: Seq<char>) -> Option<Seq<char>> {
    match rfind_sub(line, "fetch("@, line.len() - "fetch("@.len()) {
        Option::None => Option::None,
        Option::Some(c) => {
            let param = line.skip(c);
            match rfind_sub(param, "\"/"@, param.len() - "\"/"@.len()) {
                Option::None => Option::None,
                Option::Some(l) => quotes_model(param.skip(l)),
            }
        },
    }
}

/// Finds the absolute-path resource a script line fetches, if any.
pub fn inspect_fetch(line: &&str) -> (r: Option<String>)
    ensures
        match r {
            Option::Some(v) => inspect_fetch_model(line@) == Option::Some(v@),
            Option::None => inspect_fetch_model(line@) is None,
        },
{
    let callout = match rfind_sub_exec(line, "fetch(") {
        Some(c) => c,
        None => {
            return None;
        },
    };
    proof {
        lemma_rfind_bounds(line@, "fetch("@, line@.len() - "fetch("@.len());
    }
    let n = line.unicode_len();
    let param_val = substring_copy(line, callout, n);
    proof {
        assert(param_val@ =~= line@.skip(callout as int));
    }
    let link = match rfind_sub_exec(param_val.as_str(), "\"/") {
        Some(l) => l,
        None => {
            return None;
        },
    };
    proof {
        lemma_rfind_bounds(param_val@, "\"/"@, param_val@.len() - "\"/"@.len());
    }
    let pn = param_val.as_str().unicode_len();
    let full_val = substring_copy(param_val.as_str(), link, pn);
    proof {
        assert(full_val@ =~= param_val@.skip(link as int));
    }
    get_string_quotes(full_val.as_str())
}

pub proof fn lemma_rfind_bounds(s: Seq<char>, p: Seq<char>, from: int)
    ensures
        match rfind_sub(s, p, from) {
            Option::Some(i) => 0 <= i && i + p.len() <= s.len(),
            Option::None => true,
        },
    decreases from + 1,
{
    if from >= 0 && !sub_at(s, from, p) {
        lemma_rfind_bounds(s, p, from - 1);
    }
}

/// The fetch targets of a list of script lines, in order.
pub open spec fn lines_refs(lines: Seq<Seq<char>>) -> Seq<Seq<char>>
    decreases lines.len(),
{
    if lines.len() == 0 {
        Seq::empty()
    } else {
        match inspect_fetch_model(lines[0]) {
            Option::Some(r) => seq![r] + lines_refs(lines.skip(1)),
            Option::None => lines_refs(lines.skip(1)),
        }
    }
}

/// The fetch targets of every script text, in document order.
pub open spec fn script_refs(texts: Seq<Seq<char>>) -> Seq<Seq<char>>
    decreases texts.len(),
{
    if texts.len() == 0 {
        Seq::empty()
    } else {
        lines_refs(split_pat_at(texts[0], "\n"@, 0)) + script_refs(texts.skip(1))
    }
}

/// Collects the fetch targets of every script text of a page.
fn check_script(texts: &Vec<String>) -> (r: Vec<String>)
    ensures
        r.deep_view() == script_refs(texts.deep_view()),
{
    let ghost ts = texts.deep_view();
    let n = texts.len();
    let mut out: Vec<String> = Vec::new();
    let mut i: usize = 0;
    proof {
        assert(ts.skip(0) =~= ts);
        assert(out.deep_view() =~= Seq::<Seq<char>>::empty());
        assert(out.deep_view() + script_refs(ts) =~= script_refs(ts));
    }
    while i < n
        invariant
            i <= n,
            n == texts@.len(),
            ts == texts.deep_view(),
            ts.len() == n,
            out.deep_view() + script_refs(ts.skip(i as int)) == script_refs(ts),
        decreases n - i,
    {
        proof {
            assert(ts.skip(i as int)[0] == ts[i as int]);
            assert(ts.skip(i as int).skip(1) =~= ts.skip(i as int + 1));
            assert(ts[i as int] == texts@[i as int]@);
        }
        proof {
            vstd::prelude::reveal_strlit("\n");
        }
        let lines = split_pat(texts[i].as_str(), "\n");
        let ghost ls = lines.deep_view();
        let m = lines.len();
        let mut j: usize = 0;
        proof {
            assert(ls.skip(0) =~= ls);
        }
        while j < m
            invariant
                j <= m,
                m == lines@.len(),
                ls == lines.deep_view(),
                ls.len() == m,
                i < n == texts@.len(),
                ts == texts.deep_view(),
                ts[i as int] == texts@[i as int]@,
                ls == split_pat_at(ts[i as int], "\n"@, 0),
                out.deep_view() + lines_refs(ls.skip(j as int)) + script_refs(
                    ts.skip(i as int + 1),
                ) == script_refs(ts),
            decreases m - j,
        {
            proof {
                assert(ls.skip(j as int)[0] == ls[j as int]);
                assert(ls.skip(j as int).skip(1) =~= ls.skip(j as int + 1));
                assert(ls[j as int] == lines@[j as int]@);
            }
            match inspect_fetch(&lines[j].as_str()) {
                Some(res_link_ref) => {
                    let ghost dv0 = out.deep_view();
                    let ghost rv = res_link_ref@;
                    out.push(res_link_ref);
                    proof {
                        assert(out.deep_view() =~= dv0 + seq![rv]);
                        assert(dv0 + seq![rv] + lines_refs(ls.skip(j as int + 1)) =~= dv0 + (
                        seq![rv] + lines_refs(ls.skip(j as int + 1))));
                        assert(dv0 + (seq![rv] + lines_refs(ls.skip(j as int + 1))) + script_refs(
                            ts.skip(i as int + 1),
                        ) =~= dv0 + (seq![rv] + lines_refs(ls.skip(j as int + 1)) + script_refs(
                            ts.skip(i as int + 1),
                        )));
                        assert(dv0 + seq![rv] + lines_refs(ls.skip(j as int + 1)) + script_refs(
                            ts.skip(i as int + 1),
                        ) =~= (dv0 + seq![rv]) + lines_refs(ls.skip(j as int + 1)) + script_refs(
                            ts.skip(i as int + 1),
                        ));
                    }
                },
                None => {},
            }
            j = j + 1;
        }
        proof {
            assert(ls.skip(m as int) =~= Seq::<Seq<char>>::empty());
            assert(out.deep_view() + Seq::<Seq<char>>::empty() =~= out.deep_view());
            assert(out.deep_view() + Seq::<Seq<char>>::empty() + script_refs(
                ts.skip(i as int + 1),
            ) =~= out.deep_view() + script_refs(ts.skip(i as int + 1)));
        }
        i = i + 1;
    }
    proof {
        assert(ts.skip(n as int) =~= Seq::<Seq<char>>::empty());
        assert(out.deep_view() + Seq::<Seq<char>>::empty() =~= out.deep_view());
    }
    out
}

/// The first requested attribute of each scraped row that carries one.
pub open spec fn first_attr_values(rows: Seq<Seq<Option<Seq<char>>>>) -> Seq<Seq<char>>
    decreases rows.len(),
{
    if rows.len() == 0 {
        Seq::empty()
    } else {
        let head: Option<Seq<char>> = if rows[0].len() > 0 {
            rows[0][0]
        } else {
            Option::None
        };
        match head {
            Option::Some(v) => seq![v] + first_attr_values(rows.skip(1)),
            Option::None => first_attr_values(rows.skip(1)),
        }
    }
}

/// Inserts each row's first attribute value into the set.
fn insert_first_attrs(resources: &mut ResourceSet, rows: &Vec<Vec<Option<String>>>)
    ensures
        final(resources)@ == insert_all(old(resources)@, first_attr_values(rows.deep_view())),
{
    let ghost rs = rows.deep_view();
    let ghost target = insert_all(old(resources)@, first_attr_values(rs));
    let n = rows.len();
    let mut i: usize = 0;
    proof {
        assert(rs.skip(0) =~= rs);
    }
    while i < n
        invariant
            i <= n,
            n == rows@.len(),
            rs == rows.deep_view(),
            rs.len() == n,
            insert_all(resources@, first_attr_values(rs.skip(i as int))) == target,
        decreases n - i,
    {
        proof {
            assert(rs.skip(i as int)[0] == rs[i as int]);
            assert(rs.skip(i as int).skip(1) =~= rs.skip(i as int + 1));
            assert(rs[i as int] == rows@[i as int].deep_view());
        }
        let row = &rows[i];
        if row.len() > 0 {
            match &row[0] {
                Some(v) => {
                    proof {
                        assert(rs[i as int][0] == Option::Some(row@[0].unwrap()@));
                        assert(first_attr_values(rs.skip(i as int)) == seq![v@]
                            + first_attr_values(rs.skip(i as int + 1)));
                        assert((seq![v@] + first_attr_values(rs.skip(i as int + 1))).skip(1)
                            =~= first_attr_values(rs.skip(i as int + 1)));
                    }
                    resources.insert(v.clone());
                },
                None => {
                    proof {
                        assert(rs[i as int][0] is None);
                    }
                },
            }
        }
        i = i + 1;
    }
    proof {
        assert(rs.skip(n as int) =~= Seq::<Seq<Option<Seq<char>>>>::empty());
    }
}

/// Inserts each string of the list into the set.
fn insert_strings(resources: &mut ResourceSet, vals: &Vec<String>)
    ensures
        final(resources)@ == insert_all(old(resources)@, vals.deep_view()),
{
    let ghost vs = vals.deep_view();
    let ghost target = insert_all(old(resources)@, vs);
    let n = vals.len();
    let mut i: usize = 0;
    proof {
        assert(vs.skip(0) =~= vs);
    }
    while i < n
        invariant
            i <= n,
            n == vals@.len(),
            vs == vals.deep_view(),
            vs.len() == n,
            insert_all(resources@, vs.skip(i as int)) == target,
        decreases n - i,
    {
        proof {
            assert(vs.skip(i as int)[0] == vs[i as int]);
            assert(vs.skip(i as int).skip(1) =~= vs.skip(i as int + 1));
            assert(vs[i as int] == vals@[i as int]@);
        }
        resources.insert(vals[i].clone());
        i = i + 1;
    }
    proof {
        assert(vs.skip(n as int) =~= Seq::<Seq<char>>::empty());
    }
}

/// What a page adds to the tracked resources: every `src` value, every
/// `href` value, then every script fetch target, each inserted once; a
/// scrape that fails contributes nothing.
pub open spec fn check_resources_model(s0: Seq<Seq<char>>, html: Seq<char>) -> Seq<Seq<char>> {
    let s1 = match scraped_attrs(html, "[src]"@, seq!["src"@]) {
        Option::Some(rows) => insert_all(s0, first_attr_values(rows)),
        Option::None => s0,
    };
    let s2 = match scraped_attrs(html, "[href]"@, seq!["href"@]) {
        Option::Some(rows) => insert_all(s1, first_attr_values(rows)),
        Option::None => s1,
    };
    match scraped_texts(html, "script"@) {
        Option::Some(texts) => insert_all(s2, script_refs(texts)),
        Option::None => s2,
    }
}

/// Collects every resource reference of a page into the tracked set.
pub fn check_resources(full_body_str: &String, resources: &mut ResourceSet)
    ensures
        final(resources)@ == check_resources_model(old(resources)@, full_body_str@),
{
    let mut src_names: Vec<String> = Vec::new();
    src_names.push(String::from_str("src"));
    proof {
        assert(src_names.deep_view() =~= seq!["src"@]);
    }
    match select_attrs(full_body_str.as_str(), "[src]", &src_names) {
        Some(rows) => {
            insert_first_attrs(resources, &rows);
        },
        None => {},
    }
    let mut href_names: Vec<String> = Vec::new();
    href_names.push(String::from_str("href"));
    proof {
        assert(href_names.deep_view() =~= seq!["href"@]);
    }
    match select_attrs(full_body_str.as_str(), "[href]", &href_names) {
        Some(rows) => {
            insert_first_attrs(resources, &rows);
        },
        None => {},
    }
    match select_texts(full_body_str.as_str(), "script") {
        Some(texts) => {
            let script = check_script(&texts);
            insert_strings(resources, &script);
        },
        None => {},
    }
}

/// Relies on regex's `Regex::new` and `captures_iter`: the first capture
/// group of each match, in order, depends on the pattern and text alone;
/// `None` reports a pattern that does not compile.
pub uninterp spec fn regex_captures1(pattern: Seq<char>, text: Seq<char>) -> Option<Seq<Seq<char>>>;

/// Relies on regex's `Regex::new` and `captures_iter` to list the first
/// capture group of every match.
#[verifier::external_body]
fn regex_group1(pattern: &str, text: &str) -> (r: Option<Vec<String>>)
    ensures
        r.deep_view() == regex_captures1(pattern@, text@),
{
    let re = regex::Regex::new(pattern).ok()?;
    let mut out = Vec::new();
    for c in re.captures_iter(text) {
        if let Some(m) = c.get(1) {
            out.push(m.as_str().to_string());
        }
    }
    Some(out)
}

/// The anchor-href pattern the link collector matches.
pub open spec fn href_pattern() -> Seq<char> {
    "<a[^>]*href=[\"']([^\"']+)[\"'][^>]*>"@
}

/// Inserts the captured links that do not start an absolute path.
pub open spec fn insert_links(s: Seq<Seq<char>>, cs: Seq<Seq<char>>) -> Seq<Seq<char>>
    decreases cs.len(),
{
    if cs.len() == 0 {
        s
    } else {
        let s2 = if !(cs[0].len() > 0 && cs[0][0] == '/') {
            insert_model(s, cs[0])
        } else {
            s
        };
        insert_links(s2, cs.skip(1))
    }
}

/// What one body line contributes to the collected links.
pub open spec fn href_line_fold(s: Seq<Seq<char>>, line: Seq<char>) -> Seq<Seq<char>> {
    match regex_captures1(href_pattern(), line) {
        Option::Some(cs) => insert_links(s, cs),
        Option::None => s,
    }
}

/// The collected links of every body line, in order.
pub open spec fn href_lines_fold(s: Seq<Seq<char>>, lines: Seq<Seq<char>>) -> Seq<Seq<char>>
    decreases lines.len(),
{
    if lines.len() == 0 {
        s
    } else {
        href_lines_fold(href_line_fold(s, lines[0]), lines.skip(1))
    }
}

/// The external links a body holds: anchors whose `href` does not start
/// with `/`, collected line by line and deduplicated.
pub open spec fn href_links_model(body: Seq<char>) -> Seq<Seq<char>> {
    href_lines_fold(Seq::empty(), split_pat_at(body, " \n"@, 0))
}

/// Collects the external anchor links of a body.
pub fn check_href_links(body: String, proxy_path: &str) -> (r: ResourceSet)
    ensures
        r@ == href_links_model(body@),
{
    let mut collected_links = ResourceSet::new();
    proof {
        vstd::prelude::reveal_strlit(" \n");
    }
    let body_line = split_pat(body.as_str(), " \n");
    let ghost ls = body_line.deep_view();
    let ghost target = href_lines_fold(Seq::empty(), ls);
    let n = body_line.len();
    let mut i: usize = 0;
    proof {
        assert(ls.skip(0) =~= ls);
    }
    while i < n
        invariant
            i <= n,
            n == body_line@.len(),
            ls == body_line.deep_view(),
            ls.len() == n,
            href_lines_fold(collected_links@, ls.skip(i as int)) == target,
        decreases n - i,
    {
        proof {
            assert(ls.skip(i as int)[0] == ls[i as int]);
            assert(ls.skip(i as int).skip(1) =~= ls.skip(i as int + 1));
            assert(ls[i as int] == body_line@[i as int]@);
        }
        match regex_group1(
            "<a[^>]*href=[\"']([^\"']+)[\"'][^>]*>",
            body_line[i].as_str(),
        ) {
            Some(capts) => {
                let ghost cs = capts.deep_view();
                let m = capts.len();
                let mut j: usize = 0;
                proof {
                    assert(cs.skip(0) =~= cs);
                }
                while j < m
                    invariant
                        j <= m,
                        m == capts@.len(),
                        cs == capts.deep_view(),
                        cs.len() == m,
                        i < n == body_line@.len(),
                        ls == body_line.deep_view(),
                        ls[i as int] == body_line@[i as int]@,
                        href_lines_fold(
                            insert_links(collected_links@, cs.skip(j as int)),
                            ls.skip(i as int + 1),
                        ) == target,
                    decreases m - j,
                {
                    proof {
                        assert(cs.skip(j as int)[0] == cs[j as int]);
                        assert(cs.skip(j as int).skip(1) =~= cs.skip(j as int + 1));
                        assert(cs[j as int] == capts@[j as int]@);
                    }
                    let href = &capts[j];
                    if !str_starts_with(href.as_str(), "/") {
                        proof {
                            assert(!(cs[j as int].len() > 0 && cs[j as int][0] == '/')) by {
                                if cs[j as int].len() > 0 && cs[j as int][0] == '/' {
                                    vstd::prelude::reveal_strlit("/");
                                    assert(crate::strutil::is_prefix_of("/"@, cs[j as int]))
                                        by {
                                        assert(cs[j as int].subrange(0, 1) =~= "/"@);
                                    }
                                }
                            }
                        }
                        collected_links.insert(href.clone());
                    } else {
                        proof {
                            vstd::prelude::reveal_strlit("/");
                            assert(cs[j as int].len() > 0 && cs[j as int][0] == '/') by {
                                assert(cs[j as int].subrange(0, 1)[0] == cs[j as int][0]);
                            }
                        }
                    }
                    j = j + 1;
                }
                proof {
                    assert(cs.skip(m as int) =~= Seq::<Seq<char>>::empty());
                }
            },
            None => {},
        }
        i = i + 1;
    }
    proof {
        assert(ls.skip(n as int) =~= Seq::<Seq<char>>::empty());
    }
    collected_links
}

} // verus!
