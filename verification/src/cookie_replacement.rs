//! Rewrites `Cookie` headers by name-keyed substitution: a clause whose
//! name and value match a configured entry is replaced, one whose value
//! does not match is dropped, and everything else is kept verbatim.
use vstd::prelude::*;

use crate::bytes::{
    bytes_eq, find_at, find_from, lemma_find_at_bounds, lemma_ws_hi_bounds, lemma_ws_lo_bounds,
    ws_hi, ws_hi_exec, ws_lo, ws_lo_exec, EQ, SEMI,
};

verus! {

/// One configured substitution: name, expected original value and
/// replacement, packed into a single buffer with recorded offsets.
pub struct CookieReplacement {
    buf: Vec<u8>,
    isep: usize,
    ivalue: usize,
}

/// Mathematical image of a replacement entry.
pub ghost struct RepModel {
    pub name: Seq<u8>,
    pub value: Seq<u8>,
    pub replacement: Seq<u8>,
}

impl View for CookieReplacement {
    type V = RepModel;

    closed spec fn view(&self) -> RepModel {
        RepModel {
            name: self.buf@.subrange(0, self.isep as int),
            value: self.buf@.subrange(self.ivalue as int, self.buf@.len() as int),
            replacement: self.buf@.subrange(self.isep + 1, self.ivalue as int),
        }
    }
}

impl CookieReplacement {
    /// The packed buffer lays out `name=replacement value` with the `=`
    /// at `isep` and the expected value starting at `ivalue`.
    pub closed spec fn wf(self) -> bool {
        self.isep < self.ivalue <= self.buf@.len() && self.buf@[self.isep as int] == EQ
    }

    /// Packs the three parts into one owned buffer.
    pub fn new(name: &[u8], value: &[u8], replacement: &[u8]) -> (r: Self)
        requires
            name@.len() + replacement@.len() + value@.len() + 1 <= usize::MAX,
        ensures
            r.wf(),
            r@.name == name@,
            r@.value == value@,
            r@.replacement == replacement@,
    {
        let isep = name.len();
        let ivalue = isep + 1 + replacement.len();
        let mut buf = Vec::<u8>::with_capacity(ivalue + value.len());
        buf.extend_from_slice(name);
        buf.push(EQ);
        buf.extend_from_slice(replacement);
        buf.extend_from_slice(value);
        let r = Self { buf, isep, ivalue };
        proof {
            assert(r@.name =~= name@);
            assert(r@.value =~= value@);
            assert(r@.replacement =~= replacement@);
        }
        r
    }

    /// The `name=replacement` prefix spliced into the rewritten header.
    pub fn as_key_value_cookie(&self) -> (r: &[u8])
        requires
            self.wf(),
        ensures
            r@ == self@.name + seq![EQ] + self@.replacement,
    {
        let r = vstd::slice::slice_subrange(self.buf.as_slice(), 0, self.ivalue);
        proof {
            assert(r@ =~= self@.name + seq![EQ] + self@.replacement);
        }
        r
    }

    /// The cookie name this entry applies to.
    pub fn name(&self) -> (r: &[u8])
        requires
            self.wf(),
        ensures
            r@ == self@.name,
    {
        vstd::slice::slice_subrange(self.buf.as_slice(), 0, self.isep)
    }

    /// The replacement value.
    pub fn replacement(&self) -> (r: &[u8])
        requires
            self.wf(),
        ensures
            r@ == self@.replacement,
    {
        vstd::slice::slice_subrange(self.buf.as_slice(), self.isep + 1, self.ivalue)
    }

    /// The expected original value.
    pub fn value(&self) -> (r: &[u8])
        requires
            self.wf(),
        ensures
            r@ == self@.value,
    {
        vstd::slice::slice_subrange(self.buf.as_slice(), self.ivalue, self.buf.len())
    }
}

/// A replacement entry keyed by its cookie name.
pub struct CookieReplacementKey {
    pub k: CookieReplacement,
}

/// The configured replacement set, looked up by exact name.
pub type CookieReplacements = Vec<CookieReplacementKey>;

/// Every entry of the set is well formed.
pub open spec fn reps_wf(reps: Seq<CookieReplacementKey>) -> bool {
    forall|i: int| 0 <= i < reps.len() ==> (#[trigger] reps[i]).k.wf()
}

/// The models of the entries, in order.
pub open spec fn reps_models(reps: Seq<CookieReplacementKey>) -> Seq<RepModel> {
    reps.map_values(|e: CookieReplacementKey| e.k@)
}

/// The first entry whose name equals `name`.
pub open spec fn find_rep(reps: Seq<RepModel>, name: Seq<u8>) -> Option<RepModel>
    decreases reps.len(),
{
    if reps.len() == 0 {
        Option::None
    } else if reps[0].name == name {
        Option::Some(reps[0])
    } else {
        find_rep(reps.skip(1), name)
    }
}

fn find_replacement<'a>(reps: &'a CookieReplacements, name: &[u8]) -> (r: Option<
    &'a CookieReplacement,
>)
    requires
        reps_wf(reps@),
    ensures
        match r {
            Option::Some(rep) => rep.wf() && Option::Some(rep@) == find_rep(
                reps_models(reps@),
                name@,
            ),
            Option::None => find_rep(reps_models(reps@), name@) is None,
        },
{
    let ghost models = reps_models(reps@);
    proof {
        assert(models.skip(0) =~= models);
    }
    let n = reps.len();
    let mut i: usize = 0;
    while i < n
        invariant
            i <= n,
            n == reps@.len(),
            reps_wf(reps@),
            models == reps_models(reps@),
            find_rep(models, name@) == find_rep(models.skip(i as int), name@),
        decreases n - i,
    {
        proof {
            assert(models.skip(i as int)[0] == reps@[i as int].k@);
            assert(models.skip(i as int).skip(1) =~= models.skip(i as int + 1));
        }
        if bytes_eq(reps[i].k.name(), name) {
            return Some(&reps[i].k);
        }
        i = i + 1;
    }
    proof {
        assert(models.skip(n as int) =~= Seq::<RepModel>::empty());
    }
    None
}

/// The rewritten suffix: scanning clause by clause from `pos` with
/// copy cursor `last`, each clause whose name is configured is
/// substituted (value match) or dropped (value mismatch); clauses
/// without `=` and everything between stay verbatim.
pub open spec fn repl_rest(s: Seq<u8>, reps: Seq<RepModel>, pos: int, last: int) -> Seq<u8>
    decreases s.len() - pos,
    via repl_rest_decreases
{
    let e = match find_at(s, pos, SEMI) {
        Option::Some(j) => j,
        Option::None => s.len() as int,
    };
    let eq = find_at(s, pos, EQ);
    let has_pair = match eq {
        Option::Some(i) => i < e,
        Option::None => false,
    };
    if has_pair {
        let i = eq.unwrap();
        let nl = ws_lo(s, pos, i);
        let nh = ws_hi(s, nl, i);
        let name = s.subrange(nl, nh);
        let vlo = ws_lo(s, i + 1, e);
        let vhi = ws_hi(s, vlo, e);
        match find_rep(reps, name) {
            Option::None => if e < s.len() {
                repl_rest(s, reps, e + 1, last)
            } else {
                s.subrange(last, s.len() as int)
            },
            Option::Some(rep) => if rep.value == s.subrange(vlo, vhi) {
                s.subrange(last, nl) + rep.name + seq![EQ] + rep.replacement + (if e < s.len() {
                    repl_rest(s, reps, e + 1, vhi)
                } else {
                    s.subrange(vhi, s.len() as int)
                })
            } else {
                s.subrange(last, nl) + (if e < s.len() {
                    repl_rest(s, reps, e + 1, e + 1)
                } else {
                    Seq::<u8>::empty()
                })
            },
        }
    } else {
        if e < s.len() {
            repl_rest(s, reps, e + 1, last)
        } else {
            s.subrange(last, s.len() as int)
        }
    }
}

#[via_fn]
proof fn repl_rest_decreases(s: Seq<u8>, reps: Seq<RepModel>, pos: int, last: int) {
    if 0 <= pos <= s.len() {
        lemma_find_at_bounds(s, pos, SEMI);
    } else {
        lemma_find_semi_neg(s, pos);
    }
}

proof fn lemma_find_semi_neg(s: Seq<u8>, pos: int)
    requires
        pos < 0 || pos > s.len(),
    ensures
        find_at(s, pos, SEMI) is None,
{
}

/// Whether some clause name from `pos` on occurs in the replacement set.
pub open spec fn touched(s: Seq<u8>, reps: Seq<RepModel>, pos: int) -> bool
    decreases s.len() - pos,
    via touched_decreases
{
    let e = match find_at(s, pos, SEMI) {
        Option::Some(j) => j,
        Option::None => s.len() as int,
    };
    let eq = find_at(s, pos, EQ);
    let has_pair = match eq {
        Option::Some(i) => i < e,
        Option::None => false,
    };
    let here = has_pair && {
        let i = eq.unwrap();
        let nl = ws_lo(s, pos, i);
        find_rep(reps, s.subrange(nl, ws_hi(s, nl, i))) is Some
    };
    here || (if e < s.len() {
        touched(s, reps, e + 1)
    } else {
        false
    })
}

#[via_fn]
proof fn touched_decreases(s: Seq<u8>, reps: Seq<RepModel>, pos: int) {
    if 0 <= pos <= s.len() {
        lemma_find_at_bounds(s, pos, SEMI);
    } else {
        lemma_find_semi_neg(s, pos);
    }
}

/// The full rewrite of a `Cookie` header under a replacement set.
pub open spec fn replace_model(s: Seq<u8>, reps: Seq<RepModel>) -> Seq<u8> {
    repl_rest(s, reps, 0, 0)
}

proof fn lemma_untouched(s: Seq<u8>, reps: Seq<RepModel>, pos: int, last: int)
    requires
        !touched(s, reps, pos),
    ensures
        repl_rest(s, reps, pos, last) == s.subrange(last, s.len() as int),
    decreases s.len() - pos,
{
    if 0 <= pos <= s.len() {
        lemma_find_at_bounds(s, pos, SEMI);
        let e = match find_at(s, pos, SEMI) {
            Option::Some(j) => j,
            Option::None => s.len() as int,
        };
        if e < s.len() {
            lemma_untouched(s, reps, e + 1, last);
        }
    } else {
        lemma_find_semi_neg(s, pos);
    }
}

/// When no clause name occurs in the replacement set, the rewritten
/// header is the input itself, byte for byte.
pub proof fn lemma_replace_no_match(s: Seq<u8>, reps: Seq<RepModel>)
    requires
        !touched(s, reps, 0),
    ensures
        replace_model(s, reps) == s,
{
    lemma_untouched(s, reps, 0, 0);
    assert(s.subrange(0, s.len() as int) =~= s);
}

/// A clause whose name is configured and whose value equals the
/// entry's expected value is substituted: the bytes before the name are
/// copied verbatim, `name=replacement` is spliced in, and rewriting
/// continues with the copy cursor at the end of the matched value, so
/// the clause's trailing bytes and separator stay verbatim.
pub proof fn lemma_replace_clause_match(s: Seq<u8>, reps: Seq<RepModel>, pos: int, last: int)
    requires
        0 <= pos <= s.len(),
        ({
            let e = match find_at(s, pos, SEMI) {
                Option::Some(j) => j,
                Option::None => s.len() as int,
            };
            find_at(s, pos, EQ) matches Some(i) && i < e && {
                let name = s.subrange(ws_lo(s, pos, i), ws_hi(s, ws_lo(s, pos, i), i));
                find_rep(reps, name) is Some
            }
        }),
    ensures
        ({
            let e = match find_at(s, pos, SEMI) {
                Option::Some(j) => j,
                Option::None => s.len() as int,
            };
            let i = find_at(s, pos, EQ).unwrap();
            let nl = ws_lo(s, pos, i);
            let name = s.subrange(nl, ws_hi(s, nl, i));
            let rep = find_rep(reps, name).unwrap();
            let vlo = ws_lo(s, i + 1, e);
            let vhi = ws_hi(s, vlo, e);
            if rep.value == s.subrange(vlo, vhi) {
                repl_rest(s, reps, pos, last) == s.subrange(last, nl) + rep.name + seq![EQ]
                    + rep.replacement + (if e < s.len() {
                    repl_rest(s, reps, e + 1, vhi)
                } else {
                    s.subrange(vhi, s.len() as int)
                })
            } else {
                repl_rest(s, reps, pos, last) == s.subrange(last, nl) + (if e < s.len() {
                    repl_rest(s, reps, e + 1, e + 1)
                } else {
                    Seq::<u8>::empty()
                })
            }
        }),
{
    lemma_find_at_bounds(s, pos, SEMI);
    lemma_find_at_bounds(s, pos, EQ);
}

/// A clause whose name is not configured, or that carries no `=`, is
/// left for the copy cursor: rewriting just moves past it, so the
/// clause and its separators reach the output verbatim with whatever
/// surrounds them.
pub proof fn lemma_replace_clause_skip(s: Seq<u8>, reps: Seq<RepModel>, pos: int, last: int)
    requires
        0 <= pos <= s.len(),
        ({
            let e = match find_at(s, pos, SEMI) {
                Option::Some(j) => j,
                Option::None => s.len() as int,
            };
            match find_at(s, pos, EQ) {
                Option::Some(i) => i >= e || {
                    let name = s.subrange(ws_lo(s, pos, i), ws_hi(s, ws_lo(s, pos, i), i));
                    find_rep(reps, name) is None
                },
                Option::None => true,
            }
        }),
    ensures
        ({
            let e = match find_at(s, pos, SEMI) {
                Option::Some(j) => j,
                Option::None => s.len() as int,
            };
            repl_rest(s, reps, pos, last) == if e < s.len() {
                repl_rest(s, reps, e + 1, last)
            } else {
                s.subrange(last, s.len() as int)
            }
        }),
{
    lemma_find_at_bounds(s, pos, SEMI);
    lemma_find_at_bounds(s, pos, EQ);
}

/// Rewrites the cookies into `buffer` and says whether any clause name
/// matched; when none did, the header needs no rewrite and `buffer`
/// stays empty.
pub fn cookie_replacements(
    buffer: &mut Vec<u8>,
    cookies: &[u8],
    replacements: &CookieReplacements,
) -> (modified: bool)
    requires
        reps_wf(replacements@),
    ensures
        modified == touched(cookies@, reps_models(replacements@), 0),
        modified ==> final(buffer)@ == replace_model(cookies@, reps_models(replacements@)),
        !modified ==> final(buffer)@.len() == 0 && replace_model(
            cookies@,
            reps_models(replacements@),
        ) == cookies@,
{
    buffer.clear();
    let ghost rv = reps_models(replacements@);
    let n = cookies.len();
    let mut pos: usize = 0;
    let mut last: usize = 0;
    let mut done = false;
    while !done
        invariant
            last <= n,
            pos <= n,
            !done ==> last <= pos,
            n == cookies@.len(),
            reps_wf(replacements@),
            rv == reps_models(replacements@),
            !done ==> buffer@ + repl_rest(cookies@, rv, pos as int, last as int) == replace_model(
                cookies@,
                rv,
            ),
            !done ==> touched(cookies@, rv, 0) == (last != 0 || touched(cookies@, rv, pos as int)),
            done ==> buffer@ + cookies@.subrange(last as int, n as int) == replace_model(
                cookies@,
                rv,
            ),
            done ==> touched(cookies@, rv, 0) == (last != 0),
            last == 0 ==> buffer@.len() == 0,
        decreases n - pos + (if done {
            0int
        } else {
            1int
        }),
    {
        let ghost s0 = cookies@;
        let ghost pos0 = pos as int;
        let ghost last0 = last as int;
        proof {
            lemma_find_at_bounds(cookies@, pos as int, SEMI);
            lemma_find_at_bounds(cookies@, pos as int, EQ);
        }
        let e: usize = match find_from(cookies, pos, SEMI) {
            Some(j) => j,
            None => n,
        };
        let mut has_pair = false;
        let mut eq_at: usize = 0;
        match find_from(cookies, pos, EQ) {
            Some(i) => {
                if i < e {
                    has_pair = true;
                    eq_at = i;
                }
            },
            None => {},
        }
        if has_pair {
            let i = eq_at;
            proof {
                lemma_ws_lo_bounds(cookies@, pos as int, i as int);
            }
            let nl = ws_lo_exec(cookies, pos, i);
            proof {
                lemma_ws_hi_bounds(cookies@, nl as int, i as int);
            }
            let nh = ws_hi_exec(cookies, nl, i);
            let name = vstd::slice::slice_subrange(cookies, nl, nh);
            proof {
                lemma_ws_lo_bounds(cookies@, i + 1, e as int);
            }
            let vlo = ws_lo_exec(cookies, i + 1, e);
            proof {
                lemma_ws_hi_bounds(cookies@, vlo as int, e as int);
            }
            let vhi = ws_hi_exec(cookies, vlo, e);
            match find_replacement(replacements, name) {
                None => {},
                Some(rep) => {
                    let ghost buf0 = buffer@;
                    buffer.extend_from_slice(vstd::slice::slice_subrange(cookies, last, nl));
                    let value = vstd::slice::slice_subrange(cookies, vlo, vhi);
                    if bytes_eq(value, rep.value()) {
                        buffer.extend_from_slice(rep.as_key_value_cookie());
                        proof {
                            assert(repl_rest(s0, rv, pos0, last0) == s0.subrange(
                                last0,
                                nl as int,
                            ) + rep@.name + seq![EQ] + rep@.replacement + (if (e as int)
                                < s0.len() {
                                repl_rest(s0, rv, e + 1, vhi as int)
                            } else {
                                s0.subrange(vhi as int, s0.len() as int)
                            }));
                            if (e as int) < s0.len() {
                                assert(buffer@ + repl_rest(s0, rv, e + 1, vhi as int) =~= buf0
                                    + repl_rest(s0, rv, pos0, last0));
                            } else {
                                assert(buffer@ + s0.subrange(vhi as int, s0.len() as int) =~= buf0
                                    + repl_rest(s0, rv, pos0, last0));
                            }
                        }
                        last = vhi;
                    } else {
                        proof {
                            assert(repl_rest(s0, rv, pos0, last0) == s0.subrange(
                                last0,
                                nl as int,
                            ) + (if (e as int) < s0.len() {
                                repl_rest(s0, rv, e + 1, e + 1)
                            } else {
                                Seq::<u8>::empty()
                            }));
                            if (e as int) < s0.len() {
                                assert(buffer@ + repl_rest(s0, rv, e + 1, e + 1) =~= buf0
                                    + repl_rest(s0, rv, pos0, last0));
                            } else {
                                assert(buffer@ + s0.subrange(s0.len() as int, s0.len() as int)
                                    =~= buf0 + repl_rest(s0, rv, pos0, last0));
                            }
                        }
                        last = if e < n {
                            e + 1
                        } else {
                            n
                        };
                    }
                },
            }
        }
        if e < n {
            pos = e + 1;
        } else {
            done = true;
        }
    }
    if last == 0 {
        proof {
            lemma_untouched(cookies@, rv, 0, 0);
            assert(cookies@.subrange(0, n as int) =~= cookies@);
        }
        false
    } else {
        buffer.extend_from_slice(vstd::slice::slice_subrange(cookies, last, n));
        true
    }
}

} // verus!
