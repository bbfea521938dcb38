//! Session tracking: flattens the first clause of every `Set-Cookie`
//! header of a response into one forwardable `Cookie` string.
use vstd::prelude::*;

use crate::message::{get_all_headers, header_values, Headers};
use crate::strutil::{char_at, find_char, lemma_char_at_bounds, substring_copy};

verus! {

/// The first `;`-delimited clause of a `Set-Cookie` value.
pub open spec fn first_clause(v: Seq<char>) -> Seq<char> {
    match char_at(v, 0, ';') {
        Option::Some(i) => v.subrange(0, i),
        Option::None => v,
    }
}

/// The session string the clauses of the given values flatten to: each
/// first clause followed by `"; "`.
pub open spec fn clauses_model(vs: Seq<Seq<char>>) -> Seq<char>
    decreases vs.len(),
{
    if vs.len() == 0 {
        Seq::empty()
    } else {
        first_clause(vs[0]) + "; "@ + clauses_model(vs.skip(1))
    }
}

/// What `process_session` returns for a response's headers.
pub open spec fn session_model(h: Seq<(Seq<char>, Seq<char>)>) -> Seq<char> {
    clauses_model(header_values(h, "set-cookie"@))
}

/// Flattens every `Set-Cookie` header of a response into one `Cookie`
/// string: the first clause of each, each followed by `"; "`. No
/// deduplication and no expiry enforcement happen here.
pub fn process_session(headers: &Headers) -> (r: String)
    ensures
        r@ == session_model(headers.deep_view()),
{
    let cookie_headers = get_all_headers(headers, "set-cookie");
    let ghost vs = cookie_headers.deep_view();
    let mut final_cookie = String::new();
    let n = cookie_headers.len();
    let mut i: usize = 0;
    proof {
        assert(vs.skip(0) =~= vs);
        assert(final_cookie@ + clauses_model(vs) =~= clauses_model(vs));
    }
    while i < n
        invariant
            i <= n,
            n == cookie_headers@.len(),
            vs == cookie_headers.deep_view(),
            vs.len() == n,
            final_cookie@ + clauses_model(vs.skip(i as int)) == clauses_model(vs),
        decreases n - i,
    {
        proof {
            assert(vs.skip(i as int)[0] == vs[i as int]);
            assert(vs.skip(i as int).skip(1) =~= vs.skip(i as int + 1));
            assert(vs[i as int] == cookie_headers@[i as int]@);
        }
        let value = &cookie_headers[i];
        let clause = match find_char(value.as_str(), ';') {
            Some(j) => {
                proof {
                    lemma_char_at_bounds(value@, 0, ';');
                }
                substring_copy(value.as_str(), 0, j)
            },
            None => {
                let m = value.as_str().unicode_len();
                proof {
                    assert(value@.subrange(0, m as int) =~= value@);
                }
                substring_copy(value.as_str(), 0, m)
            },
        };
        let ghost f0 = final_cookie@;
        final_cookie.append(clause.as_str());
        final_cookie.append("; ");
        proof {
            assert(final_cookie@ =~= f0 + (first_clause(vs[i as int]) + "; "@));
            assert(f0 + (first_clause(vs[i as int]) + "; "@) + clauses_model(
                vs.skip(i as int + 1),
            ) =~= f0 + (first_clause(vs[i as int]) + "; "@ + clauses_model(vs.skip(i as int + 1))));
        }
        i = i + 1;
    }
    proof {
        assert(vs.skip(n as int) =~= Seq::<Seq<char>>::empty());
        assert(final_cookie@ + clauses_model(vs.skip(n as int)) =~= final_cookie@);
    }
    final_cookie
}

} // verus!
