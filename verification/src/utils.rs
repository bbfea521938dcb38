//! Target resolution: mapping an inbound path to an upstream base URL
//! through the configured route table, with a referer-based fallback
//! for sub-resource requests.
use vstd::prelude::*;

use crate::config::{servers_model, setup_servers, ConfigValue};
use crate::strutil::{clean_url_model, concat_str, str_eq};

verus! {

/// First route-table entry under the given key.
pub open spec fn route_find(m: Seq<(Seq<char>, Seq<char>)>, key: Seq<char>, i: int) -> Option<int>
    decreases m.len() - i,
{
    if i < 0 || i >= m.len() {
        Option::None
    } else if m[i].0 == key {
        Option::Some(i)
    } else {
        route_find(m, key, i + 1)
    }
}

/// The upstream base URL the table maps a path to.
pub open spec fn route_lookup(m: Seq<(Seq<char>, Seq<char>)>, key: Seq<char>) -> Option<Seq<char>> {
    match route_find(m, key, 0) {
        Option::Some(i) => Option::Some(m[i].1),
        Option::None => Option::None,
    }
}

/// Looks a path up in the route table.
pub fn route_get<'a>(servers: &'a Vec<(String, String)>, key: &str) -> (r: Option<&'a String>)
    ensures
        match r {
            Option::Some(v) => route_lookup(servers.deep_view(), key@) == Option::Some(v@),
            Option::None => route_lookup(servers.deep_view(), key@) is None,
        },
{
    let ghost m = servers.deep_view();
    let n = servers.len();
    let mut i: usize = 0;
    while i < n
        invariant
            i <= n,
            n == servers@.len(),
            m == servers.deep_view(),
            m.len() == n,
            route_find(m, key@, 0) == route_find(m, key@, i as int),
        decreases n - i,
    {
        proof {
            assert(m[i as int].0 == servers@[i as int].0@);
            assert(m[i as int].1 == servers@[i as int].1@);
        }
        if str_eq(servers[i].0.as_str(), key) {
            return Some(&servers[i].1);
        }
        i = i + 1;
    }
    None
}

/// The fallback target for a sub-resource: the referer's upstream base,
/// its trailing slash stripped, with the requested sub-path appended.
pub open spec fn resources_ref_model(
    m: Seq<(Seq<char>, Seq<char>)>,
    referer: Seq<char>,
    subpath: Seq<char>,
) -> Option<Seq<char>> {
    match route_lookup(m, referer) {
        Option::Some(host) => Option::Some(clean_url_model(host) + subpath),
        Option::None => Option::None,
    }
}

/// Builds the fallback target URL for a sub-resource request.
pub fn find_resources_refs(referer: &str, subpath: &str, servers: &Vec<(String, String)>) -> (r:
    Option<String>)
    ensures
        r.deep_view() == resources_ref_model(servers.deep_view(), referer@, subpath@),
{
    match route_get(servers, referer) {
        Some(ref_host) => {
            let cleaned = crate::strutil::clean_url(ref_host.as_str());
            Some(concat_str(cleaned.as_str(), subpath))
        },
        None => None,
    }
}

/// Relies on http's `Uri::from_str`: whether a string parses as a URI,
/// and the path of the parsed URI, depend on its characters alone.
pub uninterp spec fn uri_path_of(s: Seq<char>) -> Option<Seq<char>>;

/// Relies on http's `Uri::from_str` to parse a URI and read its path.
#[verifier::external_body]
pub fn parse_uri_path(s: &str) -> (r: Option<String>)
    ensures
        r.deep_view() == uri_path_of(s@),
{
    match s.parse::<http::Uri>() {
        Ok(u) => Some(u.path().to_string()),
        Err(_) => None,
    }
}

/// Where a request goes: an exact route-table match on the request path
/// wins; otherwise the referer is re-parsed as a URI and its path looked
/// up for the sub-resource fallback.
pub open spec fn determine_target_model(
    path_ref: Seq<char>,
    req_path: Seq<char>,
    c: ConfigValue,
) -> Result<Seq<char>, ()> {
    match servers_model(c) {
        Option::None => Result::Err(()),
        Option::Some(m) => match route_lookup(m, req_path) {
            Option::Some(v) => Result::Ok(v),
            Option::None => match uri_path_of(path_ref) {
                Option::None => Result::Err(()),
                Option::Some(rp) => match resources_ref_model(m, rp, req_path) {
                    Option::Some(u) => Result::Ok(u),
                    Option::None => Result::Err(()),
                },
            },
        },
    }
}

/// Resolves the upstream target for a request path and referer.
pub fn determine_target(path_ref: &str, req_path: &str, config: &ConfigValue) -> (r: Result<
    String,
    (),
>)
    ensures
        match r {
            Result::Ok(u) => determine_target_model(path_ref@, req_path@, *config)
                == Result::<Seq<char>, ()>::Ok(u@),
            Result::Err(e) => determine_target_model(path_ref@, req_path@, *config) is Err,
        },
{
    let servers = match setup_servers(config) {
        Some(res) => res,
        None => {
            return Err(());
        },
    };
    match route_get(&servers, req_path) {
        Some(proxy_path) => Ok(proxy_path.clone()),
        None => {
            let ref_path = match parse_uri_path(path_ref) {
                Some(value) => value,
                None => {
                    return Err(());
                },
            };
            match find_resources_refs(ref_path.as_str(), req_path, &servers) {
                Some(u) => Ok(u),
                None => Err(()),
            }
        },
    }
}

/// An exact route-table match on the request path decides the target by
/// itself: the referer plays no part, even when it too would resolve.
pub proof fn lemma_exact_match_wins(
    path_ref1: Seq<char>,
    path_ref2: Seq<char>,
    req_path: Seq<char>,
    c: ConfigValue,
)
    requires
        servers_model(c) is Some,
        route_lookup(servers_model(c).unwrap(), req_path) is Some,
    ensures
        determine_target_model(path_ref1, req_path, c) == determine_target_model(
            path_ref2,
            req_path,
            c,
        ),
        determine_target_model(path_ref1, req_path, c) == Result::<Seq<char>, ()>::Ok(
            route_lookup(servers_model(c).unwrap(), req_path).unwrap(),
        ),
{
}

} // verus!
