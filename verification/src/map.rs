//! The standalone server's route table: a fixed path-to-upstream map,
//! owned by the caller and passed into every lookup.
use vstd::prelude::*;

use crate::strutil::str_eq;
use crate::utils::{resources_ref_model, route_lookup, uri_path_of};

verus! {

/// The built-in route table, one entry per proxied path.
pub fn global_map() -> (r: Vec<(String, String)>)
    ensures
        r.deep_view() =~= seq![
            ("/bastion"@, "https://10.10.176.126/"@),
            ("/app2"@, "https://demoqa.com/"@),
            ("/git"@, "https://github.com/"@),
            ("/simple"@, "http://www.columbia.edu/~fdc/sample.html"@),
            ("/def"@, "https://httpbin.org/"@),
            ("/auth"@, "https://httpbin.org/basic-auth/foo/bar"@),
            ("/art"@, "https://www.luxinyaoportfolio.com/"@),
            ("/rand"@, "https://www.ryanhaskins.com/"@),
        ],
{
    let mut map: Vec<(String, String)> = Vec::new();
    map.push((String::from_str("/bastion"), String::from_str("https://10.10.176.126/")));
    map.push((String::from_str("/app2"), String::from_str("https://demoqa.com/")));
    map.push((String::from_str("/git"), String::from_str("https://github.com/")));
    map.push(
        (String::from_str("/simple"), String::from_str("http://www.columbia.edu/~fdc/sample.html")),
    );
    map.push((String::from_str("/def"), String::from_str("https://httpbin.org/")));
    map.push(
        (String::from_str("/auth"), String::from_str("https://httpbin.org/basic-auth/foo/bar")),
    );
    map.push((String::from_str("/art"), String::from_str("https://www.luxinyaoportfolio.com/")));
    map.push((String::from_str("/rand"), String::from_str("https://www.ryanhaskins.com/")));
    map
}

/// Looks a path up in the route table, returning its upstream URL.
pub fn match_servers(map: &Vec<(String, String)>, path: &str) -> (r: Option<String>)
    ensures
        r.deep_view() == route_lookup(map.deep_view(), path@),
{
    let ghost m = map.deep_view();
    let n = map.len();
    let mut i: usize = 0;
    while i < n
        invariant
            i <= n,
            n == map@.len(),
            m == map.deep_view(),
            m.len() == n,
            crate::utils::route_find(m, path@, 0) == crate::utils::route_find(m, path@, i as int),
        decreases n - i,
    {
        proof {
            assert(m[i as int].0 == map@[i as int].0@);
            assert(m[i as int].1 == map@[i as int].1@);
        }
        if str_eq(map[i].0.as_str(), path) {
            return Some(map[i].1.clone());
        }
        i = i + 1;
    }
    None
}

/// The sub-resource fallback against the fixed route table.
pub fn find_resources_refs(map: &Vec<(String, String)>, referer: &str, subpath: &str) -> (r: Option<
    String,
>)
    ensures
        r.deep_view() == resources_ref_model(map.deep_view(), referer@, subpath@),
{
    match match_servers(map, referer) {
        Some(ref_host) => {
            let cleaned = crate::strutil::clean_url(ref_host.as_str());
            Some(crate::strutil::concat_str(cleaned.as_str(), subpath))
        },
        None => None,
    }
}

/// Where a request to the fixed table goes: paths not starting with `/`
/// or with an unparsable referer are refused; an exact match wins over
/// the referer fallback.
pub open spec fn map_target_model(
    m: Seq<(Seq<char>, Seq<char>)>,
    path_ref: Seq<char>,
    req_path: Seq<char>,
) -> Result<Seq<char>, ()> {
    if req_path.len() > 0 && req_path[0] == '/' {
        match route_lookup(m, req_path) {
            Option::Some(v) => Result::Ok(v),
            Option::None => match uri_path_of(path_ref) {
                Option::None => Result::Err(()),
                Option::Some(rp) => match resources_ref_model(m, rp, req_path) {
                    Option::Some(u) => Result::Ok(u),
                    Option::None => Result::Err(()),
                },
            },
        }
    } else {
        Result::Err(())
    }
}

/// Resolves the upstream target against the fixed route table.
pub fn determine_target(map: &Vec<(String, String)>, path_ref: String, req_path: &str) -> (r:
    Result<String, ()>)
    ensures
        match r {
            Result::Ok(u) => map_target_model(map.deep_view(), path_ref@, req_path@)
                == Result::<Seq<char>, ()>::Ok(u@),
            Result::Err(e) => map_target_model(map.deep_view(), path_ref@, req_path@) is Err,
        },
{
    if req_path.unicode_len() > 0 && req_path.get_char(0) == '/' {
        match match_servers(map, req_path) {
            Some(proxy_path) => Ok(proxy_path),
            None => {
                let ref_path = match crate::utils::parse_uri_path(path_ref.as_str()) {
                    Some(value) => value,
                    None => {
                        return Err(());
                    },
                };
                match find_resources_refs(map, ref_path.as_str(), req_path) {
                    Some(u) => Ok(u),
                    None => Err(()),
                }
            },
        }
    } else {
        Err(())
    }
}

} // verus!
