//! The proxy's image of HTTP messages: method, URI, an ordered header
//! list with lower-cased names, and a byte body. The transport keeps the
//! real wire types; every pipeline decision is made on these values.
use vstd::prelude::*;

verus! {

/// An ordered list of (name, value) headers; names are stored lower-cased.
pub type Headers = Vec<(String, String)>;

/// Mathematical image of a request.
pub ghost struct RequestModel {
    pub method: Seq<char>,
    pub uri: Seq<char>,
    pub headers: Seq<(Seq<char>, Seq<char>)>,
    pub body: Seq<u8>,
}

/// A request as the pipeline rebuilds it before forwarding.
pub struct HttpRequest {
    pub method: String,
    pub uri: String,
    pub headers: Headers,
    pub body: Vec<u8>,
}

impl View for HttpRequest {
    type V = RequestModel;

    open spec fn view(&self) -> RequestModel {
        RequestModel {
            method: self.method@,
            uri: self.uri@,
            headers: self.headers.deep_view(),
            body: self.body.deep_view(),
        }
    }
}

/// Mathematical image of a response.
pub ghost struct ResponseModel {
    pub status: u16,
    pub headers: Seq<(Seq<char>, Seq<char>)>,
    pub body: Seq<u8>,
}

/// A response as the pipeline inspects and rewrites it.
pub struct HttpResponse {
    pub status: u16,
    pub headers: Headers,
    pub body: Vec<u8>,
}

impl View for HttpResponse {
    type V = ResponseModel;

    open spec fn view(&self) -> ResponseModel {
        ResponseModel {
            status: self.status,
            headers: self.headers.deep_view(),
            body: self.body.deep_view(),
        }
    }
}

/// First header with the given (lower-cased) name, from index `i` on.
pub open spec fn header_find(h: Seq<(Seq<char>, Seq<char>)>, name: Seq<char>, i: int) -> Option<
    int,
>
    decreases h.len() - i,
{
    if i < 0 || i >= h.len() {
        Option::None
    } else if h[i].0 == name {
        Option::Some(i)
    } else {
        header_find(h, name, i + 1)
    }
}

/// The headers with the given name removed.
pub open spec fn header_drop(h: Seq<(Seq<char>, Seq<char>)>, name: Seq<char>) -> Seq<(
    Seq<char>,
    Seq<char>,
)>
    decreases h.len(),
{
    if h.len() == 0 {
        Seq::empty()
    } else if h[0].0 == name {
        header_drop(h.skip(1), name)
    } else {
        seq![h[0]] + header_drop(h.skip(1), name)
    }
}

/// The values of every header with the given name, in order.
pub open spec fn header_values(h: Seq<(Seq<char>, Seq<char>)>, name: Seq<char>) -> Seq<Seq<char>>
    decreases h.len(),
{
    if h.len() == 0 {
        Seq::empty()
    } else if h[0].0 == name {
        seq![h[0].1] + header_values(h.skip(1), name)
    } else {
        header_values(h.skip(1), name)
    }
}

/// The value of the first header with the given name.
pub fn get_header<'a>(headers: &'a Headers, name: &str) -> (r: Option<&'a String>)
    ensures
        match r {
            Option::Some(v) => {
                &&& header_find(headers.deep_view(), name@, 0) is Some
                &&& v@ == headers.deep_view()[header_find(headers.deep_view(), name@, 0).unwrap()].1
            },
            Option::None => header_find(headers.deep_view(), name@, 0) is None,
        },
{
    let ghost h = headers.deep_view();
    let n = headers.len();
    let mut i: usize = 0;
    while i < n
        invariant
            i <= n,
            n == headers@.len(),
            h == headers.deep_view(),
            h.len() == n,
            header_find(h, name@, 0) == header_find(h, name@, i as int),
        decreases n - i,
    {
        proof {
            assert(h[i as int].0 == headers@[i as int].0@);
        }
        if crate::strutil::str_eq(headers[i].0.as_str(), name) {
            return Some(&headers[i].1);
        }
        i = i + 1;
    }
    None
}

/// Every value carried by headers of the given name, in order.
pub fn get_all_headers<'a>(headers: &'a Headers, name: &str) -> (r: Vec<String>)
    ensures
        r.deep_view() == header_values(headers.deep_view(), name@),
{
    let ghost h = headers.deep_view();
    let n = headers.len();
    let mut out: Vec<String> = Vec::new();
    let mut i: usize = 0;
    proof {
        assert(h.skip(0) =~= h);
        assert(out.deep_view() =~= Seq::<Seq<char>>::empty());
        assert(out.deep_view() + header_values(h, name@) =~= header_values(h, name@));
    }
    while i < n
        invariant
            i <= n,
            n == headers@.len(),
            h == headers.deep_view(),
            h.len() == n,
            out.deep_view() + header_values(h.skip(i as int), name@) == header_values(h, name@),
        decreases n - i,
    {
        proof {
            assert(h.skip(i as int)[0] == h[i as int]);
            assert(h.skip(i as int).skip(1) =~= h.skip(i as int + 1));
            assert(h[i as int].0 == headers@[i as int].0@);
            assert(h[i as int].1 == headers@[i as int].1@);
        }
        if crate::strutil::str_eq(headers[i].0.as_str(), name) {
            let v = headers[i].1.clone();
            let ghost dv0 = out.deep_view();
            let ghost vv = v@;
            out.push(v);
            proof {
                assert(out.deep_view() =~= dv0 + seq![vv]);
                assert(dv0 + seq![vv] + header_values(h.skip(i as int + 1), name@) =~= dv0 + (
                seq![vv] + header_values(h.skip(i as int + 1), name@)));
            }
        }
        i = i + 1;
    }
    proof {
        assert(h.skip(n as int) =~= Seq::<(Seq<char>, Seq<char>)>::empty());
        assert(out.deep_view() + header_values(h.skip(n as int), name@) =~= out.deep_view());
    }
    out
}

/// Replaces every header of the given name with the single given value,
/// appended at the end; reports whether the name was present.
pub fn insert_header(headers: &mut Headers, name: &str, value: String) -> (was: bool)
    ensures
        final(headers).deep_view() == header_drop(old(headers).deep_view(), name@) + seq![
            (name@, value@),
        ],
        was == (header_find(old(headers).deep_view(), name@, 0) is Some),
{
    let ghost h = old(headers).deep_view();
    let n = headers.len();
    let mut out: Headers = Vec::new();
    let mut was = false;
    let mut i: usize = 0;
    proof {
        assert(h.skip(0) =~= h);
        assert(out.deep_view() =~= Seq::<(Seq<char>, Seq<char>)>::empty());
        assert(out.deep_view() + header_drop(h, name@) =~= header_drop(h, name@));
    }
    while i < n
        invariant
            i <= n,
            n == headers@.len(),
            headers == old(headers),
            h == headers.deep_view(),
            h.len() == n,
            out.deep_view() + header_drop(h.skip(i as int), name@) == header_drop(h, name@),
            was == (header_find(h, name@, 0) is Some) || (!was && header_find(h, name@, i as int)
                == header_find(h, name@, 0)),
            !was ==> header_find(h, name@, i as int) == header_find(h, name@, 0),
            was ==> header_find(h, name@, 0) is Some,
        decreases n - i,
    {
        proof {
            assert(h.skip(i as int)[0] == h[i as int]);
            assert(h.skip(i as int).skip(1) =~= h.skip(i as int + 1));
            assert(h[i as int].0 == headers@[i as int].0@);
            assert(h[i as int].1 == headers@[i as int].1@);
        }
        if crate::strutil::str_eq(headers[i].0.as_str(), name) {
            was = true;
        } else {
            let pair = (headers[i].0.clone(), headers[i].1.clone());
            let ghost dv0 = out.deep_view();
            let ghost pv = (pair.0@, pair.1@);
            out.push(pair);
            proof {
                assert(out.deep_view() =~= dv0 + seq![pv]);
                assert(dv0 + seq![pv] + header_drop(h.skip(i as int + 1), name@) =~= dv0 + (
                seq![pv] + header_drop(h.skip(i as int + 1), name@)));
            }
        }
        i = i + 1;
    }
    proof {
        assert(h.skip(n as int) =~= Seq::<(Seq<char>, Seq<char>)>::empty());
    }
    let nm = String::from_str(name);
    let ghost dv0 = out.deep_view();
    out.push((nm, value));
    proof {
        assert(out.deep_view() =~= dv0 + seq![(name@, value@)]);
        assert(dv0 =~= header_drop(h, name@));
    }
    *headers = out;
    was
}

} // verus!
