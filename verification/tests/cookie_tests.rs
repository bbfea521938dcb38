use revproxy::bytes::{ltrim, rtrim, trim};
use revproxy::cookie::{
    parse_max_age, parse_set_cookie, parse_set_cookie_attribute, read_cookies, SameSite,
    SetCookie, SetCookieAttributes,
};

#[test]
fn test_trim() {
    assert_eq!(ltrim(b"abc"), b"abc");
    assert_eq!(ltrim(b"  abc"), b"abc");
    assert_eq!(ltrim(b"abc  "), b"abc  ");
    assert_eq!(ltrim(b"  abc  "), b"abc  ");
    assert_eq!(ltrim(b"  "), b"");
    assert_eq!(ltrim(b""), b"");

    assert_eq!(rtrim(b"abc"), b"abc");
    assert_eq!(rtrim(b"  abc"), b"  abc");
    assert_eq!(rtrim(b"abc  "), b"abc");
    assert_eq!(rtrim(b"  abc  "), b"  abc");
    assert_eq!(rtrim(b"  "), b"");
    assert_eq!(rtrim(b""), b"");

    assert_eq!(trim(b"abc"), b"abc");
    assert_eq!(trim(b"  abc"), b"abc");
    assert_eq!(trim(b"abc  "), b"abc");
    assert_eq!(trim(b"  abc  "), b"abc");
    assert_eq!(trim(b"  "), b"");
    assert_eq!(trim(b""), b"");
}

#[test]
fn test_parse_max_age() {
    assert_eq!(parse_max_age(b"0"), Some(0));
    assert_eq!(parse_max_age(b"123"), Some(123));
    assert_eq!(parse_max_age(b"-123"), Some(0));
    assert_eq!(
        parse_max_age(b"99999999999999999999999999999"),
        Some(u32::MAX)
    );
    assert_eq!(parse_max_age(b"3904515730"), Some(3904515730));
    assert_eq!(parse_max_age(b"4294967295"), Some(u32::MAX));
    assert_eq!(parse_max_age(b"4294967296"), Some(u32::MAX));
    assert_eq!(parse_max_age(b"123abc"), None);
}

#[test]
fn test_parse_set_cookie_attribute() {
    assert_eq!(
        parse_set_cookie_attribute(b"MAX-AGE=123; PATH=/foo/bar; DOMAIN=domain.org; EXPIRES=Wed, 21 Oct 2015 07:28:00 GMT; HTTPONLY; SECURE; SAMESITE=Strict; PARTITIONED", 0),
        SetCookieAttributes{
            max_age: Some(123),
            domain: b"domain.org",
            path: b"/foo/bar",
            same_site: SameSite::Strict,
            secure: true,
            http_only: true,
            partitioned: true,
        }
    );

    assert_eq!(
        parse_set_cookie_attribute(b"max-age=123; path=\"/foo/bar\"; domain=domain.org; expires=Wed, 21 Oct 2015 07:28:00 GMT; httponly; secure; samesite=strict; partitioned", 0),
        SetCookieAttributes{
            max_age: Some(123),
            domain: b"domain.org",
            path: b"/foo/bar",
            same_site: SameSite::Strict,
            secure: true,
            http_only: true,
            partitioned: true,
        }
    );

    assert_eq!(
        parse_set_cookie_attribute(b"Max-Age=abc; Path=/foo/bar; Path=bar; Domain=domain.org; HttpOnly; Secure; SameSite=Strict; Partitioned", 0),
        SetCookieAttributes{
            max_age: None,
            domain: b"domain.org",
            path: b"/foo/bar",
            same_site: SameSite::Strict,
            secure: true,
            http_only: true,
            partitioned: true,
        }
    );

    assert_eq!(
        parse_set_cookie_attribute(b"Max-Age=123; Max-Age=abc; Path=/foo/bar; Path=/bar", 0),
        SetCookieAttributes {
            max_age: Some(123),
            path: b"/bar",
            ..Default::default()
        }
    );

    assert_eq!(
        parse_set_cookie_attribute(b"Max-Age=123; Path=foo/bar; Max-Age = 432 ; ", 0),
        SetCookieAttributes {
            max_age: Some(432),
            ..Default::default()
        }
    );

    assert_eq!(
        parse_set_cookie_attribute(b"Expires=Wed, 21 Oct 2015 07:28:00 GMT; Max-Age=123; ", 0),
        SetCookieAttributes {
            max_age: Some(123),
            ..Default::default()
        }
    );

    assert_eq!(
        parse_set_cookie_attribute(b"Expires=Wed, 21 Oct 2015 07:28:00 GMT;", 0),
        SetCookieAttributes {
            max_age: Some(1445412480),
            ..Default::default()
        }
    );

    assert_eq!(
        parse_set_cookie_attribute(b"Expires=Wed, 21 Oct 2015 07:28:00 GMT;", 2_000_000_000),
        SetCookieAttributes {
            max_age: Some(0),
            ..Default::default()
        }
    );

    assert_eq!(
        parse_set_cookie_attribute(b"Path=", 0),
        SetCookieAttributes {
            max_age: None,
            domain: b"",
            path: b"",
            ..Default::default()
        }
    );

    assert_eq!(
        parse_set_cookie_attribute(b"Max-Age=123; Path=\"/foo/bar Domain=org\"", 0),
        SetCookieAttributes {
            max_age: Some(123),
            path: b"/foo/bar Domain=org",
            ..Default::default()
        }
    );

    assert_eq!(
        parse_set_cookie_attribute(b"Max-Age=123; Path=\"/foo/bar Domain=org", 0),
        SetCookieAttributes {
            max_age: Some(123),
            ..Default::default()
        }
    );
}

#[test]
fn test_parse_set_cookie() {
    assert_eq!(
        parse_set_cookie(b"Path=", 0),
        Some(SetCookie {
            name: b"Path",
            value: b"",
            attrs: Default::default()
        })
    );

    assert_eq!(
        parse_set_cookie(b" Path = abc ", 0),
        Some(SetCookie {
            name: b"Path",
            value: b"abc",
            attrs: Default::default()
        })
    );

    assert_eq!(
        parse_set_cookie(b"Path=/value; Path=/a", 0),
        Some(SetCookie {
            name: b"Path",
            value: b"/value",
            attrs: SetCookieAttributes {
                max_age: None,
                domain: b"",
                path: b"/a",
                ..Default::default()
            },
        })
    );

    assert_eq!(
        parse_set_cookie(b" Path = abc ; Path = /a", 0),
        Some(SetCookie {
            name: b"Path",
            value: b"abc",
            attrs: SetCookieAttributes {
                max_age: None,
                domain: b"",
                path: b"/a",
                ..Default::default()
            },
        })
    );

    assert_eq!(parse_set_cookie(b"", 0), None);
    assert_eq!(parse_set_cookie(b"=; Path=/a", 0), None);
    assert_eq!(parse_set_cookie(b" = ; Path=/a", 0), None);
    assert_eq!(parse_set_cookie(b"; Path=/a", 0), None);
}

#[test]
fn test_cookie_iter() {
    type S = &'static [u8];

    fn collect(data: &[u8]) -> Vec<(&[u8], &[u8])> {
        let mut out = Vec::new();
        let mut iter = read_cookies(data);
        while let Some(pair) = iter.next() {
            out.push(pair);
        }
        out
    }

    assert_eq!(
        collect(b"key=value; key2=value2; key=value"),
        [
            (b"key" as S, b"value" as S),
            (b"key2", b"value2"),
            (b"key", b"value")
        ]
    );

    assert_eq!(
        collect(b" key = value ; key2 = value2 ; key = value "),
        [
            (b"key" as S, b"value" as S),
            (b"key2", b"value2"),
            (b"key", b"value")
        ]
    );

    // A clause without `=` is skipped; later clauses still come out.
    assert_eq!(
        collect(b"junk; a=b; more junk; c=d"),
        [(b"a" as S, b"b" as S), (b"c", b"d")]
    );
    assert_eq!(collect(b" key =  "), [(b"key" as S, b"" as S)]);
    assert_eq!(collect(b"  =  "), [(b"" as S, b"" as S)]);
    assert_eq!(collect(b"="), [(b"" as S, b"" as S)]);
    assert_eq!(collect(b"key"), [] as [(S, S); 0]);
    assert_eq!(collect(b""), [] as [(S, S); 0]);
}

#[test]
fn test_cookie_iter_remaining() {
    let mut iter = read_cookies(b"a=1; b=2");
    assert_eq!(iter.remaining(), b"a=1; b=2");
    assert_eq!(iter.next(), Some((b"a" as &[u8], b"1" as &[u8])));
    assert_eq!(iter.remaining(), b" b=2");

    // Skipped clauses are consumed along with the yielded one.
    let mut iter2 = read_cookies(b"junk; a=b; c=d");
    assert_eq!(iter2.next(), Some((b"a" as &[u8], b"b" as &[u8])));
    assert_eq!(iter2.remaining(), b" c=d");
}
