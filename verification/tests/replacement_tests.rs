use revproxy::cookie_replacement::{
    cookie_replacements, CookieReplacement, CookieReplacementKey, CookieReplacements,
};

fn make_replacements() -> CookieReplacements {
    let mut replacements: CookieReplacements = Vec::new();
    replacements.push(CookieReplacementKey {
        k: CookieReplacement::new(b"name2", b"value2", b"newvalue2!"),
    });
    replacements.push(CookieReplacementKey {
        k: CookieReplacement::new(b"name4", b"value4", b"newvalue4!"),
    });
    replacements
}

fn run(cookies: &[u8], replacements: &CookieReplacements) -> String {
    let mut buffer = Vec::new();
    let modified = cookie_replacements(&mut buffer, cookies, replacements);
    let out = if modified { buffer.as_slice() } else { cookies };
    std::str::from_utf8(out).unwrap().to_string()
}

#[test]
fn test_cookie_replacements() {
    let replacements = make_replacements();

    {
        let rep = &replacements
            .iter()
            .find(|e| e.k.name() == b"name2")
            .unwrap()
            .k;
        assert_eq!(rep.name(), b"name2");
        assert_eq!(rep.value(), b"value2");
        assert_eq!(rep.replacement(), b"newvalue2!");
    }

    assert_eq!(
        run(b"name1=value1; name3=value3", &replacements),
        "name1=value1; name3=value3"
    );

    assert_eq!(
        run(b"name1=value1; name2=value2; name3=value3", &replacements),
        "name1=value1; name2=newvalue2!; name3=value3"
    );

    assert_eq!(
        run(
            b"name1=value1; name2=value2; name3=value3;name2=value2;",
            &replacements
        ),
        "name1=value1; name2=newvalue2!; name3=value3;name2=newvalue2!;"
    );

    assert_eq!(
        run(
            b"name1=value1; name2=value2; name3=value3;name4=value4;",
            &replacements
        ),
        "name1=value1; name2=newvalue2!; name3=value3;name4=newvalue4!;"
    );

    assert_eq!(
        run(
            b"name1=value1; name2=value2; name2=value2; name3=value3;name4=value4;",
            &replacements
        ),
        "name1=value1; name2=newvalue2!; name2=newvalue2!; name3=value3;name4=newvalue4!;"
    );

    assert_eq!(
        run(
            b"name1=value1; name2=value2; name2bis=value2; name3=value3;name4=value4;",
            &replacements
        ),
        "name1=value1; name2=newvalue2!; name2bis=value2; name3=value3;name4=newvalue4!;"
    );

    // without ; terminal
    assert_eq!(
        run(
            b"name1=value1; name2=value2; name2bis=value2; name3=value3;name4=value4",
            &replacements
        ),
        "name1=value1; name2=newvalue2!; name2bis=value2; name3=value3;name4=newvalue4!"
    );

    assert_eq!(
        run(
            b"name1=value1; name2=badvalue; name2bis=value2; name3=value3;name4=value4;",
            &replacements
        ),
        "name1=value1;  name2bis=value2; name3=value3;name4=newvalue4!;"
    );

    assert_eq!(
        run(
            b"name1=value1; name2=value2; name2bis=value2; name3=value3;name4=badvalue;",
            &replacements
        ),
        "name1=value1; name2=newvalue2!; name2bis=value2; name3=value3;"
    );

    assert_eq!(
        run(
            b"name1=value1; name2=value2; name2bis=value2; name3=value3;name4=badvalue",
            &replacements
        ),
        "name1=value1; name2=newvalue2!; name2bis=value2; name3=value3;"
    );

    assert_eq!(
        run(b"name1=value1; name2=value2; name2bis=value2; name3=value3;name4=badvalue;name4=badvalue;", &replacements),
        "name1=value1; name2=newvalue2!; name2bis=value2; name3=value3;"
    );

    assert_eq!(
        run(b"name1=value1; name2=value2; name2bis=value2; name3=value3;name4=badvalue;name4=badvalue", &replacements),
        "name1=value1; name2=newvalue2!; name2bis=value2; name3=value3;"
    );
}

#[test]
fn test_cookie_replacements_skips_clause_without_eq() {
    let replacements = make_replacements();
    assert_eq!(
        run(b"junk; name2=value2", &replacements),
        "junk; name2=newvalue2!"
    );
}

#[test]
fn test_cookie_replacements_no_match_unchanged() {
    let replacements = make_replacements();
    let mut buffer = Vec::new();
    let modified = cookie_replacements(&mut buffer, b"other=value; more=x", &replacements);
    assert!(!modified);
    assert!(buffer.is_empty());
}
