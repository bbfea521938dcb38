//! The configuration document as the core sees it: a tree of tables and
//! text values, queried by key. Reading and decoding the on-disk file is
//! the host program's job; the three recognized sections are decoded
//! here, and a missing or malformed section degrades to `None`.
use vstd::prelude::*;

use crate::basic::{CredModel, ServerCredentials};
use crate::strutil::{clean_url, clean_url_model, str_eq};

verus! {

/// One node of the configuration document.
pub enum ConfigValue {
    Text(String),
    Table(Vec<(String, ConfigValue)>),
    Other,
}

/// First value under the given key of a table, in entry order.
pub open spec fn tbl_get(entries: Seq<(String, ConfigValue)>, key: Seq<char>) -> Option<
    ConfigValue,
>
    decreases entries.len(),
{
    if entries.len() == 0 {
        Option::None
    } else if entries[0].0@ == key {
        Option::Some(entries[0].1)
    } else {
        tbl_get(entries.skip(1), key)
    }
}

impl ConfigValue {
    /// The value under `key`, when this node is a table that has one.
    pub open spec fn spec_get(self, key: Seq<char>) -> Option<ConfigValue> {
        match self {
            ConfigValue::Table(t) => tbl_get(t@, key),
            _ => Option::None,
        }
    }

    /// The text of this node, when it holds text.
    pub open spec fn spec_as_str(self) -> Option<Seq<char>> {
        match self {
            ConfigValue::Text(s) => Option::Some(s@),
            _ => Option::None,
        }
    }

    /// Looks `key` up in this node.
    pub fn get<'a>(&'a self, key: &str) -> (r: Option<&'a ConfigValue>)
        ensures
            match r {
                Option::Some(v) => self.spec_get(key@) == Option::Some(*v),
                Option::None => self.spec_get(key@) is None,
            },
    {
        match self {
            ConfigValue::Table(entries) => {
                let ghost es = entries@;
                proof {
                    assert(self.spec_get(key@) == tbl_get(es, key@));
                    assert(es.skip(0) =~= es);
                }
                let n = entries.len();
                let mut i: usize = 0;
                while i < n
                    invariant
                        i <= n,
                        n == es.len(),
                        es == entries@,
                        self.spec_get(key@) == tbl_get(es, key@),
                        tbl_get(es, key@) == tbl_get(es.skip(i as int), key@),
                    decreases n - i,
                {
                    proof {
                        assert(es.skip(i as int)[0] == es[i as int]);
                        assert(es.skip(i as int).skip(1) =~= es.skip(i as int + 1));
                    }
                    if str_eq(entries[i].0.as_str(), key) {
                        return Some(&entries[i].1);
                    }
                    i = i + 1;
                }
                proof {
                    assert(es.skip(n as int) =~= Seq::<(String, ConfigValue)>::empty());
                }
                None
            },
            _ => None,
        }
    }

    /// Reads this node as text.
    pub fn as_str<'a>(&'a self) -> (r: Option<&'a String>)
        ensures
            match r {
                Option::Some(s) => self.spec_as_str() == Option::Some(s@),
                Option::None => self.spec_as_str() is None,
            },
    {
        match self {
            ConfigValue::Text(s) => Some(s),
            _ => None,
        }
    }
}

/// The route table the `redirections` section denotes: every entry in
/// order, a non-text value becoming the empty URL.
pub open spec fn servers_entries(entries: Seq<(String, ConfigValue)>) -> Seq<(
    Seq<char>,
    Seq<char>,
)>
    decreases entries.len(),
{
    if entries.len() == 0 {
        Seq::empty()
    } else {
        let v = match entries[0].1.spec_as_str() {
            Option::Some(s) => s,
            Option::None => Seq::empty(),
        };
        seq![(entries[0].0@, v)] + servers_entries(entries.skip(1))
    }
}

/// What `setup_servers` returns: the decoded `redirections` table, or
/// `None` when the section is missing or not a table.
pub open spec fn servers_model(c: ConfigValue) -> Option<Seq<(Seq<char>, Seq<char>)>> {
    match c.spec_get("redirections"@) {
        Option::Some(v) => match v {
            ConfigValue::Table(t) => Option::Some(servers_entries(t@)),
            _ => Option::None,
        },
        Option::None => Option::None,
    }
}

/// Decodes the `redirections` section into the route table.
pub fn setup_servers(config: &ConfigValue) -> (r: Option<Vec<(String, String)>>)
    ensures
        match r {
            Option::Some(v) => servers_model(*config) == Option::Some(v.deep_view()),
            Option::None => servers_model(*config) is None,
        },
{
    let t = match config.get("redirections") {
        Some(v) => v,
        None => {
            return None;
        },
    };
    let entries = match t {
        ConfigValue::Table(e) => e,
        _ => {
            return None;
        },
    };
    let ghost es = entries@;
    let n = entries.len();
    let mut out: Vec<(String, String)> = Vec::new();
    let mut i: usize = 0;
    proof {
        assert(es.skip(0) =~= es);
        assert(out.deep_view() =~= Seq::<(Seq<char>, Seq<char>)>::empty());
        assert(out.deep_view() + servers_entries(es) =~= servers_entries(es));
    }
    while i < n
        invariant
            i <= n,
            n == es.len(),
            es == entries@,
            out.deep_view() + servers_entries(es.skip(i as int)) == servers_entries(es),
        decreases n - i,
    {
        proof {
            assert(es.skip(i as int)[0] == es[i as int]);
            assert(es.skip(i as int).skip(1) =~= es.skip(i as int + 1));
        }
        let key = entries[i].0.clone();
        let value = match entries[i].1.as_str() {
            Some(s) => s.clone(),
            None => String::new(),
        };
        let ghost dv0 = out.deep_view();
        let ghost pv = (key@, value@);
        out.push((key, value));
        proof {
            assert(out.deep_view() =~= dv0 + seq![pv]);
            assert(dv0 + seq![pv] + servers_entries(es.skip(i as int + 1)) =~= dv0 + (seq![pv]
                + servers_entries(es.skip(i as int + 1))));
        }
        i = i + 1;
    }
    proof {
        assert(es.skip(n as int) =~= Seq::<(String, ConfigValue)>::empty());
        assert(out.deep_view() + servers_entries(es.skip(n as int)) =~= out.deep_view());
    }
    Some(out)
}

/// The text under `key` of a table node, if both exist.
pub open spec fn spec_get_str(v: ConfigValue, key: Seq<char>) -> Option<Seq<char>> {
    match v.spec_get(key) {
        Option::Some(x) => x.spec_as_str(),
        Option::None => Option::None,
    }
}

/// The credential entries the `basic` section denotes; an entry missing
/// any of realm, username or password refuses the whole section.
pub open spec fn basic_entries(entries: Seq<(String, ConfigValue)>) -> Option<Seq<(
    Seq<char>,
    CredModel,
)>>
    decreases entries.len(),
{
    if entries.len() == 0 {
        Option::Some(Seq::empty())
    } else {
        let info = entries[0].1;
        let r = spec_get_str(info, "realm"@);
        let u = spec_get_str(info, "username"@);
        let p = spec_get_str(info, "password"@);
        if r is Some && u is Some && p is Some {
            match basic_entries(entries.skip(1)) {
                Option::Some(rest) => Option::Some(
                    seq![
                        (
                            entries[0].0@,
                            CredModel {
                                realm: r.unwrap(),
                                username: u.unwrap(),
                                password: p.unwrap(),
                            },
                        ),
                    ] + rest,
                ),
                Option::None => Option::None,
            }
        } else {
            Option::None
        }
    }
}

/// What `setup_basic` returns for a document.
pub open spec fn basic_model(c: ConfigValue) -> Option<Seq<(Seq<char>, CredModel)>> {
    match c.spec_get("basic"@) {
        Option::Some(v) => match v {
            ConfigValue::Table(t) => basic_entries(t@),
            _ => Option::None,
        },
        Option::None => Option::None,
    }
}

/// Decodes the `basic` section into path-keyed credentials.
pub fn setup_basic(config: &ConfigValue) -> (r: Option<Vec<(String, ServerCredentials)>>)
    ensures
        match r {
            Option::Some(v) => basic_model(*config) == Option::Some(v.deep_view()),
            Option::None => basic_model(*config) is None,
        },
{
    let t = match config.get("basic") {
        Some(v) => v,
        None => {
            return None;
        },
    };
    let entries = match t {
        ConfigValue::Table(e) => e,
        _ => {
            return None;
        },
    };
    let ghost es = entries@;
    let n = entries.len();
    let mut out: Vec<(String, ServerCredentials)> = Vec::new();
    let mut i: usize = 0;
    proof {
        assert(es.skip(0) =~= es);
        assert(out.deep_view() =~= Seq::<(Seq<char>, CredModel)>::empty());
    }
    while i < n
        invariant
            i <= n,
            n == es.len(),
            es == entries@,
            basic_model(*config) == basic_entries(es),
            match basic_entries(es.skip(i as int)) {
                Option::Some(rest) => basic_entries(es) == Option::Some(
                    out.deep_view() + rest,
                ),
                Option::None => basic_entries(es) is None,
            },
        decreases n - i,
    {
        proof {
            assert(es.skip(i as int)[0] == es[i as int]);
            assert(es.skip(i as int).skip(1) =~= es.skip(i as int + 1));
        }
        let info = &entries[i].1;
        let realm = match info.get("realm") {
            Some(v) => match v.as_str() {
                Some(s) => s,
                None => {
                    return None;
                },
            },
            None => {
                return None;
            },
        };
        let username = match info.get("username") {
            Some(v) => match v.as_str() {
                Some(s) => s,
                None => {
                    return None;
                },
            },
            None => {
                return None;
            },
        };
        let password = match info.get("password") {
            Some(v) => match v.as_str() {
                Some(s) => s,
                None => {
                    return None;
                },
            },
            None => {
                return None;
            },
        };
        let credential = ServerCredentials::new(realm.as_str(), username.as_str(), password.as_str());
        let key = entries[i].0.clone();
        let ghost dv0 = out.deep_view();
        let ghost pv = (key@, credential@);
        out.push((key, credential));
        proof {
            assert(out.deep_view() =~= dv0 + seq![pv]);
            if let Some(rest) = basic_entries(es.skip(i as int + 1)) {
                assert(dv0 + seq![pv] + rest =~= dv0 + (seq![pv] + rest));
            }
        }
        i = i + 1;
    }
    proof {
        assert(es.skip(n as int) =~= Seq::<(String, ConfigValue)>::empty());
        assert(out.deep_view() + Seq::<(Seq<char>, CredModel)>::empty() =~= out.deep_view());
    }
    Some(out)
}

/// The (field, value) pairs of one form entry; non-text values are skipped.
pub open spec fn form_fields(entries: Seq<(String, ConfigValue)>) -> Seq<(Seq<char>, Seq<char>)>
    decreases entries.len(),
{
    if entries.len() == 0 {
        Seq::empty()
    } else {
        match entries[0].1.spec_as_str() {
            Option::Some(s) => seq![(entries[0].0@, s)] + form_fields(entries.skip(1)),
            Option::None => form_fields(entries.skip(1)),
        }
    }
}

/// The form entries of the `form` section: one per table-valued entry,
/// keyed by the cleaned path.
pub open spec fn form_entries(entries: Seq<(String, ConfigValue)>) -> Seq<(
    Seq<char>,
    Seq<(Seq<char>, Seq<char>)>,
)>
    decreases entries.len(),
{
    if entries.len() == 0 {
        Seq::empty()
    } else {
        match entries[0].1 {
            ConfigValue::Table(inner) => seq![(clean_url_model(entries[0].0@), form_fields(inner@))]
                + form_entries(entries.skip(1)),
            _ => form_entries(entries.skip(1)),
        }
    }
}

/// What `setup_form` returns: the decoded `form` section, or `None`
/// when it is missing, not a table, or decodes to nothing.
pub open spec fn form_model(c: ConfigValue) -> Option<Seq<(Seq<char>, Seq<(Seq<char>, Seq<char>)>)>> {
    match c.spec_get("form"@) {
        Option::Some(v) => match v {
            ConfigValue::Table(t) => if form_entries(t@).len() == 0 {
                Option::None
            } else {
                Option::Some(form_entries(t@))
            },
            _ => Option::None,
        },
        Option::None => Option::None,
    }
}

/// Decodes one form entry's fields.
fn form_entry_fields(inner: &Vec<(String, ConfigValue)>) -> (r: Vec<(String, String)>)
    ensures
        r.deep_view() == form_fields(inner@),
{
    let ghost es = inner@;
    let n = inner.len();
    let mut out: Vec<(String, String)> = Vec::new();
    let mut i: usize = 0;
    proof {
        assert(es.skip(0) =~= es);
        assert(out.deep_view() =~= Seq::<(Seq<char>, Seq<char>)>::empty());
        assert(out.deep_view() + form_fields(es) =~= form_fields(es));
    }
    while i < n
        invariant
            i <= n,
            n == es.len(),
            es == inner@,
            out.deep_view() + form_fields(es.skip(i as int)) == form_fields(es),
        decreases n - i,
    {
        proof {
            assert(es.skip(i as int)[0] == es[i as int]);
            assert(es.skip(i as int).skip(1) =~= es.skip(i as int + 1));
        }
        match inner[i].1.as_str() {
            Some(v) => {
                let key = inner[i].0.clone();
                let value = v.clone();
                let ghost dv0 = out.deep_view();
                let ghost pv = (key@, value@);
                out.push((key, value));
                proof {
                    assert(out.deep_view() =~= dv0 + seq![pv]);
                    assert(dv0 + seq![pv] + form_fields(es.skip(i as int + 1)) =~= dv0 + (
                    seq![pv] + form_fields(es.skip(i as int + 1))));
                }
            },
            None => {},
        }
        i = i + 1;
    }
    proof {
        assert(es.skip(n as int) =~= Seq::<(String, ConfigValue)>::empty());
        assert(out.deep_view() + form_fields(es.skip(n as int)) =~= out.deep_view());
    }
    out
}

/// Decodes the `form` section into path-keyed field lists.
pub fn setup_form(config: &ConfigValue) -> (r: Option<Vec<(String, Vec<(String, String)>)>>)
    ensures
        match r {
            Option::Some(v) => form_model(*config) == Option::Some(v.deep_view()),
            Option::None => form_model(*config) is None,
        },
{
    let t = match config.get("form") {
        Some(v) => v,
        None => {
            return None;
        },
    };
    let entries = match t {
        ConfigValue::Table(e) => e,
        _ => {
            return None;
        },
    };
    let ghost es = entries@;
    let n = entries.len();
    let mut out: Vec<(String, Vec<(String, String)>)> = Vec::new();
    let mut i: usize = 0;
    proof {
        assert(es.skip(0) =~= es);
        assert(out.deep_view() =~= Seq::<(Seq<char>, Seq<(Seq<char>, Seq<char>)>)>::empty());
        assert(out.deep_view() + form_entries(es) =~= form_entries(es));
    }
    while i < n
        invariant
            i <= n,
            n == es.len(),
            es == entries@,
            out.deep_view() + form_entries(es.skip(i as int)) == form_entries(es),
        decreases n - i,
    {
        proof {
            assert(es.skip(i as int)[0] == es[i as int]);
            assert(es.skip(i as int).skip(1) =~= es.skip(i as int + 1));
        }
        match &entries[i].1 {
            ConfigValue::Table(inner) => {
                let fields = form_entry_fields(inner);
                let path = clean_url(entries[i].0.as_str());
                let ghost dv0 = out.deep_view();
                let ghost pv = (path@, fields.deep_view());
                out.push((path, fields));
                proof {
                    assert(out.deep_view() =~= dv0 + seq![pv]);
                    assert(dv0 + seq![pv] + form_entries(es.skip(i as int + 1)) =~= dv0 + (
                    seq![pv] + form_entries(es.skip(i as int + 1))));
                }
            },
            _ => {},
        }
        i = i + 1;
    }
    proof {
        assert(es.skip(n as int) =~= Seq::<(String, ConfigValue)>::empty());
        assert(out.deep_view() + form_entries(es.skip(n as int)) =~= out.deep_view());
    }
    if out.is_empty() {
        proof {
            assert(form_entries(es).len() == 0);
        }
        return None;
    }
    Some(out)
}

} // verus!
