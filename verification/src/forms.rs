//! Form-based login: scrapes a login form out of a challenge response
//! body, fills it from configuration and the form's own pre-filled
//! inputs, and plans the submission.
use vstd::prelude::*;

use crate::config::{form_model, setup_form, ConfigValue};
use crate::scrape::{scraped_attrs, select_attrs};
use crate::strutil::{concat_str, lower_of, lowercase, str_eq};

verus! {

/// One scraped `<input>` element.
#[derive(Debug)]
pub struct Input {
    id: String,
    types: String,
    pub name: String,
    value: String,
}

/// Mathematical image of a scraped input.
pub ghost struct InputModel {
    pub id: Seq<char>,
    pub types: Seq<char>,
    pub name: Seq<char>,
    pub value: Seq<char>,
}

impl View for Input {
    type V = InputModel;

    closed spec fn view(&self) -> InputModel {
        InputModel { id: self.id@, types: self.types@, name: self.name@, value: self.value@ }
    }
}

impl DeepView for Input {
    type V = InputModel;

    open spec fn deep_view(&self) -> InputModel {
        self.view()
    }
}

/// One scraped `<form>` element with its inputs.
#[derive(Debug)]
pub struct Form {
    id: String,
    pub action: String,
    method: String,
    pub inputs: Vec<Input>,
}

/// Mathematical image of a scraped form.
pub ghost struct FormModel {
    pub id: Seq<char>,
    pub action: Seq<char>,
    pub method: Seq<char>,
    pub inputs: Seq<InputModel>,
}

impl View for Form {
    type V = FormModel;

    closed spec fn view(&self) -> FormModel {
        FormModel {
            id: self.id@,
            action: self.action@,
            method: self.method@,
            inputs: self.inputs.deep_view(),
        }
    }
}

impl DeepView for Form {
    type V = FormModel;

    open spec fn deep_view(&self) -> FormModel {
        self.view()
    }
}

/// Every non-GET form scraped from one document.
#[derive(Debug)]
pub struct ServerFormElements {
    pub forms: Vec<Form>,
}

impl View for ServerFormElements {
    type V = Seq<FormModel>;

    open spec fn view(&self) -> Seq<FormModel> {
        self.forms.deep_view()
    }
}

impl Input {
    /// Records one scraped input, keeping the scraped type as given;
    /// the `text` default for a missing type is the scraper's to apply.
    pub fn new(id: &str, types: &str, name: &str, value: &str) -> (r: Self)
        ensures
            r@.id == id@,
            r@.types == types@,
            r@.name == name@,
            r@.value == value@,
    {
        Input {
            id: String::from_str(id),
            types: String::from_str(types),
            name: String::from_str(name),
            value: String::from_str(value),
        }
    }
}

impl Form {
    /// Records one scraped form, with no inputs yet.
    pub fn new(id: &str, action: &str, method: &str) -> (r: Self)
        ensures
            r@.id == id@,
            r@.action == action@,
            r@.method == method@,
            r@.inputs == Seq::<InputModel>::empty(),
    {
        let r = Form {
            id: String::from_str(id),
            action: String::from_str(action),
            method: String::from_str(method),
            inputs: Vec::new(),
        };
        proof {
            assert(r@.inputs =~= Seq::<InputModel>::empty());
        }
        r
    }

    /// Appends one input to the form.
    pub fn add_input(&mut self, input: Input)
        ensures
            final(self)@ == (FormModel {
                inputs: old(self)@.inputs + seq![input@],
                ..old(self)@
            }),
    {
        let ghost dv0 = self.inputs.deep_view();
        let ghost iv = input@;
        self.inputs.push(input);
        proof {
            assert(self.inputs.deep_view() =~= dv0 + seq![iv]);
        }
    }
}

impl ServerFormElements {
    /// An empty collection of scraped forms.
    pub fn new() -> (r: Self)
        ensures
            r@ == Seq::<FormModel>::empty(),
    {
        let r = ServerFormElements { forms: Vec::new() };
        proof {
            assert(r@ =~= Seq::<FormModel>::empty());
        }
        r
    }

    /// Appends one scraped form.
    pub fn add_form(&mut self, form: Form)
        ensures
            final(self)@ == old(self)@ + seq![form@],
    {
        let ghost dv0 = self.forms.deep_view();
        let ghost fv = form@;
        self.forms.push(form);
        proof {
            assert(self.forms.deep_view() =~= dv0 + seq![fv]);
        }
    }

    /// Whether no form was scraped.
    pub fn is_empty(&mut self) -> (r: bool)
        ensures
            final(self)@ == old(self)@,
            r == (old(self)@.len() == 0),
    {
        if self.forms.is_empty() {
            return true;
        }
        false
    }
}

/// The input types the login filler keeps.
pub open spec fn keeps_input(t: Seq<char>) -> bool {
    t == "text"@ || t == "email"@ || t == "password"@ || t == "submit"@ || t == "hidden"@
}

/// Keeps an input whose type is one the filler understands and that
/// carries a name; an input lacking a name is excluded.
pub fn filter_inputs(input: String, name: String) -> (r: Option<String>)
    ensures
        match r {
            Option::Some(v) => keeps_input(input@) && name@.len() > 0 && v@ == input@,
            Option::None => !(keeps_input(input@) && name@.len() > 0),
        },
{
    if str_eq(input.as_str(), "text") || str_eq(input.as_str(), "email") || str_eq(
        input.as_str(),
        "password",
    ) || str_eq(input.as_str(), "submit") || str_eq(input.as_str(), "hidden") {
        if !name.as_str().is_empty() {
            return Some(input);
        }
        return None;
    }
    None
}

/// The attribute at `j` of a scraped row, or the default when the
/// element does not carry it.
pub open spec fn attr_of(row: Seq<Option<Seq<char>>>, j: int, default: Seq<char>) -> Seq<char> {
    if 0 <= j < row.len() {
        match row[j] {
            Option::Some(v) => v,
            Option::None => default,
        }
    } else {
        default
    }
}

/// Reads the attribute at `j` of a scraped row, with a default.
fn attr_or(row: &Vec<Option<String>>, j: usize, default: &str) -> (r: String)
    ensures
        r@ == attr_of(row.deep_view(), j as int, default@),
{
    if j < row.len() {
        match &row[j] {
            Some(v) => {
                proof {
                    assert(row.deep_view()[j as int] == Option::Some(row@[j as int].unwrap()@));
                }
                v.clone()
            },
            None => {
                proof {
                    assert(row.deep_view()[j as int] is None);
                }
                String::from_str(default)
            },
        }
    } else {
        String::from_str(default)
    }
}

/// The scraped value of `Input::new` for one row: attribute defaults
/// applied, a missing type reading as `text`.
pub open spec fn input_of_row(row: Seq<Option<Seq<char>>>) -> InputModel {
    InputModel {
        id: attr_of(row, 0, ""@),
        types: attr_of(row, 1, "text"@),
        name: attr_of(row, 2, ""@),
        value: attr_of(row, 3, ""@),
    }
}

/// The inputs kept from the scraped `<input>` rows: an understood type
/// and a non-empty name.
pub open spec fn inputs_model(rows: Seq<Seq<Option<Seq<char>>>>) -> Seq<InputModel>
    decreases rows.len(),
{
    if rows.len() == 0 {
        Seq::empty()
    } else if keeps_input(attr_of(rows[0], 1, "text"@)) && attr_of(rows[0], 2, ""@).len() > 0 {
        seq![input_of_row(rows[0])] + inputs_model(rows.skip(1))
    } else {
        inputs_model(rows.skip(1))
    }
}

/// Builds the kept inputs from the scraped rows.
fn build_inputs(rows: &Vec<Vec<Option<String>>>, form: &mut Form)
    ensures
        final(form)@ == (FormModel {
            inputs: old(form)@.inputs + inputs_model(rows.deep_view()),
            ..old(form)@
        }),
{
    let ghost rs = rows.deep_view();
    let ghost f0 = old(form)@;
    let n = rows.len();
    let mut i: usize = 0;
    proof {
        assert(rs.skip(0) =~= rs);
        assert(f0.inputs + Seq::<InputModel>::empty() =~= f0.inputs);
    }
    while i < n
        invariant
            i <= n,
            n == rows@.len(),
            rs == rows.deep_view(),
            rs.len() == n,
            form@.id == f0.id && form@.action == f0.action && form@.method == f0.method,
            form@.inputs + inputs_model(rs.skip(i as int)) == f0.inputs + inputs_model(rs),
        decreases n - i,
    {
        proof {
            assert(rs.skip(i as int)[0] == rs[i as int]);
            assert(rs.skip(i as int).skip(1) =~= rs.skip(i as int + 1));
            assert(rs[i as int] == rows@[i as int].deep_view());
        }
        let row = &rows[i];
        let id = attr_or(row, 0, "");
        let type_elem = attr_or(row, 1, "text");
        let name = attr_or(row, 2, "");
        let value = attr_or(row, 3, "");
        match filter_inputs(type_elem.clone(), name.clone()) {
            Some(_) => {
                let input = Input::new(id.as_str(), type_elem.as_str(), name.as_str(), value.as_str());
                let ghost inputs0 = form@.inputs;
                form.add_input(input);
                proof {
                    assert(form@.inputs + inputs_model(rs.skip(i as int + 1)) =~= inputs0 + (
                    seq![input_of_row(rs[i as int])] + inputs_model(rs.skip(i as int + 1))));
                }
            },
            None => {},
        }
        i = i + 1;
    }
    proof {
        assert(rs.skip(n as int) =~= Seq::<Seq<Option<Seq<char>>>>::empty());
        assert(form@.inputs + Seq::<InputModel>::empty() =~= form@.inputs);
    }
}

/// The forms kept from the scraped `<form>` rows: those whose method
/// does not fold to `get`, each carrying every kept input of the page.
pub open spec fn forms_model(
    frows: Seq<Seq<Option<Seq<char>>>>,
    inputs: Seq<InputModel>,
) -> Seq<FormModel>
    decreases frows.len(),
{
    if frows.len() == 0 {
        Seq::empty()
    } else {
        let method = attr_of(frows[0], 2, "get"@);
        if lower_of(method) != "get"@ {
            seq![
                FormModel {
                    id: attr_of(frows[0], 0, ""@),
                    action: attr_of(frows[0], 1, ""@),
                    method,
                    inputs,
                },
            ] + forms_model(frows.skip(1), inputs)
        } else {
            forms_model(frows.skip(1), inputs)
        }
    }
}

/// The selector names used for form scraping.
fn form_attr_names() -> (r: Vec<String>)
    ensures
        r.deep_view() =~= seq!["id"@, "action"@, "method"@],
{
    let mut v: Vec<String> = Vec::new();
    v.push(String::from_str("id"));
    v.push(String::from_str("action"));
    v.push(String::from_str("method"));
    v
}

/// The selector names used for input scraping.
fn input_attr_names() -> (r: Vec<String>)
    ensures
        r.deep_view() =~= seq!["id"@, "type"@, "name"@, "value"@],
{
    let mut v: Vec<String> = Vec::new();
    v.push(String::from_str("id"));
    v.push(String::from_str("type"));
    v.push(String::from_str("name"));
    v.push(String::from_str("value"));
    v
}

/// What `extract_form_elements` finds in a document, over the scraped
/// element rows: `None` when scraping fails or no non-GET form exists.
pub open spec fn extract_model(html: Seq<char>) -> Option<Seq<FormModel>> {
    let fr = scraped_attrs(html, "form"@, seq!["id"@, "action"@, "method"@]);
    let ir = scraped_attrs(html, "input"@, seq!["id"@, "type"@, "name"@, "value"@]);
    if fr is Some && ir is Some {
        let fs = forms_model(fr.unwrap(), inputs_model(ir.unwrap()));
        if fs.len() == 0 {
            Option::None
        } else {
            Option::Some(fs)
        }
    } else {
        Option::None
    }
}

/// Scrapes every non-GET form of a document, each with the page's kept
/// inputs; `None` when there is none or the scrape fails.
pub fn extract_form_elements(html: &str) -> (r: Option<ServerFormElements>)
    ensures
        match r {
            Option::Some(sfe) => extract_model(html@) == Option::Some(sfe@) && sfe@.len() > 0,
            Option::None => extract_model(html@) is None,
        },
{
    let fnames = form_attr_names();
    let inames = input_attr_names();
    let frows = match select_attrs(html, "form", &fnames) {
        Some(v) => v,
        None => {
            return None;
        },
    };
    let irows = match select_attrs(html, "input", &inames) {
        Some(v) => v,
        None => {
            return None;
        },
    };
    let ghost fs = frows.deep_view();
    let ghost is_rows = irows.deep_view();
    proof {
        assert(scraped_attrs(html@, "form"@, seq!["id"@, "action"@, "method"@]) == Option::Some(
            fs,
        ));
        assert(scraped_attrs(html@, "input"@, seq!["id"@, "type"@, "name"@, "value"@])
            == Option::Some(is_rows));
    }
    let mut form_elems = ServerFormElements::new();
    let n = frows.len();
    let mut i: usize = 0;
    proof {
        assert(fs.skip(0) =~= fs);
        assert(form_elems@ + forms_model(fs, inputs_model(is_rows)) =~= forms_model(
            fs,
            inputs_model(is_rows),
        ));
    }
    while i < n
        invariant
            i <= n,
            n == frows@.len(),
            fs == frows.deep_view(),
            is_rows == irows.deep_view(),
            fs.len() == n,
            form_elems@ + forms_model(fs.skip(i as int), inputs_model(is_rows)) == forms_model(
                fs,
                inputs_model(is_rows),
            ),
        decreases n - i,
    {
        proof {
            assert(fs.skip(i as int)[0] == fs[i as int]);
            assert(fs.skip(i as int).skip(1) =~= fs.skip(i as int + 1));
            assert(fs[i as int] == frows@[i as int].deep_view());
        }
        let row = &frows[i];
        let id = attr_or(row, 0, "");
        let action = attr_or(row, 1, "");
        let method = attr_or(row, 2, "get");
        let lowered = lowercase(method.as_str());
        if !str_eq(lowered.as_str(), "get") {
            let mut form = Form::new(id.as_str(), action.as_str(), method.as_str());
            build_inputs(&irows, &mut form);
            let ghost before = form_elems@;
            proof {
                assert(form@.inputs =~= inputs_model(is_rows));
            }
            form_elems.add_form(form);
            proof {
                assert(form_elems@ + forms_model(fs.skip(i as int + 1), inputs_model(is_rows))
                    =~= before + (seq![
                    FormModel {
                        id: attr_of(fs[i as int], 0, ""@),
                        action: attr_of(fs[i as int], 1, ""@),
                        method: attr_of(fs[i as int], 2, "get"@),
                        inputs: inputs_model(is_rows),
                    },
                ] + forms_model(fs.skip(i as int + 1), inputs_model(is_rows))));
            }
        }
        i = i + 1;
    }
    proof {
        assert(fs.skip(n as int) =~= Seq::<Seq<Option<Seq<char>>>>::empty());
        assert(form_elems@ + Seq::<FormModel>::empty() =~= form_elems@);
    }
    if !ServerFormElements::is_empty(&mut form_elems) {
        return Some(form_elems);
    }
    None
}

/// The configured fields of the last `form` entry whose key is `key`.
pub open spec fn last_form_match(
    m: Seq<(Seq<char>, Seq<(Seq<char>, Seq<char>)>)>,
    key: Seq<char>,
) -> Seq<(Seq<char>, Seq<char>)>
    decreases m.len(),
{
    if m.len() == 0 {
        Seq::empty()
    } else if m.last().0 == key {
        m.last().1
    } else {
        last_form_match(m.drop_last(), key)
    }
}

/// The (name, value) pairs of the form's own pre-filled inputs.
pub open spec fn filled_inputs(inputs: Seq<InputModel>) -> Seq<(Seq<char>, Seq<char>)>
    decreases inputs.len(),
{
    if inputs.len() == 0 {
        Seq::empty()
    } else if inputs[0].value.len() > 0 {
        seq![(inputs[0].name, inputs[0].value)] + filled_inputs(inputs.skip(1))
    } else {
        filled_inputs(inputs.skip(1))
    }
}

/// The submission parameters for a form: configured fields for the
/// target URL first, then the form's own pre-filled inputs.
pub open spec fn match_credential_model(
    target: Seq<char>,
    c: ConfigValue,
    form: FormModel,
) -> Seq<(Seq<char>, Seq<char>)> {
    let base = match form_model(c) {
        Option::Some(m) => last_form_match(m, target),
        Option::None => Seq::empty(),
    };
    base + filled_inputs(form.inputs)
}

/// Builds the submission parameters for a scraped form.
pub fn match_credential(target_url: String, config: &ConfigValue, form: &Form) -> (r: Vec<
    (String, String),
>)
    ensures
        r.deep_view() == match_credential_model(target_url@, *config, form@),
{
    let mut post_data: Vec<(String, String)> = Vec::new();
    let ghost base = match form_model(*config) {
        Option::Some(m) => last_form_match(m, target_url@),
        Option::None => Seq::<(Seq<char>, Seq<char>)>::empty(),
    };
    match setup_form(config) {
        Some(form_auth) => {
            let ghost m = form_auth.deep_view();
            let n = form_auth.len();
            let mut found: Option<usize> = None;
            let mut i: usize = 0;
            proof {
                assert(m.take(0) =~= Seq::<(Seq<char>, Seq<(Seq<char>, Seq<char>)>)>::empty());
            }
            while i < n
                invariant
                    i <= n,
                    n == form_auth@.len(),
                    m == form_auth.deep_view(),
                    m.len() == n,
                    match found {
                        Option::Some(j) => j < n && last_form_match(m.take(i as int), target_url@)
                            == m[j as int].1,
                        Option::None => last_form_match(m.take(i as int), target_url@)
                            == Seq::<(Seq<char>, Seq<char>)>::empty(),
                    },
                decreases n - i,
            {
                proof {
                    assert(m.take(i as int + 1).last() == m[i as int]);
                    assert(m.take(i as int + 1).drop_last() =~= m.take(i as int));
                    assert(m[i as int].0 == form_auth@[i as int].0@);
                }
                if str_eq(form_auth[i].0.as_str(), target_url.as_str()) {
                    found = Some(i);
                }
                i = i + 1;
            }
            proof {
                assert(m.take(n as int) =~= m);
            }
            match found {
                Some(j) => {
                    let fields = &form_auth[j].1;
                    let ghost fv = fields.deep_view();
                    proof {
                        assert(fv == m[j as int].1);
                        assert(fv.skip(0) =~= fv);
                    }
                    let fn_len = fields.len();
                    let mut k: usize = 0;
                    while k < fn_len
                        invariant
                            k <= fn_len,
                            fn_len == fields@.len(),
                            fv == fields.deep_view(),
                            fv.len() == fn_len,
                            post_data.deep_view() + fv.skip(k as int) == fv,
                        decreases fn_len - k,
                    {
                        proof {
                            assert(fv.skip(k as int)[0] == fv[k as int]);
                            assert(fv.skip(k as int).skip(1) =~= fv.skip(k as int + 1));
                            assert(fv[k as int] == (fields@[k as int].0@, fields@[k as int].1@));
                        }
                        let pair = (fields[k].0.clone(), fields[k].1.clone());
                        let ghost dv0 = post_data.deep_view();
                        let ghost pv = (pair.0@, pair.1@);
                        post_data.push(pair);
                        proof {
                            assert(post_data.deep_view() =~= dv0 + seq![pv]);
                            assert(dv0 + seq![pv] + fv.skip(k as int + 1) =~= dv0 + (seq![pv]
                                + fv.skip(k as int + 1)));
                        }
                        k = k + 1;
                    }
                    proof {
                        assert(fv.skip(fn_len as int) =~= Seq::<(Seq<char>, Seq<char>)>::empty());
                        assert(post_data.deep_view() + Seq::<(Seq<char>, Seq<char>)>::empty()
                            =~= post_data.deep_view());
                        assert(post_data.deep_view() =~= base);
                    }
                },
                None => {
                    proof {
                        assert(post_data.deep_view() =~= base);
                    }
                },
            }
        },
        None => {
            proof {
                assert(post_data.deep_view() =~= base);
            }
        },
    }
    let ghost iv = form.inputs.deep_view();
    let n2 = form.inputs.len();
    let mut k2: usize = 0;
    proof {
        assert(iv.skip(0) =~= iv);
        assert(post_data.deep_view() + filled_inputs(iv) =~= base + filled_inputs(iv));
    }
    while k2 < n2
        invariant
            k2 <= n2,
            n2 == form.inputs@.len(),
            iv == form.inputs.deep_view(),
            iv.len() == n2,
            post_data.deep_view() + filled_inputs(iv.skip(k2 as int)) == base + filled_inputs(iv),
        decreases n2 - k2,
    {
        proof {
            assert(iv.skip(k2 as int)[0] == iv[k2 as int]);
            assert(iv.skip(k2 as int).skip(1) =~= iv.skip(k2 as int + 1));
            assert(iv[k2 as int] == form.inputs@[k2 as int]@);
        }
        let input = &form.inputs[k2];
        if !input.value.as_str().is_empty() {
            let pair = (input.name.clone(), input.value.clone());
            let ghost dv0 = post_data.deep_view();
            let ghost pv = (pair.0@, pair.1@);
            post_data.push(pair);
            proof {
                assert(post_data.deep_view() =~= dv0 + seq![pv]);
                assert(dv0 + seq![pv] + filled_inputs(iv.skip(k2 as int + 1)) =~= dv0 + (
                seq![pv] + filled_inputs(iv.skip(k2 as int + 1))));
            }
        }
        k2 = k2 + 1;
    }
    proof {
        assert(iv.skip(n2 as int) =~= Seq::<InputModel>::empty());
        assert(post_data.deep_view() + Seq::<(Seq<char>, Seq<char>)>::empty() =~= post_data
            .deep_view());
    }
    post_data
}

/// What the form pipeline submits for a page: the first scraped form's
/// parameters and its action, resolved against the target when it is a
/// relative path.
pub open spec fn handle_forms_model(html: Seq<char>, target: Seq<char>, c: ConfigValue) -> Option<
    (Seq<char>, Seq<(Seq<char>, Seq<char>)>),
> {
    match extract_model(html) {
        Option::None => Option::None,
        Option::Some(fs) => {
            let form = fs[0];
            let action = if form.action.len() > 0 && form.action[0] == '/' {
                target + form.action
            } else {
                form.action
            };
            Option::Some((action, match_credential_model(target, c, form)))
        },
    }
}

/// Plans the login submission for a response body: the resolved action
/// URL and the parameters to post; `None` when no form is found.
pub fn handle_forms(body: &str, target_url: &str, config: &ConfigValue) -> (r: Option<
    (String, Vec<(String, String)>),
>)
    ensures
        match r {
            Option::Some(p) => handle_forms_model(body@, target_url@, *config) matches Some(q)
                && q.0 == p.0@ && q.1 == p.1.deep_view(),
            Option::None => handle_forms_model(body@, target_url@, *config) is None,
        },
{
    let forms = match extract_form_elements(body) {
        Some(f) => f,
        None => {
            return None;
        },
    };
    proof {
        assert(forms.forms.deep_view()[0] == forms.forms@[0]@);
    }
    let form = &forms.forms[0];
    let form_cred = match_credential(String::from_str(target_url), config, form);
    let mut action = form.action.clone();
    if action.as_str().unicode_len() > 0 && action.as_str().get_char(0) == '/' {
        action = concat_str(target_url, form.action.as_str());
    }
    Some((action, form_cred))
}

/// The `content` of the document's `meta[name=csrf-token]` element.
pub open spec fn extract_token_model(html: Seq<char>) -> Option<Seq<char>> {
    match scraped_attrs(html, "meta[name=csrf-token]"@, seq!["content"@]) {
        Option::None => Option::None,
        Option::Some(rows) => if rows.len() > 0 && rows[0].len() > 0 {
            rows[0][0]
        } else {
            Option::None
        },
    }
}

/// Scrapes the CSRF token a login page declares in its meta tags.
pub fn _extract_token(html: &str) -> (r: Option<String>)
    ensures
        match r {
            Option::Some(v) => extract_token_model(html@) == Option::Some(v@),
            Option::None => extract_token_model(html@) is None,
        },
{
    let mut names: Vec<String> = Vec::new();
    names.push(String::from_str("content"));
    proof {
        assert(names.deep_view() =~= seq!["content"@]);
    }
    let rows = match select_attrs(html, "meta[name=csrf-token]", &names) {
        Some(rows) => rows,
        None => {
            return None;
        },
    };
    if rows.len() > 0 {
        let row = &rows[0];
        if row.len() > 0 {
            proof {
                assert(rows.deep_view()[0] == rows@[0].deep_view());
            }
            match &row[0] {
                Some(v) => {
                    proof {
                        assert(rows.deep_view()[0][0] == Option::Some(row@[0].unwrap()@));
                    }
                    return Some(v.clone());
                },
                None => {
                    proof {
                        assert(rows.deep_view()[0][0] is None);
                    }
                    return None;
                },
            }
        }
    }
    None
}

} // verus!
