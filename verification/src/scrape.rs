//! The DOM query capability the scraping stages rely on: given markup
//! and a selector, yield matching elements' attribute values or text.
use vstd::prelude::*;

verus! {

/// Relies on scraper's `Html::parse_document`, `Selector::parse` and
/// `select`: the chosen attribute values of the matching elements, in
/// document order, depend on the markup, selector and attribute names
/// alone; `None` reports a selector that does not parse.
pub uninterp spec fn scraped_attrs(
    html: Seq<char>,
    selector: Seq<char>,
    attrs: Seq<Seq<char>>,
) -> Option<Seq<Seq<Option<Seq<char>>>>>;

/// Relies on scraper's document parsing and CSS selection to list, for
/// each matching element, the requested attribute values.
#[verifier::external_body]
pub fn select_attrs(html: &str, selector: &str, attrs: &Vec<String>) -> (r: Option<
    Vec<Vec<Option<String>>>,
>)
    ensures
        r.deep_view() == scraped_attrs(html@, selector@, attrs.deep_view()),
{
    let sel = scraper::Selector::parse(selector).ok()?;
    let doc = scraper::Html::parse_document(html);
    let mut out = Vec::new();
    for el in doc.select(&sel) {
        let mut row = Vec::new();
        for a in attrs.iter() {
            row.push(el.value().attr(a).map(|v| v.to_string()));
        }
        out.push(row);
    }
    Some(out)
}

/// Relies on scraper's `Html::parse_document`, `Selector::parse`,
/// `select` and `text`: the concatenated text of each matching element,
/// in document order, depends on the markup and selector alone.
pub uninterp spec fn scraped_texts(html: Seq<char>, selector: Seq<char>) -> Option<Seq<Seq<char>>>;

/// Relies on scraper's document parsing and CSS selection to list the
/// text content of every matching element.
#[verifier::external_body]
pub fn select_texts(html: &str, selector: &str) -> (r: Option<Vec<String>>)
    ensures
        r.deep_view() == scraped_texts(html@, selector@),
{
    let sel = scraper::Selector::parse(selector).ok()?;
    let doc = scraper::Html::parse_document(html);
    let mut out = Vec::new();
    for el in doc.select(&sel) {
        out.push(el.text().collect::<String>());
    }
    Some(out)
}

} // verus!
