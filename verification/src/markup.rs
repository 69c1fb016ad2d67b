//! Trusted extraction from HTML text.
//!
//! The portal's pages are read at fixed structural positions: a named form
//! input, a page title, a relay form with its inputs, a script node, a table
//! of links.  Parsing and selection are the work of the `scraper` crate; the
//! wrappers here hand its results over as plain values.  Each result is a
//! deterministic function of the page text and the selector, which the
//! uninterpreted functions beside each wrapper name.

use vstd::prelude::*;
use crate::text::opt_str_view;

verus! {

/// What selecting `selector` in `html` and reading `attr` of the first match
/// yields: `None` when nothing matches, `Some(None)` when the first match
/// lacks the attribute.
pub uninterp spec fn css_first_attr(
    html: Seq<char>,
    selector: Seq<char>,
    attr: Seq<char>,
) -> Option<Option<Seq<char>>>;

/// Relies on `scraper::Html::parse_document`, `Selector::parse`,
/// `ElementRef::attr`: the first element matching `selector`, read at
/// `attr`.  An unparseable selector yields `None`; the fixed selectors used
/// here parse.
#[verifier::external_body]
pub fn select_first_attr(html: &str, selector: &str, attr: &str) -> (r: Option<Option<String>>)
    ensures
        r is Some <==> css_first_attr(html@, selector@, attr@) is Some,
        r matches Some(o) ==> opt_str_view(o) == css_first_attr(html@, selector@, attr@)->0,
{
    let sel = scraper::Selector::parse(selector).ok()?;
    let doc = scraper::Html::parse_document(html);
    let el = doc.select(&sel).next()?;
    Some(el.attr(attr).map(|v| v.to_string()))
}

/// The concatenated text of the first element matching `selector` in
/// `html`; `None` when nothing matches.
pub uninterp spec fn css_first_text(html: Seq<char>, selector: Seq<char>) -> Option<Seq<char>>;

/// Relies on `scraper::Html::parse_document`, `Selector::parse`,
/// `ElementRef::text`: the text nodes of the first matching element,
/// concatenated in order.
#[verifier::external_body]
pub fn select_first_text(html: &str, selector: &str) -> (r: Option<String>)
    ensures
        opt_str_view(r) == css_first_text(html@, selector@),
{
    let sel = scraper::Selector::parse(selector).ok()?;
    let doc = scraper::Html::parse_document(html);
    let el = doc.select(&sel).next()?;
    Some(el.text().collect::<String>())
}

/// The inner HTML of the first element matching `selector` in `html`;
/// `None` when nothing matches.
pub uninterp spec fn css_first_inner_html(
    html: Seq<char>,
    selector: Seq<char>,
) -> Option<Seq<char>>;

/// Relies on `scraper::Html::parse_document`, `Selector::parse`,
/// `ElementRef::inner_html`.
#[verifier::external_body]
pub fn select_first_inner_html(html: &str, selector: &str) -> (r: Option<String>)
    ensures
        opt_str_view(r) == css_first_inner_html(html@, selector@),
{
    let sel = scraper::Selector::parse(selector).ok()?;
    let doc = scraper::Html::parse_document(html);
    let el = doc.select(&sel).next()?;
    Some(el.inner_html())
}

/// The first form matching `selector` in `html`: its `action` attribute and
/// the `name`/`value` attributes of every `input` element under it, in
/// document order.  `None` when no form matches.
pub uninterp spec fn css_form_parts(html: Seq<char>, selector: Seq<char>) -> Option<
    (Option<Seq<char>>, Seq<(Option<Seq<char>>, Option<Seq<char>>)>),
>;

/// Relies on `scraper::Html::parse_document`, `Selector::parse`,
/// `ElementRef::select`, `ElementRef::attr`: the matched form's `action`,
/// and each descendant `input`'s `name` and `value`.
#[verifier::external_body]
pub fn select_form_parts(html: &str, selector: &str) -> (r: Option<
    (Option<String>, Vec<(Option<String>, Option<String>)>),
>)
    ensures
        r is Some <==> css_form_parts(html@, selector@) is Some,
        r matches Some(parts) ==> {
            &&& opt_str_view(parts.0) == (css_form_parts(html@, selector@)->0).0
            &&& parts.1.deep_view() == (css_form_parts(html@, selector@)->0).1
        },
{
    let sel = scraper::Selector::parse(selector).ok()?;
    let inputs = scraper::Selector::parse("input").ok()?;
    let doc = scraper::Html::parse_document(html);
    let form = doc.select(&sel).next()?;
    let action = form.attr("action").map(|v| v.to_string());
    let fields = form
        .select(&inputs)
        .map(|el| (el.attr("name").map(|v| v.to_string()), el.attr("value").map(|v| v.to_string())))
        .collect();
    Some((action, fields))
}

/// The `attr` attribute of every element matching `anchors` under the first
/// element matching `container` in `html`, in document order; `None` when no
/// container matches.
pub uninterp spec fn css_container_attrs(
    html: Seq<char>,
    container: Seq<char>,
    anchors: Seq<char>,
    attr: Seq<char>,
) -> Option<Seq<Option<Seq<char>>>>;

/// Relies on `scraper::Html::parse_document`, `Selector::parse`,
/// `ElementRef::select`, `ElementRef::attr`: each matching descendant's
/// attribute, in document order.
#[verifier::external_body]
pub fn select_container_attrs(html: &str, container: &str, anchors: &str, attr: &str) -> (r:
    Option<Vec<Option<String>>>)
    ensures
        r is Some <==> css_container_attrs(html@, container@, anchors@, attr@) is Some,
        r matches Some(list) ==> list.deep_view() == css_container_attrs(
            html@,
            container@,
            anchors@,
            attr@,
        )->0,
{
    let csel = scraper::Selector::parse(container).ok()?;
    let asel = scraper::Selector::parse(anchors).ok()?;
    let doc = scraper::Html::parse_document(html);
    let cont = doc.select(&csel).next()?;
    Some(cont.select(&asel).map(|el| el.attr(attr).map(|v| v.to_string())).collect())
}

} // verus!
