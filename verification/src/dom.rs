//! The trusted boundary to the DOM query collaborator, the `scraper` crate.
//!
//! Parsing a document and selecting elements are pure functions of the
//! document text and the CSS selectors, so each selection's result is given
//! a name (`first_attr_in`, `first_inner_html_in`, `table_cells_in`) and the
//! wrappers below promise to return exactly that named value. Nothing else
//! is assumed about the selections; the verified logic takes the returned
//! plain values from there.

use vstd::prelude::*;
use scraper::{Html, Selector};

verus! {

/// The attribute `attr` of the first element of the document `html`
/// matching `selector`; `None` when no element matches, when the selector
/// is invalid, or when the element lacks the attribute.
pub uninterp spec fn first_attr_in(
    html: Seq<char>,
    selector: Seq<char>,
    attr: Seq<char>,
) -> Option<Seq<char>>;

/// The inner HTML of the first element of the document `html` matching
/// `selector`; `None` when no element matches or the selector is invalid.
pub uninterp spec fn first_inner_html_in(html: Seq<char>, selector: Seq<char>) -> Option<
    Seq<char>,
>;

/// The cell texts of the first element of `html` matching `table_selector`:
/// for each of its descendants matching `row_selector`, in document order,
/// the inner HTML of that row's descendants matching `cell_selector`.
/// `None` when no table matches or a selector is invalid.
pub uninterp spec fn table_cells_in(
    html: Seq<char>,
    table_selector: Seq<char>,
    row_selector: Seq<char>,
    cell_selector: Seq<char>,
) -> Option<Seq<Seq<Seq<char>>>>;

/// Relies on scraper's `Html::parse_document`, `Selector::parse`,
/// `Html::select` and `ElementRef::attr`: all pure functions of the
/// document text, the selector and the attribute name.
#[verifier::external_body]
pub(crate) fn select_first_attr(html: &str, selector: &str, attr: &str) -> (r: Option<String>)
    ensures
        r.deep_view() == first_attr_in(html@, selector@, attr@),
{
    let doc = Html::parse_document(html);
    let sel = match Selector::parse(selector) {
        Ok(s) => s,
        Err(_) => return None,
    };
    let el = doc.select(&sel).next()?;
    el.attr(attr).map(|a| a.to_string())
}

/// Relies on scraper's `Html::parse_document`, `Selector::parse`,
/// `Html::select` and `ElementRef::inner_html`: all pure functions of the
/// document text and the selector.
#[verifier::external_body]
pub(crate) fn select_first_inner_html(html: &str, selector: &str) -> (r: Option<String>)
    ensures
        r.deep_view() == first_inner_html_in(html@, selector@),
{
    let doc = Html::parse_document(html);
    let sel = match Selector::parse(selector) {
        Ok(s) => s,
        Err(_) => return None,
    };
    let el = doc.select(&sel).next()?;
    Some(el.inner_html())
}

/// Relies on scraper's `Html::parse_document`, `Selector::parse`,
/// `Html::select`, `ElementRef::select` and `ElementRef::inner_html`: all
/// pure functions of the document text and the selectors, rows and cells
/// in document order.
#[verifier::external_body]
pub(crate) fn select_table_cells(
    html: &str,
    table_selector: &str,
    row_selector: &str,
    cell_selector: &str,
) -> (r: Option<Vec<Vec<String>>>)
    ensures
        r.deep_view() == table_cells_in(html@, table_selector@, row_selector@, cell_selector@),
{
    let doc = Html::parse_document(html);
    let tsel = Selector::parse(table_selector);
    let rsel = Selector::parse(row_selector);
    let csel = Selector::parse(cell_selector);
    let (Ok(tsel), Ok(rsel), Ok(csel)) = (tsel, rsel, csel) else {
        return None;
    };
    let table = doc.select(&tsel).next()?;
    Some(table.select(&rsel).map(|r| r.select(&csel).map(|c| c.inner_html()).collect()).collect())
}

} // verus!
