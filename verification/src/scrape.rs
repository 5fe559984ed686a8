//! Extraction of links from listing-page markup, through the `scraper` crate,
//! and the verified assembly of a page's parse result.

use crate::links::{filter_product_links, product_links_of, product_links_seq, url_views};
use vstd::prelude::*;

verus! {

/// The href attributes of the anchor elements of a page, in document order.
/// They are a function of the markup alone; only the trusted extractor below
/// speaks for their value.
pub uninterp spec fn anchor_hrefs(html: Seq<char>) -> Seq<Seq<char>>;

/// The href of the first element matching the next-pagination selector
/// `a.next.page-numbers`, if any; its absence means the end of pagination.
pub uninterp spec fn next_link_of(html: Seq<char>) -> Option<Seq<char>>;

/// View of an optional string.
pub open spec fn opt_view(o: Option<String>) -> Option<Seq<char>> {
    match o {
        Some(s) => Some(s@),
        None => None,
    }
}

/// Relies on scraper::Html::parse_document and scraper::Selector::parse:
/// collects the href attribute of every `a` element, in document order.
/// Always succeeds: document parsing is lenient and does not fail, and the
/// only error path is Selector::parse on the constant valid selector `a`.
#[verifier::external_body]
fn scrape_anchor_hrefs(html: &str) -> (r: Result<Vec<String>, String>)
    ensures
        r is Ok,
        r matches Ok(v) ==> url_views(v@) == anchor_hrefs(html@),
{
    let document = scraper::Html::parse_document(html);
    let selector = match scraper::Selector::parse("a") {
        Ok(s) => s,
        Err(e) => return Err(format!("bad selector 'a': {e:?}")),
    };
    Ok(document
        .select(&selector)
        .filter_map(|el| el.attr("href").map(|h| h.to_string()))
        .collect())
}

/// Relies on scraper::Html::parse_document and scraper::Selector::parse:
/// the href of the first element matching `a.next.page-numbers`, if any.
/// Always succeeds: document parsing is lenient and does not fail, and the
/// only error path is Selector::parse on that constant valid selector.
#[verifier::external_body]
fn scrape_next_href(html: &str) -> (r: Result<Option<String>, String>)
    ensures
        r is Ok,
        r matches Ok(o) ==> opt_view(o) == next_link_of(html@),
{
    let document = scraper::Html::parse_document(html);
    let selector = match scraper::Selector::parse("a.next.page-numbers") {
        Ok(s) => s,
        Err(e) => return Err(format!("bad selector a.next.page-numbers: {e:?}")),
    };
    Ok(document.select(&selector).next().and_then(|el| el.attr("href")).map(|h| h.to_string()))
}

/// Parse one listing page: the product links on it, in first-occurrence
/// order without duplicates, and the optional next-page link.  A function of
/// the markup alone, and it succeeds on every input.
pub fn parse_listing_page(html: &str) -> (r: Result<(Vec<String>, Option<String>), String>)
    ensures
        r is Ok,
        r matches Ok(p) ==> {
            &&& url_views(p.0@) == product_links_seq(anchor_hrefs(html@))
            &&& url_views(p.0@).no_duplicates()
            &&& url_views(p.0@).to_set() == product_links_of(anchor_hrefs(html@))
            &&& opt_view(p.1) == next_link_of(html@)
        },
{
    let hrefs = match scrape_anchor_hrefs(html) {
        Ok(v) => v,
        Err(e) => {
            return Err(e);
        },
    };
    let links = filter_product_links(&hrefs);
    let next = match scrape_next_href(html) {
        Ok(o) => o,
        Err(e) => {
            return Err(e);
        },
    };
    Ok((links, next))
}

} // verus!
