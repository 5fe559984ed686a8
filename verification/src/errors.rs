//! The fatal failures a crawl run can end with.

use vstd::prelude::*;

verus! {

/// A fatal crawl failure: the stage that failed and the page URL concerned.
/// Both kinds abort the whole run; no partial result is returned.
#[derive(Debug)]
pub enum CrawlError {
    /// The page at `url` could not be retrieved.
    Fetch { url: String, detail: String },
    /// The content fetched from `url` could not be queried.
    Parse { url: String, detail: String },
}

impl CrawlError {
    /// The URL of the page on which the run failed.
    pub fn url(&self) -> (r: &String)
        ensures
            match self {
                CrawlError::Fetch { url, .. } => r@ == url@,
                CrawlError::Parse { url, .. } => r@ == url@,
            },
    {
        match self {
            CrawlError::Fetch { url, .. } => url,
            CrawlError::Parse { url, .. } => url,
        }
    }

    /// Whether the failure happened while retrieving a page.
    pub fn is_fetch(&self) -> (r: bool)
        ensures
            r == (self matches CrawlError::Fetch { .. }),
    {
        match self {
            CrawlError::Fetch { .. } => true,
            CrawlError::Parse { .. } => false,
        }
    }
}

} // verus!
