//! The mutable state of one crawl run and the step that absorbs one page.

use crate::links::{contains_url, merge_links, merged_links, product_links_of, product_links_seq, url_views};
use crate::scrape::{anchor_hrefs, next_link_of, opt_view, parse_listing_page};
use vstd::prelude::*;

verus! {

/// The state of one crawl run: pages visited in visitation order, the unique
/// product links collected so far, and the frontier (the URL scheduled to be
/// fetched next, if any).
#[derive(Debug)]
pub struct CrawlState {
    pub visited: Vec<String>,
    pub products: Vec<String>,
    pub frontier: Option<String>,
}

impl CrawlState {
    /// The pages visited, in order.
    pub open spec fn visited_seq(self) -> Seq<Seq<char>> {
        url_views(self.visited@)
    }

    /// The product links collected, in first-seen order.
    pub open spec fn product_seq(self) -> Seq<Seq<char>> {
        url_views(self.products@)
    }

    /// The product links collected, as a set.
    pub open spec fn product_set(self) -> Set<Seq<char>> {
        self.product_seq().to_set()
    }

    /// Well-formedness: no page visited twice, no duplicate product links.
    pub open spec fn wf(self) -> bool {
        &&& self.visited_seq().no_duplicates()
        &&& self.product_seq().no_duplicates()
    }

    /// A fresh run: nothing visited, nothing collected, frontier at the seed.
    pub fn new(seed: String) -> (r: CrawlState)
        ensures
            r.wf(),
            r.visited_seq() == Seq::<Seq<char>>::empty(),
            r.product_seq() == Seq::<Seq<char>>::empty(),
            opt_view(r.frontier) == Some(seed@),
    {
        let r = CrawlState { visited: Vec::new(), products: Vec::new(), frontier: Some(seed) };
        proof {
            assert(r.visited_seq() =~= Seq::<Seq<char>>::empty());
            assert(r.product_seq() =~= Seq::<Seq<char>>::empty());
        }
        r
    }

    /// The URL to fetch next: the frontier, unless pagination is exhausted or
    /// the frontier was already visited (the cycle guard, a silent stop).
    pub fn current_target(&self) -> (r: Option<String>)
        ensures
            match r {
                Some(u) => opt_view(self.frontier) == Some(u@) && !self.visited_seq().contains(u@),
                None => match self.frontier {
                    Some(f) => self.visited_seq().contains(f@),
                    None => true,
                },
            },
    {
        match &self.frontier {
            None => None,
            Some(f) => {
                if contains_url(&self.visited, f) {
                    None
                } else {
                    Some(f.clone())
                }
            },
        }
    }

    /// Absorb one fetched page: record the frontier as visited, merge the
    /// page's product links into the collection, and advance the frontier to
    /// the page's next link.  Succeeds on every input, since the parser does.
    pub fn process_page(&mut self, html: &str) -> (r: Result<(), String>)
        requires
            old(self).wf(),
            old(self).frontier is Some,
            !old(self).visited_seq().contains(old(self).frontier->0@),
        ensures
            r is Ok,
            final(self).wf(),
            final(self).visited_seq() == old(self).visited_seq().push(old(self).frontier->0@),
            final(self).product_seq() == merged_links(
                old(self).product_seq(),
                product_links_seq(anchor_hrefs(html@)),
            ),
            final(self).product_set() == old(self).product_set().union(
                product_links_of(anchor_hrefs(html@)),
            ),
            old(self).product_set().subset_of(final(self).product_set()),
            old(self).products@.len() <= final(self).products@.len(),
            opt_view(final(self).frontier) == next_link_of(html@),
    {
        let (links, next) = match parse_listing_page(html) {
            Ok(p) => p,
            Err(e) => {
                return Err(e);
            },
        };
        let ghost oldst = *self;
        let url = match &self.frontier {
            Some(u) => u.clone(),
            None => {
                proof {
                    assert(false);
                }
                return Err(String::new());
            },
        };
        let ghost u = url@;
        self.visited.push(url);
        self.frontier = next;
        proof {
            assert(self.visited_seq() =~= oldst.visited_seq().push(u));
            assert(self.visited_seq().no_duplicates());
        }
        merge_links(&mut self.products, &links);
        proof {
            assert(self.product_set() =~= oldst.product_set().union(
                product_links_of(anchor_hrefs(html@)),
            ));
            assert(oldst.product_set().subset_of(self.product_set()));
        }
        Ok(())
    }
}

} // verus!
