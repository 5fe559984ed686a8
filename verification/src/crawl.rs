//! The crawl loop, verified against a table of pages: the pagination chain it
//! follows, the conditions under which it stops, and the product set it
//! returns.

use crate::errors::CrawlError;
use crate::links::product_links_of;
use crate::scrape::{anchor_hrefs, next_link_of, opt_view};
use crate::state::CrawlState;
use vstd::prelude::*;
use vstd::seq_lib::seq_to_set_is_finite;
use vstd::set_lib::lemma_len_subset;

verus! {

/// The html that a page table holds for `url`: the second component of the
/// first pair whose first component equals `url`.
pub open spec fn page_html(pages: Seq<(String, String)>, url: Seq<char>) -> Option<Seq<char>>
    decreases pages.len(),
{
    if pages.len() == 0 {
        None
    } else if pages[0].0@ == url {
        Some(pages[0].1@)
    } else {
        page_html(pages.drop_first(), url)
    }
}

/// The URLs a page table serves.
pub open spec fn page_url_seq(pages: Seq<(String, String)>) -> Seq<Seq<char>> {
    pages.map_values(|p: (String, String)| p.0@)
}

/// A URL the table serves is among its URLs.
pub proof fn lemma_page_html_some_in_urls(pages: Seq<(String, String)>, url: Seq<char>)
    requires
        page_html(pages, url) is Some,
    ensures
        page_url_seq(pages).contains(url),
    decreases pages.len(),
{
    if pages.len() == 0 {
    } else if pages[0].0@ == url {
        assert(page_url_seq(pages)[0] == url);
    } else {
        lemma_page_html_some_in_urls(pages.drop_first(), url);
        let md = page_url_seq(pages.drop_first());
        let i = choose|i: int| 0 <= i < md.len() && md[i] == url;
        assert(page_url_seq(pages)[i + 1] == url);
    }
}

/// A duplicate-free sequence drawn from a pool is no longer than the pool.
pub proof fn lemma_unique_drawn_bounded(drawn: Seq<Seq<char>>, pool: Seq<Seq<char>>)
    requires
        drawn.no_duplicates(),
        forall|i: int| 0 <= i < drawn.len() ==> pool.contains(#[trigger] drawn[i]),
    ensures
        drawn.len() <= pool.len(),
{
    drawn.unique_seq_to_set();
    pool.lemma_cardinality_of_set();
    seq_to_set_is_finite(pool);
    assert(drawn.to_set().subset_of(pool.to_set())) by {
        assert forall|x: Seq<char>| drawn.to_set().contains(x) implies pool.to_set().contains(
            x,
        ) by {
            let i = choose|i: int| 0 <= i < drawn.len() && drawn[i] == x;
            assert(pool.contains(drawn[i]));
        }
    }
    lemma_len_subset(drawn.to_set(), pool.to_set());
}

/// `trace` is a pagination chain through `pages` starting at `seed`: every
/// entry is served by the table, the first is the seed, each later one is the
/// next-link of the page before it, and none repeats.
pub open spec fn is_crawl_trace(
    pages: Seq<(String, String)>,
    seed: Seq<char>,
    trace: Seq<Seq<char>>,
) -> bool {
    &&& trace.no_duplicates()
    &&& (trace.len() > 0 ==> trace[0] == seed)
    &&& (forall|i: int| 0 <= i < trace.len() ==> (#[trigger] page_html(pages, trace[i])) is Some)
    &&& (forall|i: int|
        1 <= i < trace.len() ==> next_link_of(page_html(pages, trace[i - 1])->0) == Some(
            #[trigger] trace[i],
        ))
}

/// The product links of all pages of `trace`, united in visitation order.
pub open spec fn trace_products(
    pages: Seq<(String, String)>,
    trace: Seq<Seq<char>>,
) -> Set<Seq<char>>
    decreases trace.len(),
{
    if trace.len() == 0 {
        Set::empty()
    } else {
        trace_products(pages, trace.drop_last()).union(
            product_links_of(anchor_hrefs(page_html(pages, trace.last())->0)),
        )
    }
}

/// The frontier continues the trace: before any page is processed it is the
/// seed; afterwards it is the next-link of the last page processed.
pub open spec fn frontier_continues(
    pages: Seq<(String, String)>,
    seed: Seq<char>,
    st: CrawlState,
) -> bool {
    if st.visited_seq().len() == 0 {
        opt_view(st.frontier) == Some(seed)
    } else {
        opt_view(st.frontier) == next_link_of(page_html(pages, st.visited_seq().last())->0)
    }
}

/// The run stopped legitimately: pagination ended, or the next link pointed
/// back at a page already visited (the cycle guard).
pub open spec fn crawl_stopped(st: CrawlState) -> bool {
    match st.frontier {
        None => true,
        Some(f) => st.visited_seq().contains(f@),
    }
}

/// The cycle guard ends every chain: when the next link of the page at
/// position `k` of a crawl trace is a URL already visited by then, `k` is the
/// last position — no valid trace continues past it.
pub proof fn lemma_repeated_next_ends_trace(
    pages: Seq<(String, String)>,
    seed: Seq<char>,
    trace: Seq<Seq<char>>,
    k: int,
    u: Seq<char>,
)
    requires
        is_crawl_trace(pages, seed, trace),
        0 <= k < trace.len(),
        next_link_of(page_html(pages, trace[k])->0) == Some(u),
        trace.take(k + 1).contains(u),
    ensures
        k == trace.len() - 1,
{
    if k < trace.len() - 1 {
        assert(next_link_of(page_html(pages, trace[k])->0) == Some(trace[k + 1]));
        let j = choose|j: int| 0 <= j < trace.take(k + 1).len() && #[trigger] trace.take(k + 1)[j]
            == u;
        assert(trace[j] == trace[k + 1]);
        assert(false);
    }
}

/// Exhausted pagination ends every chain: when the page at position `k` of a
/// crawl trace has no next link, `k` is the last position.
pub proof fn lemma_no_next_ends_trace(
    pages: Seq<(String, String)>,
    seed: Seq<char>,
    trace: Seq<Seq<char>>,
    k: int,
)
    requires
        is_crawl_trace(pages, seed, trace),
        0 <= k < trace.len(),
        next_link_of(page_html(pages, trace[k])->0) is None,
    ensures
        k == trace.len() - 1,
{
    if k < trace.len() - 1 {
        assert(next_link_of(page_html(pages, trace[k])->0) == Some(trace[k + 1]));
    }
}

/// Find the html stored for `url` among `pages`, first match.
fn lookup_page<'a>(pages: &'a Vec<(String, String)>, url: &String) -> (r: Option<&'a String>)
    ensures
        match r {
            Some(h) => page_html(pages@, url@) == Some(h@),
            None => page_html(pages@, url@) is None,
        },
{
    let mut k: usize = 0;
    proof {
        assert(pages@.skip(0) =~= pages@);
    }
    while k < pages.len()
        invariant
            k <= pages.len(),
            page_html(pages@.skip(k as int), url@) == page_html(pages@, url@),
        decreases pages.len() - k,
    {
        if pages[k].0.eq(url) {
            proof {
                assert(pages@.skip(k as int)[0] == pages@[k as int]);
            }
            return Some(&pages[k].1);
        }
        proof {
            assert(pages@.skip(k as int)[0] == pages@[k as int]);
            assert(pages@.skip(k as int).drop_first() =~= pages@.skip(k + 1));
        }
        k = k + 1;
    }
    proof {
        assert(pages@.skip(pages@.len() as int) =~= Seq::<(String, String)>::empty());
    }
    None
}

/// Crawl the pages of a table, starting from `seed`: follow next-links page
/// by page, collect the unique product links of every page visited, and stop
/// when pagination ends or a next-link repeats an earlier page.  The parser
/// succeeds on every page, so the one way a run can fail is a fetch error,
/// naming the URL on the chain that the table does not serve.
pub fn crawl_shop(seed: &String, pages: &Vec<(String, String)>) -> (r: Result<
    CrawlState,
    CrawlError,
>)
    ensures
        match r {
            Ok(st) => {
                &&& st.wf()
                &&& is_crawl_trace(pages@, seed@, st.visited_seq())
                &&& st.visited_seq().len() > 0
                &&& frontier_continues(pages@, seed@, st)
                &&& crawl_stopped(st)
                &&& st.product_set() == trace_products(pages@, st.visited_seq())
            },
            Err(e) => match e {
                CrawlError::Fetch { url, detail: _ } => {
                    &&& page_html(pages@, url@) is None
                    &&& (url@ == seed@ || exists|t: Seq<Seq<char>>|
                        #[trigger] is_crawl_trace(pages@, seed@, t) && t.len() > 0 && next_link_of(
                            page_html(pages@, t.last())->0,
                        ) == Some(url@))
                },
                CrawlError::Parse { url: _, detail: _ } => false,
            },
        },
{
    let mut st = CrawlState::new(seed.clone());
    loop
        invariant
            st.wf(),
            is_crawl_trace(pages@, seed@, st.visited_seq()),
            frontier_continues(pages@, seed@, st),
            st.product_set() == trace_products(pages@, st.visited_seq()),
            st.visited@.len() <= pages@.len(),
        decreases pages@.len() - st.visited@.len(),
    {
        let ghost trace = st.visited_seq();
        let target = match st.current_target() {
            None => {
                proof {
                    if st.visited_seq().len() == 0 {
                        assert(opt_view(st.frontier) == Some(seed@));
                        assert(false);
                    }
                }
                return Ok(st);
            },
            Some(u) => u,
        };
        let html = match lookup_page(pages, &target) {
            None => {
                proof {
                    if st.visited_seq().len() > 0 {
                        assert(is_crawl_trace(pages@, seed@, trace) && trace.len() > 0
                            && next_link_of(page_html(pages@, trace.last())->0) == Some(target@));
                    }
                }
                return Err(
                    CrawlError::Fetch { url: target, detail: String::from_str("page not served") },
                );
            },
            Some(h) => h,
        };
        let ghost hv = html@;
        match st.process_page(html.as_str()) {
            Ok(_) => {},
            Err(e) => {
                return Err(CrawlError::Parse { url: target, detail: e });
            },
        }
        proof {
            let trace2 = st.visited_seq();
            assert(trace2 == trace.push(target@));
            assert(trace2.drop_last() =~= trace);
            assert(trace2.last() == target@);
            assert(page_html(pages@, target@) == Some(hv));
            assert(is_crawl_trace(pages@, seed@, trace2)) by {
                assert forall|i: int| 0 <= i < trace2.len() implies (#[trigger] page_html(
                    pages@,
                    trace2[i],
                )) is Some by {
                    if i < trace.len() {
                        assert(trace2[i] == trace[i]);
                    } else {
                        assert(trace2[i] == target@);
                    }
                }
                assert forall|i: int| 1 <= i < trace2.len() implies next_link_of(
                    page_html(pages@, trace2[i - 1])->0,
                ) == Some(#[trigger] trace2[i]) by {
                    if i < trace.len() {
                        assert(trace2[i] == trace[i]);
                        assert(trace2[i - 1] == trace[i - 1]);
                    } else {
                        assert(trace2[i] == target@);
                        assert(trace2[i - 1] == trace.last());
                    }
                }
            }
            assert(st.product_set() == trace_products(pages@, trace2));
            assert(frontier_continues(pages@, seed@, st));
            lemma_page_html_some_in_urls(pages@, target@);
            assert forall|i: int| 0 <= i < trace2.len() implies page_url_seq(pages@).contains(
                #[trigger] trace2[i],
            ) by {
                assert(page_html(pages@, trace2[i]) is Some);
                lemma_page_html_some_in_urls(pages@, trace2[i]);
            }
            lemma_unique_drawn_bounded(trace2, page_url_seq(pages@));
        }
    }
}

} // verus!
