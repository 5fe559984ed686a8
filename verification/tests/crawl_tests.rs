use ecommerce_scraper::crawl::crawl_shop;
use ecommerce_scraper::errors::CrawlError;
use ecommerce_scraper::links::{contains_product_marker, filter_product_links};
use ecommerce_scraper::scrape::parse_listing_page;
use ecommerce_scraper::state::CrawlState;

fn page_a() -> String {
    "<html><body><a href=\"/product/alpha\">alpha</a><a href=\"/product/beta\">beta</a><a href=\"/product/gamma\">gamma</a><a class=\"next page-numbers\" href=\"https://shop.example/page/2\">next</a></body></html>"
    .to_string()
}

fn page_b() -> String {
    "<html><body><a href=\"/product/gamma\">gamma</a><a href=\"/product/delta\">delta</a></body></html>"
    .to_string()
}

#[test]
fn marker_detection() {
    assert!(contains_product_marker("/product/alpha"));
    assert!(contains_product_marker("https://shop.example/product/x?y=1"));
    assert!(contains_product_marker("/product/"));
    assert!(!contains_product_marker("/products"));
    assert!(!contains_product_marker("/about"));
    assert!(!contains_product_marker(""));
    assert!(!contains_product_marker("product/"));
}

#[test]
fn filter_keeps_marked_hrefs_once() {
    let hrefs = vec![
        "/about".to_string(),
        "/product/a".to_string(),
        "/product/b".to_string(),
        "/product/a".to_string(),
        "/contact".to_string(),
    ];
    let links = filter_product_links(&hrefs);
    assert_eq!(links, vec!["/product/a".to_string(), "/product/b".to_string()]);
}

#[test]
fn parse_extracts_links_and_next() {
    let (links, next) = parse_listing_page(&page_a()).expect("page A parses");
    assert_eq!(
        links,
        vec![
            "/product/alpha".to_string(),
            "/product/beta".to_string(),
            "/product/gamma".to_string()
        ]
    );
    assert_eq!(next, Some("https://shop.example/page/2".to_string()));
}

#[test]
fn parse_last_page_has_no_next() {
    let (links, next) = parse_listing_page(&page_b()).expect("page B parses");
    assert_eq!(links, vec!["/product/gamma".to_string(), "/product/delta".to_string()]);
    assert_eq!(next, None);
}

#[test]
fn parse_is_deterministic() {
    let first = parse_listing_page(&page_a()).expect("page A parses");
    let second = parse_listing_page(&page_a()).expect("page A parses");
    assert_eq!(first, second);
}

#[test]
fn parse_skips_anchors_without_href() {
    let html = "<html><body><a>no href</a><a href=\"/product/q\">q</a></body></html>";
    let (links, next) = parse_listing_page(html).expect("parses");
    assert_eq!(links, vec!["/product/q".to_string()]);
    assert_eq!(next, None);
}

#[test]
fn two_page_crawl_collects_union_in_order() {
    let seed = "https://shop.example/page/1".to_string();
    let pages = vec![
        ("https://shop.example/page/1".to_string(), page_a()),
        ("https://shop.example/page/2".to_string(), page_b()),
    ];
    let st = crawl_shop(&seed, &pages).expect("crawl succeeds");
    assert_eq!(
        st.visited,
        vec!["https://shop.example/page/1".to_string(), "https://shop.example/page/2".to_string()]
    );
    assert_eq!(st.products.len(), 4);
    assert_eq!(
        st.products,
        vec![
            "/product/alpha".to_string(),
            "/product/beta".to_string(),
            "/product/gamma".to_string(),
            "/product/delta".to_string()
        ]
    );
    assert_eq!(st.frontier, None);
}

#[test]
fn single_page_without_next_stops() {
    let seed = "https://shop.example/only".to_string();
    let pages = vec![("https://shop.example/only".to_string(), page_b())];
    let st = crawl_shop(&seed, &pages).expect("crawl succeeds");
    assert_eq!(st.visited, vec![seed.clone()]);
    assert_eq!(st.products, vec!["/product/gamma".to_string(), "/product/delta".to_string()]);
    assert_eq!(st.frontier, None);
}

#[test]
fn repeated_next_link_stops_without_error() {
    // Page 2 points back at page 1: the cycle guard must end the run silently
    // after page 2, with both pages visited exactly once.
    let loop_back = "<html><body><a href=\"/product/delta\">delta</a><a class=\"next page-numbers\" href=\"https://shop.example/page/1\">next</a></body></html>"
    .to_string();
    let seed = "https://shop.example/page/1".to_string();
    let pages = vec![
        ("https://shop.example/page/1".to_string(), page_a()),
        ("https://shop.example/page/2".to_string(), loop_back),
    ];
    let st = crawl_shop(&seed, &pages).expect("cycle is not an error");
    assert_eq!(
        st.visited,
        vec!["https://shop.example/page/1".to_string(), "https://shop.example/page/2".to_string()]
    );
    assert_eq!(st.products.len(), 4);
    assert_eq!(st.frontier, Some("https://shop.example/page/1".to_string()));
}

#[test]
fn self_referential_next_link_stops() {
    let selfish = "<html><body><a href=\"/product/a\">a</a><a class=\"next page-numbers\" href=\"https://shop.example/me\">next</a></body></html>"
    .to_string();
    let seed = "https://shop.example/me".to_string();
    let pages = vec![("https://shop.example/me".to_string(), selfish)];
    let st = crawl_shop(&seed, &pages).expect("self-loop is not an error");
    assert_eq!(st.visited, vec![seed.clone()]);
    assert_eq!(st.products, vec!["/product/a".to_string()]);
}

#[test]
fn missing_second_page_aborts_with_fetch_error() {
    // Page A succeeds, its next-link is not served: the run must abort with a
    // fetch error naming page B, and A's links must not be returned.
    let seed = "https://shop.example/page/1".to_string();
    let pages = vec![("https://shop.example/page/1".to_string(), page_a())];
    let err = crawl_shop(&seed, &pages).expect_err("fetch of page 2 fails");
    match err {
        CrawlError::Fetch { ref url, .. } => {
            assert_eq!(url.as_str(), "https://shop.example/page/2");
        },
        CrawlError::Parse { .. } => panic!("expected a fetch error"),
    }
    assert!(err.is_fetch());
    assert_eq!(err.url().as_str(), "https://shop.example/page/2");
}

#[test]
fn missing_seed_aborts_with_fetch_error() {
    let seed = "https://shop.example/absent".to_string();
    let pages: Vec<(String, String)> = Vec::new();
    let err = crawl_shop(&seed, &pages).expect_err("seed fetch fails");
    assert!(err.is_fetch());
    assert_eq!(err.url().as_str(), "https://shop.example/absent");
}

#[test]
fn unmarked_page_contributes_nothing() {
    let plain = "<html><body><a href=\"/about\">about</a><a href=\"/contact\">contact</a></body></html>"
    .to_string();
    let seed = "https://shop.example/plain".to_string();
    let pages = vec![("https://shop.example/plain".to_string(), plain)];
    let st = crawl_shop(&seed, &pages).expect("crawl succeeds");
    assert_eq!(st.products.len(), 0);
    assert_eq!(st.visited, vec![seed.clone()]);
}

#[test]
fn state_steps_match_the_loop() {
    let mut st = CrawlState::new("https://shop.example/page/1".to_string());
    assert_eq!(st.current_target(), Some("https://shop.example/page/1".to_string()));
    st.process_page(&page_a()).expect("page A parses");
    assert_eq!(st.visited, vec!["https://shop.example/page/1".to_string()]);
    assert_eq!(st.products.len(), 3);
    assert_eq!(st.frontier, Some("https://shop.example/page/2".to_string()));
    assert_eq!(st.current_target(), Some("https://shop.example/page/2".to_string()));
    st.process_page(&page_b()).expect("page B parses");
    assert_eq!(st.products.len(), 4);
    assert_eq!(st.frontier, None);
    assert_eq!(st.current_target(), None);
}

#[test]
fn cycle_guard_yields_no_target() {
    let mut st = CrawlState::new("https://shop.example/page/1".to_string());
    st.process_page(&page_a()).expect("page A parses");
    // Point the frontier back at the page already visited.
    st.frontier = Some("https://shop.example/page/1".to_string());
    assert_eq!(st.current_target(), None);
}

#[test]
fn parse_error_variant_reports_its_page() {
    let err = CrawlError::Parse {
        url: "https://shop.example/bad".to_string(),
        detail: "selector failed".to_string(),
    };
    assert!(!err.is_fetch());
    assert_eq!(err.url().as_str(), "https://shop.example/bad");
}
