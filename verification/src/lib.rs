pub mod crawl;
pub mod errors;
pub mod links;
pub mod scrape;
pub mod state;
