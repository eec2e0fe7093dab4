//! Crawl engine for a trading-card combo database: builds search queries,
//! walks the paginated results, tallies the cards of the combos found, and
//! keeps every fetched page so that no URL is ever fetched twice.
//!
//! The library performs no I/O. Fetching pages, persisting them and running
//! the crawl in the background are the caller's part; the decisions taken in
//! between are made here, and each of them is stated as a contract.

pub mod aggregate;
pub mod cache;
pub mod color;
pub mod crawl;
pub mod error;
pub mod extract;
pub mod order;
pub mod query;
pub mod report;
pub mod selection;
pub mod task;
pub mod text;
pub mod web_page;

pub use aggregate::CrawlerResult;
pub use color::Color;
pub use color::Format;
pub use crawl::Crawl;
pub use error::CrawlError;
pub use task::CrawlerTask;
pub use web_page::WebPage;
