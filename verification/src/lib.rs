//! A site-crawling HTTP load generator: the discovery frontier, the
//! virtual-user load plan and the statistics aggregator, with the rules
//! that decide what is fetched, when a run stops and what is reported.

pub mod crawl;
pub mod discovery;
pub mod duration;
pub mod extract;
pub mod frontier;
pub mod load;
pub mod orchestrator;
pub mod report;
pub mod request;
pub mod sitemap;
pub mod stats;
pub mod text;
pub mod urls;
