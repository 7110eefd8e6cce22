//! A depth-bounded link crawler: anchor extraction over HTML tokens, URL
//! resolution against a page's domain root, and the decisions of the crawl
//! scheduler, each stated as a contract.

pub mod web_url;
pub mod extract;
pub mod crawl;
