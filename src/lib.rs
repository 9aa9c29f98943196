//! A same-subdomain web crawler's core: href normalization, frontier keys,
//! the claim set that gates duplicate work, link extraction from pages and
//! the decisions of the two pipeline workers.
pub mod frontier;
pub mod href;
pub mod link;
pub mod link_parser;
pub mod page;
pub mod pipeline;

pub use frontier::Frontier;
pub use href::normalize_href;
pub use link::{ends_with, ends_with_any, path_key, Link};
pub use link_parser::LinkParser;
pub use page::{links_from_hrefs, parse_html, parse_urls};
pub use pipeline::{next_step, seed_frontier, Inbound, Next, Seed, SeedError};
