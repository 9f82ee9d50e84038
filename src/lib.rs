//! A programmable web crawler: the verified core.
//!
//! The library holds the crawl engine's bookkeeping (work queue, visited set,
//! in-flight bound, depth cap), the URL rules that gate every discovered link,
//! the handler registry and the fuzzer's request driver. The asynchronous
//! fetch tasks and the user's callbacks are run by the caller, which hands the
//! engine each outcome and receives the next action.

pub mod auxiliary;
pub mod config;
pub mod engine;
pub mod error;
pub mod fuzz;
pub mod handler;
pub mod link;

pub use auxiliary::{absolute_url, attribute_link, is_allowed, is_visited, VisitedSet};
pub use config::CrawlConfig;
pub use engine::CrawlEngine;
pub use error::CrawlError;
pub use fuzz::FuzzEngine;
pub use handler::{compile_selectors, HandlerEvent, Page, Registry};
pub use link::Url;
