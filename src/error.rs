//! Errors that stop a crawl or reject an input.

use vstd::prelude::*;

verus! {

/// What went wrong, with the offending input.
#[derive(Debug)]
pub enum CrawlError {
    /// A link that neither parses as an absolute URL nor joins onto its base.
    InvalidLink(String),
    /// The seed of a crawl does not parse as an absolute URL.
    InvalidSeed(String),
    /// A CSS selector of a registered handler or propagator does not parse.
    InvalidSelector(String),
    /// The configured worker bound is zero.
    NoWorkers,
}

impl CrawlError {
    /// The input this error is about (empty for `NoWorkers`).
    pub open spec fn subject(&self) -> Seq<char> {
        match self {
            CrawlError::InvalidLink(s) => s@,
            CrawlError::InvalidSeed(s) => s@,
            CrawlError::InvalidSelector(s) => s@,
            CrawlError::NoWorkers => Seq::empty(),
        }
    }

    /// A short description naming the offending input.
    pub fn describe(&self) -> (r: String)
        ensures
            r@ == self.prefix() + self.subject(),
    {
        let mut r = match self {
            CrawlError::InvalidLink(_) => String::from_str("invalid link: "),
            CrawlError::InvalidSeed(_) => String::from_str("invalid seed url: "),
            CrawlError::InvalidSelector(_) => String::from_str("invalid selector "),
            CrawlError::NoWorkers => String::from_str("the worker bound must be at least 1"),
        };
        match self {
            CrawlError::InvalidLink(s) => r.append(s.as_str()),
            CrawlError::InvalidSeed(s) => r.append(s.as_str()),
            CrawlError::InvalidSelector(s) => r.append(s.as_str()),
            CrawlError::NoWorkers => {},
        }
        r
    }

    /// The fixed part of `describe`.
    pub open spec fn prefix(&self) -> Seq<char> {
        match self {
            CrawlError::InvalidLink(_) => "invalid link: "@,
            CrawlError::InvalidSeed(_) => "invalid seed url: "@,
            CrawlError::InvalidSelector(_) => "invalid selector "@,
            CrawlError::NoWorkers => "the worker bound must be at least 1"@,
        }
    }
}

} // verus!
