//! The crawl settings that the engine enforces.

use vstd::prelude::*;
use crate::error::CrawlError;

verus! {

/// The default crawl depth.
pub const DEFAULT_DEPTH: usize = 2;

/// The default bound on concurrent fetches.
pub const DEFAULT_WORKERS: usize = 40;

/// Depth cap, worker bound, URL filters and the revisit flag of a crawl.
#[derive(Clone, Debug)]
pub struct CrawlConfig {
    /// Pages at this depth are fetched but not propagated from.
    pub depth: usize,
    /// At most this many fetches are in flight at once.
    pub workers: usize,
    /// A discovered URL must contain one of these, unless the list is empty.
    pub whitelist: Vec<String>,
    /// A discovered URL must contain none of these.
    pub blacklist: Vec<String>,
    /// When set, discovered URLs are enqueued again even if already seen.
    pub revisit: bool,
}

impl CrawlConfig {
    /// Depth 2, 40 workers, no filters, no revisits.
    pub fn new() -> (r: CrawlConfig)
        ensures
            r.depth == DEFAULT_DEPTH,
            r.workers == DEFAULT_WORKERS,
            r.whitelist@.len() == 0,
            r.blacklist@.len() == 0,
            !r.revisit,
    {
        CrawlConfig {
            depth: DEFAULT_DEPTH,
            workers: DEFAULT_WORKERS,
            whitelist: Vec::new(),
            blacklist: Vec::new(),
            revisit: false,
        }
    }

    /// Sets the crawl depth.
    pub fn depth(self, depth: usize) -> (r: CrawlConfig)
        ensures
            r == (CrawlConfig { depth, ..self }),
    {
        CrawlConfig { depth, ..self }
    }

    /// Sets the bound on concurrent fetches.
    pub fn workers(self, limit: usize) -> (r: CrawlConfig)
        ensures
            r == (CrawlConfig { workers: limit, ..self }),
    {
        CrawlConfig { workers: limit, ..self }
    }

    /// Sets whether seen URLs are enqueued again.
    pub fn revisit(self, revisit: bool) -> (r: CrawlConfig)
        ensures
            r == (CrawlConfig { revisit, ..self }),
    {
        CrawlConfig { revisit, ..self }
    }

    /// Adds `expr` to the whitelist.
    pub fn whitelist(self, expr: &str) -> (r: CrawlConfig)
        ensures
            r.whitelist@.map_values(|s: String| s@) == self.whitelist@.map_values(|s: String| s@).push(expr@),
            r.blacklist == self.blacklist,
            r.depth == self.depth,
            r.workers == self.workers,
            r.revisit == self.revisit,
    {
        let mut c = self;
        let ghost before = c.whitelist@;
        c.whitelist.push(String::from_str(expr));
        assert(c.whitelist@.map_values(|s: String| s@) =~= before.map_values(|s: String| s@).push(expr@));
        c
    }

    /// Adds `expr` to the blacklist.
    pub fn blacklist(self, expr: &str) -> (r: CrawlConfig)
        ensures
            r.blacklist@.map_values(|s: String| s@) == self.blacklist@.map_values(|s: String| s@).push(expr@),
            r.whitelist == self.whitelist,
            r.depth == self.depth,
            r.workers == self.workers,
            r.revisit == self.revisit,
    {
        let mut c = self;
        let ghost before = c.blacklist@;
        c.blacklist.push(String::from_str(expr));
        assert(c.blacklist@.map_values(|s: String| s@) =~= before.map_values(|s: String| s@).push(expr@));
        c
    }

    /// Checks the settings: the worker bound must be at least 1.
    pub fn validate(&self) -> (r: Result<(), CrawlError>)
        ensures
            r is Ok <==> self.workers >= 1,
            r is Err ==> r->Err_0 is NoWorkers,
    {
        if self.workers == 0 {
            Err(CrawlError::NoWorkers)
        } else {
            Ok(())
        }
    }
}

} // verus!
