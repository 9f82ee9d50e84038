//! The crawl engine: the bookkeeping of a bounded, breadth-first crawl.
//!
//! The engine owns the FIFO work queue of (URL, depth) pairs, the visited
//! set, the in-flight count and the collected fetch errors. Whoever drives it
//! runs the fetches and the callbacks: it takes the next batch of work with
//! `fill`, reports each outcome with `record_page` or `record_failure`, hands
//! the URLs that propagators return to `propagate`, and stops when
//! `has_work` is false.
//!
//! Besides the state, the engine keeps two ghost histories: every item ever
//! enqueued, and every item ever handed out for fetching, each in order.

use vstd::prelude::*;
use vstd::set_lib::lemma_len_subset;
use std::collections::VecDeque;
use crate::auxiliary::{allowed, is_allowed, is_visited, texts, VisitedSet};
use crate::config::CrawlConfig;
use crate::error::CrawlError;
use crate::link::{parsed_url, Url};

verus! {

/// A work item as the contracts see it: the URL's string form and its depth.
pub open spec fn item_view(p: (Url, usize)) -> (Seq<char>, int) {
    (p.0@, p.1 as int)
}

/// Tags each URL with depth `d`.
pub open spec fn at_depth(urls: Seq<Seq<char>>, d: int) -> Seq<(Seq<char>, int)> {
    urls.map_values(|u: Seq<char>| (u, d))
}

/// The URLs of `found`, in order, that pass the filters and, unless
/// `revisit`, were neither in `seen` nor admitted earlier in the same batch.
pub open spec fn admitted(
    found: Seq<Seq<char>>,
    seen: Set<Seq<char>>,
    wl: Seq<Seq<char>>,
    bl: Seq<Seq<char>>,
    revisit: bool,
) -> Seq<Seq<char>>
    decreases found.len(),
{
    if found.len() == 0 {
        Seq::empty()
    } else {
        let prev = admitted(found.drop_last(), seen, wl, bl, revisit);
        let u = found.last();
        if allowed(u, wl, bl) && (revisit || !(seen.contains(u) || prev.contains(u))) {
            prev.push(u)
        } else {
            prev
        }
    }
}

/// The state of one crawl.
pub struct CrawlEngine<E> {
    config: CrawlConfig,
    queue: VecDeque<(Url, usize)>,
    visited: VisitedSet,
    in_flight: usize,
    errors: Vec<E>,
    seed: Ghost<Seq<char>>,
    enqueued: Ghost<Seq<(Seq<char>, int)>>,
    dispatched: Ghost<Seq<(Seq<char>, int)>>,
}

impl<E> CrawlEngine<E> {
    /// Pages at this depth are not propagated from.
    pub closed spec fn max_depth(&self) -> int {
        self.config.depth as int
    }

    /// The bound on fetches in flight.
    pub closed spec fn workers(&self) -> int {
        self.config.workers as int
    }

    /// Whether seen URLs are enqueued again.
    pub closed spec fn revisit(&self) -> bool {
        self.config.revisit
    }

    /// The whitelist entries.
    pub closed spec fn whitelist(&self) -> Seq<Seq<char>> {
        texts(self.config.whitelist@)
    }

    /// The blacklist entries.
    pub closed spec fn blacklist(&self) -> Seq<Seq<char>> {
        texts(self.config.blacklist@)
    }

    /// Fetches handed out whose outcome has not been reported yet.
    pub closed spec fn in_flight(&self) -> int {
        self.in_flight as int
    }

    /// The work queue, front first.
    pub closed spec fn queue(&self) -> Seq<(Seq<char>, int)> {
        self.queue@.map_values(|p: (Url, usize)| item_view(p))
    }

    /// The visited set.
    pub closed spec fn visited(&self) -> Set<Seq<char>> {
        self.visited@
    }

    /// The fetch errors collected so far, in order of arrival.
    pub closed spec fn errors(&self) -> Seq<E> {
        self.errors@
    }

    /// The seed URL.
    pub closed spec fn seed(&self) -> Seq<char> {
        self.seed@
    }

    /// Every item ever enqueued, in order.
    pub closed spec fn enqueued(&self) -> Seq<(Seq<char>, int)> {
        self.enqueued@
    }

    /// Every item ever handed out for fetching, in order.
    pub closed spec fn dispatched(&self) -> Seq<(Seq<char>, int)> {
        self.dispatched@
    }

    /// Fetches whose outcome has been reported.
    pub open spec fn completed(&self) -> int {
        self.dispatched().len() - self.in_flight()
    }

    /// Nothing queued and nothing in flight.
    pub open spec fn finished(&self) -> bool {
        self.queue().len() == 0 && self.in_flight() == 0
    }

    /// The same crawl: settings and seed agree.
    pub open spec fn same_crawl(&self, other: &Self) -> bool {
        &&& self.max_depth() == other.max_depth()
        &&& self.workers() == other.workers()
        &&& self.revisit() == other.revisit()
        &&& self.whitelist() == other.whitelist()
        &&& self.blacklist() == other.blacklist()
        &&& self.seed() == other.seed()
    }

    /// The engine's invariant.
    pub open spec fn wf(&self) -> bool {
        &&& self.workers() >= 1
        &&& 0 <= self.in_flight() <= self.workers()
        &&& self.in_flight() <= self.dispatched().len()
        &&& self.enqueued() == self.dispatched() + self.queue()
        &&& self.enqueued().len() >= 1
        &&& self.enqueued()[0] == (self.seed(), 0int)
        &&& self.visited().contains(self.seed())
        &&& forall|i: int|
            0 <= i < self.enqueued().len() ==> 0 <= #[trigger] self.enqueued()[i].1 <= self.max_depth()
                && (i > 0 ==> self.enqueued()[i].1 >= 1)
        &&& forall|i: int|
            0 < i < self.enqueued().len() ==> allowed(
                #[trigger] self.enqueued()[i].0,
                self.whitelist(),
                self.blacklist(),
            )
        &&& !self.revisit() ==> forall|i: int, j: int|
            0 <= i < j < self.enqueued().len() ==> #[trigger] self.enqueued()[i].0
                != #[trigger] self.enqueued()[j].0
        &&& !self.revisit() ==> forall|u: Seq<char>|
            #[trigger] self.visited().contains(u) <==> exists|i: int|
                0 <= i < self.enqueued().len() && #[trigger] self.enqueued()[i].0 == u
    }

    /// Starts a crawl at `seed` under `config`: the seed is queued at depth 0
    /// and marked visited. Fails when the worker bound is zero or the seed
    /// does not parse.
    pub fn new(seed: &str, config: CrawlConfig) -> (r: Result<CrawlEngine<E>, CrawlError>)
        ensures
            config.workers == 0 ==> r is Err && r->Err_0 is NoWorkers,
            config.workers >= 1 ==> (r is Ok <==> parsed_url(seed@) is Some),
            match r {
                Ok(e) => {
                    &&& e.wf()
                    &&& parsed_url(seed@) == Some(e.seed())
                    &&& e.queue() == seq![(e.seed(), 0int)]
                    &&& e.dispatched() == Seq::<(Seq<char>, int)>::empty()
                    &&& e.in_flight() == 0
                    &&& e.errors() == Seq::<E>::empty()
                    &&& e.visited() == Set::<Seq<char>>::empty().insert(e.seed())
                    &&& e.max_depth() == config.depth
                    &&& e.workers() == config.workers
                    &&& e.revisit() == config.revisit
                    &&& e.whitelist() == texts(config.whitelist@)
                    &&& e.blacklist() == texts(config.blacklist@)
                },
                Err(err) => config.workers >= 1 ==> err is InvalidSeed && err.subject() == seed@,
            },
    {
        if config.workers == 0 {
            return Err(CrawlError::NoWorkers);
        }
        match Url::parse(seed) {
            None => Err(CrawlError::InvalidSeed(String::from_str(seed))),
            Some(u) => {
                let mut visited = VisitedSet::new();
                let _ = is_visited(&u, &mut visited);
                let ghost s = u@;
                let ghost first = seq![(s, 0int)];
                let mut queue: VecDeque<(Url, usize)> = VecDeque::new();
                queue.push_back((u, 0));
                let e = CrawlEngine {
                    config,
                    queue,
                    visited,
                    in_flight: 0,
                    errors: Vec::new(),
                    seed: Ghost(s),
                    enqueued: Ghost(first),
                    dispatched: Ghost(Seq::empty()),
                };
                assert(e.queue() =~= seq![(s, 0int)]);
                assert(e.enqueued() =~= e.dispatched() + e.queue());
                assert(e.visited() =~= Set::<Seq<char>>::empty().insert(s));
                assert(e.enqueued()[0] == (s, 0int));
                assert forall|x: Seq<char>|
                    #[trigger] e.visited().contains(x) <==> exists|i: int|
                        0 <= i < e.enqueued().len() && #[trigger] e.enqueued()[i].0 == x by {
                    if x == s {
                        assert(e.enqueued()[0].0 == x);
                    }
                }
                Ok(e)
            },
        }
    }

    /// Whether the crawl goes on: something is queued or in flight.
    pub fn has_work(&self) -> (r: bool)
        ensures
            r == !self.finished(),
    {
        self.queue.len() > 0 || self.in_flight > 0
    }

    /// The number of fetches in flight.
    pub fn in_flight_count(&self) -> (r: usize)
        ensures
            r == self.in_flight(),
    {
        self.in_flight
    }

    /// The number of queued items.
    pub fn queue_len(&self) -> (r: usize)
        ensures
            r == self.queue().len(),
    {
        self.queue.len()
    }

    /// Hands out the front of the queue for fetching, if a worker is free.
    pub fn next_fetch(&mut self) -> (r: Option<(Url, usize)>)
        requires
            old(self).wf(),
        ensures
            final(self).wf(),
            final(self).same_crawl(old(self)),
            final(self).enqueued() == old(self).enqueued(),
            final(self).visited() == old(self).visited(),
            final(self).errors() == old(self).errors(),
            old(self).in_flight() < old(self).workers() && old(self).queue().len() > 0 ==> {
                &&& r is Some
                &&& item_view(r->Some_0) == old(self).queue()[0]
                &&& final(self).queue() == old(self).queue().drop_first()
                &&& final(self).in_flight() == old(self).in_flight() + 1
                &&& final(self).dispatched() == old(self).dispatched().push(old(self).queue()[0])
            },
            !(old(self).in_flight() < old(self).workers() && old(self).queue().len() > 0) ==> {
                &&& r is None
                &&& final(self).queue() == old(self).queue()
                &&& final(self).in_flight() == old(self).in_flight()
                &&& final(self).dispatched() == old(self).dispatched()
            },
    {
        if self.in_flight < self.config.workers {
            match self.queue.pop_front() {
                Some(item) => {
                    self.in_flight = self.in_flight + 1;
                    self.dispatched = Ghost(self.dispatched@.push(item_view(item)));
                    assert(self.queue() =~= old(self).queue().drop_first());
                    assert(self.enqueued() =~= self.dispatched() + self.queue());
                    Some(item)
                },
                None => None,
            }
        } else {
            None
        }
    }

    /// The fill phase: hands out queue items, front first, until the queue
    /// is empty or the worker bound is reached.
    pub fn fill(&mut self) -> (r: Vec<(Url, usize)>)
        requires
            old(self).wf(),
        ensures
            final(self).wf(),
            final(self).same_crawl(old(self)),
            final(self).enqueued() == old(self).enqueued(),
            final(self).visited() == old(self).visited(),
            final(self).errors() == old(self).errors(),
            ({
                let k = if old(self).workers() - old(self).in_flight() < old(self).queue().len() {
                    old(self).workers() - old(self).in_flight()
                } else {
                    old(self).queue().len() as int
                };
                &&& r@.len() == k
                &&& r@.map_values(|p: (Url, usize)| item_view(p)) == old(self).queue().take(k)
                &&& final(self).queue() == old(self).queue().skip(k)
                &&& final(self).in_flight() == old(self).in_flight() + k
                &&& final(self).dispatched() == old(self).dispatched() + old(self).queue().take(k)
            }),
    {
        let mut out: Vec<(Url, usize)> = Vec::new();
        loop
            invariant
                self.wf(),
                self.same_crawl(old(self)),
                self.enqueued() == old(self).enqueued(),
                self.visited() == old(self).visited(),
                self.errors() == old(self).errors(),
                out@.len() <= old(self).queue().len(),
                self.in_flight() == old(self).in_flight() + out@.len(),
                out@.map_values(|p: (Url, usize)| item_view(p)) == old(self).queue().take(out@.len() as int),
                self.queue() == old(self).queue().skip(out@.len() as int),
                self.dispatched() == old(self).dispatched() + old(self).queue().take(out@.len() as int),
            decreases self.queue().len(),
        {
            let ghost before = out@;
            let ghost q = self.queue();
            match self.next_fetch() {
                Some(item) => {
                    out.push(item);
                    assert(q[0] == old(self).queue()[before.len() as int]);
                    assert(out@.map_values(|p: (Url, usize)| item_view(p)) =~= old(self).queue().take(out@.len() as int));
                    assert(self.queue() =~= old(self).queue().skip(out@.len() as int));
                    assert(self.dispatched() =~= old(self).dispatched() + old(self).queue().take(out@.len() as int));
                },
                None => {
                    return out;
                },
            }
        }
    }

    /// Reports a fetch that failed: the error is collected and the crawl
    /// goes on.
    pub fn record_failure(&mut self, err: E)
        requires
            old(self).wf(),
            old(self).in_flight() > 0,
        ensures
            final(self).wf(),
            final(self).same_crawl(old(self)),
            final(self).in_flight() == old(self).in_flight() - 1,
            final(self).errors() == old(self).errors().push(err),
            final(self).queue() == old(self).queue(),
            final(self).enqueued() == old(self).enqueued(),
            final(self).dispatched() == old(self).dispatched(),
            final(self).visited() == old(self).visited(),
    {
        self.in_flight = self.in_flight - 1;
        self.errors.push(err);
    }

    /// Reports a page fetched at `depth`. True when its propagators are to
    /// run: only pages above the depth cap propagate.
    pub fn record_page(&mut self, depth: usize) -> (r: bool)
        requires
            old(self).wf(),
            old(self).in_flight() > 0,
        ensures
            final(self).wf(),
            final(self).same_crawl(old(self)),
            r == (depth < old(self).max_depth()),
            final(self).in_flight() == old(self).in_flight() - 1,
            final(self).errors() == old(self).errors(),
            final(self).queue() == old(self).queue(),
            final(self).enqueued() == old(self).enqueued(),
            final(self).dispatched() == old(self).dispatched(),
            final(self).visited() == old(self).visited(),
    {
        self.in_flight = self.in_flight - 1;
        depth < self.config.depth
    }

    /// Offers one discovered URL from a page at `depth`.
    fn offer(&mut self, depth: usize, u: Url) -> (r: bool)
        requires
            old(self).wf(),
            depth < old(self).max_depth(),
        ensures
            final(self).wf(),
            final(self).same_crawl(old(self)),
            final(self).in_flight() == old(self).in_flight(),
            final(self).errors() == old(self).errors(),
            final(self).dispatched() == old(self).dispatched(),
            r == (allowed(u@, old(self).whitelist(), old(self).blacklist()) && (old(self).revisit()
                || !old(self).visited().contains(u@))),
            r ==> final(self).queue() == old(self).queue().push((u@, depth + 1)),
            r ==> final(self).enqueued() == old(self).enqueued().push((u@, depth + 1)),
            !r ==> final(self).queue() == old(self).queue(),
            !r ==> final(self).enqueued() == old(self).enqueued(),
            final(self).visited() == if allowed(u@, old(self).whitelist(), old(self).blacklist())
                && !old(self).revisit() {
                old(self).visited().insert(u@)
            } else {
                old(self).visited()
            },
    {
        let pass = is_allowed(&u, &self.config.whitelist, &self.config.blacklist);
        if !pass {
            return false;
        }
        if !self.config.revisit && is_visited(&u, &mut self.visited) {
            assert(self.visited() =~= old(self).visited());
            assert(self.queue() =~= old(self).queue());
            assert(self.enqueued() == old(self).enqueued());
            assert(self.same_crawl(old(self)));
            return false;
        }
        let ghost uv = u@;
        let ghost old_enq = self.enqueued@;
        self.queue.push_back((u, depth + 1));
        self.enqueued = Ghost(self.enqueued@.push((uv, depth + 1)));
        assert(self.queue() =~= old(self).queue().push((uv, depth + 1)));
        assert(self.enqueued() =~= self.dispatched() + self.queue());
        assert(self.enqueued()[self.enqueued().len() - 1] == (uv, depth + 1));
        assert(self.enqueued()[0] == old_enq[0]);
        assert forall|i: int| 0 <= i < self.enqueued().len() implies 0 <= #[trigger] self.enqueued()[i].1
            <= self.max_depth() && (i > 0 ==> self.enqueued()[i].1 >= 1) by {
            if i < old_enq.len() {
                assert(self.enqueued()[i] == old_enq[i]);
            }
        }
        assert forall|i: int| 0 < i < self.enqueued().len() implies allowed(
            #[trigger] self.enqueued()[i].0,
            self.whitelist(),
            self.blacklist(),
        ) by {
            if i < old_enq.len() {
                assert(self.enqueued()[i] == old_enq[i]);
            } else {
                assert(self.enqueued()[i].0 == uv);
                assert(pass);
            }
        }
        if !self.config.revisit {
            assert forall|i: int, j: int|
                0 <= i < j < self.enqueued().len() implies #[trigger] self.enqueued()[i].0
                != #[trigger] self.enqueued()[j].0 by {
                if j == self.enqueued().len() - 1 {
                    assert(old(self).enqueued()[i] == self.enqueued()[i]);
                    assert(old(self).visited().contains(old(self).enqueued()[i].0));
                }
            }
            assert forall|x: Seq<char>|
                #[trigger] self.visited().contains(x) <==> exists|i: int|
                    0 <= i < self.enqueued().len() && #[trigger] self.enqueued()[i].0 == x by {
                if self.visited().contains(x) && x != uv {
                    let i = choose|i: int| 0 <= i < old_enq.len() && #[trigger] old_enq[i].0 == x;
                    assert(self.enqueued()[i] == old_enq[i]);
                }
                if x == uv {
                    assert(self.enqueued()[self.enqueued().len() - 1].0 == x);
                }
                if exists|i: int| 0 <= i < self.enqueued().len() && #[trigger] self.enqueued()[i].0 == x {
                    let i = choose|i: int| 0 <= i < self.enqueued().len() && #[trigger] self.enqueued()[i].0 == x;
                    if i < old_enq.len() {
                        assert(old_enq[i] == self.enqueued()[i]);
                    }
                }
            }
        }
        true
    }

    /// Hands the engine the URLs that a propagator returned for a page at
    /// `depth`. Below the depth cap, each URL in order that passes the
    /// filters and, unless revisiting, has not been seen, is marked visited
    /// and enqueued at `depth + 1`; at or beyond the cap nothing is.
    pub fn propagate(&mut self, depth: usize, found: &Vec<Url>)
        requires
            old(self).wf(),
        ensures
            final(self).wf(),
            final(self).same_crawl(old(self)),
            final(self).in_flight() == old(self).in_flight(),
            final(self).errors() == old(self).errors(),
            final(self).dispatched() == old(self).dispatched(),
            ({
                let new = if depth < old(self).max_depth() {
                    admitted(
                        found@.map_values(|u: Url| u@),
                        old(self).visited(),
                        old(self).whitelist(),
                        old(self).blacklist(),
                        old(self).revisit(),
                    )
                } else {
                    Seq::empty()
                };
                &&& final(self).queue() == old(self).queue() + at_depth(new, depth + 1)
                &&& final(self).enqueued() == old(self).enqueued() + at_depth(new, depth + 1)
                &&& final(self).visited() == if old(self).revisit() {
                    old(self).visited()
                } else {
                    old(self).visited().union(new.to_set())
                }
            }),
    {
        if depth >= self.config.depth {
            assert(self.queue() =~= old(self).queue() + at_depth(Seq::empty(), depth + 1));
            assert(self.enqueued() =~= old(self).enqueued() + at_depth(Seq::empty(), depth + 1));
            assert(self.visited() =~= old(self).visited().union(Seq::<Seq<char>>::empty().to_set()));
            return ;
        }
        let ghost urls = found@.map_values(|u: Url| u@);
        let ghost seen = old(self).visited();
        let ghost wl = old(self).whitelist();
        let ghost bl = old(self).blacklist();
        let ghost rv = old(self).revisit();
        let mut i: usize = 0;
        assert(urls.take(0) =~= Seq::<Seq<char>>::empty());
        assert(self.queue() =~= old(self).queue() + at_depth(Seq::empty(), depth + 1));
        assert(self.enqueued() =~= old(self).enqueued() + at_depth(Seq::empty(), depth + 1));
        assert(self.visited() =~= seen.union(Seq::<Seq<char>>::empty().to_set()));
        while i < found.len()
            invariant
                self.wf(),
                self.same_crawl(old(self)),
                depth < self.max_depth(),
                i <= found@.len(),
                urls == found@.map_values(|u: Url| u@),
                seen == old(self).visited(),
                wl == self.whitelist(),
                bl == self.blacklist(),
                rv == self.revisit(),
                self.in_flight() == old(self).in_flight(),
                self.errors() == old(self).errors(),
                self.dispatched() == old(self).dispatched(),
                self.queue() == old(self).queue() + at_depth(admitted(urls.take(i as int), seen, wl, bl, rv), depth + 1),
                self.enqueued() == old(self).enqueued() + at_depth(admitted(urls.take(i as int), seen, wl, bl, rv), depth + 1),
                self.visited() == if rv { seen } else { seen.union(admitted(urls.take(i as int), seen, wl, bl, rv).to_set()) },
            decreases found.len() - i,
        {
            let ghost prev = admitted(urls.take(i as int), seen, wl, bl, rv);
            let ghost u = urls[i as int];
            assert(urls.take(i + 1).drop_last() =~= urls.take(i as int));
            assert(urls.take(i + 1).last() == u);
            proof {
                if !rv {
                    assert(self.visited().contains(u) <==> (seen.contains(u) || prev.contains(u)));
                }
            }
            let ghost before_v = self.visited();
            let took = self.offer(depth, found[i].duplicate());
            let ghost next = admitted(urls.take(i + 1), seen, wl, bl, rv);
            proof {
                if took {
                    assert(next == prev.push(u));
                    assert(at_depth(next, depth + 1) =~= at_depth(prev, depth + 1).push((u, depth + 1)));
                    assert(self.queue() =~= old(self).queue() + at_depth(next, depth + 1));
                    assert(self.enqueued() =~= old(self).enqueued() + at_depth(next, depth + 1));
                    if !rv {
                        assert forall|x: Seq<char>| #[trigger] next.contains(x) == (prev.contains(x) || x == u) by {
                            if prev.contains(x) {
                                let k = choose|k: int| 0 <= k < prev.len() && prev[k] == x;
                                assert(next[k] == x);
                            }
                            if x == u {
                                assert(next[next.len() - 1] == u);
                            }
                            if next.contains(x) {
                                let k = choose|k: int| 0 <= k < next.len() && next[k] == x;
                                if k < prev.len() {
                                    assert(prev[k] == x);
                                }
                            }
                        }
                        assert(self.visited() =~= seen.union(next.to_set()));
                    }
                } else {
                    assert(next == prev);
                    if !rv {
                        if allowed(u, wl, bl) {
                            assert(before_v.contains(u));
                        }
                        assert(self.visited() =~= seen.union(next.to_set()));
                    }
                }
            }
            i += 1;
        }
        assert(urls.take(found@.len() as int) =~= urls);
    }

    /// The errors collected by the crawl.
    pub fn into_errors(self) -> (r: Vec<E>)
        ensures
            r@ == self.errors(),
    {
        self.errors
    }
}

/// The number of fetches in flight never exceeds the worker bound.
pub proof fn lemma_in_flight_bounded<E>(e: &CrawlEngine<E>)
    requires
        e.wf(),
    ensures
        0 <= e.in_flight() <= e.workers(),
{
}

/// Without revisits no URL is handed out for fetching twice, and once the
/// crawl has finished every URL that was enqueued has been fetched: each
/// exactly once.
pub proof fn lemma_fetched_once<E>(e: &CrawlEngine<E>)
    requires
        e.wf(),
        !e.revisit(),
    ensures
        forall|i: int, j: int|
            0 <= i < j < e.dispatched().len() ==> #[trigger] e.dispatched()[i].0
                != #[trigger] e.dispatched()[j].0,
        e.finished() ==> e.dispatched() == e.enqueued(),
{
    assert forall|i: int, j: int|
        0 <= i < j < e.dispatched().len() implies #[trigger] e.dispatched()[i].0
        != #[trigger] e.dispatched()[j].0 by {
        assert(e.dispatched()[i] == e.enqueued()[i]);
        assert(e.dispatched()[j] == e.enqueued()[j]);
    }
    if e.finished() {
        assert(e.dispatched() =~= e.enqueued());
    }
}

/// Every item handed out for fetching, and so every page dispatched, lies
/// within the depth cap.
pub proof fn lemma_depth_capped<E>(e: &CrawlEngine<E>)
    requires
        e.wf(),
    ensures
        forall|i: int| 0 <= i < e.dispatched().len() ==> #[trigger] e.dispatched()[i].1 <= e.max_depth(),
        forall|i: int| 0 <= i < e.queue().len() ==> #[trigger] e.queue()[i].1 <= e.max_depth(),
{
    assert forall|i: int| 0 <= i < e.dispatched().len() implies #[trigger] e.dispatched()[i].1
        <= e.max_depth() by {
        assert(e.dispatched()[i] == e.enqueued()[i]);
    }
    assert forall|i: int| 0 <= i < e.queue().len() implies #[trigger] e.queue()[i].1 <= e.max_depth() by {
        assert(e.queue()[i] == e.enqueued()[e.dispatched().len() + i]);
    }
}

/// A URL that fails the filters is never fetched as a discovered link: at
/// most it is fetched as the seed, the first item of the crawl.
pub proof fn lemma_disallowed_never_fetched<E>(e: &CrawlEngine<E>, u: Seq<char>)
    requires
        e.wf(),
        !allowed(u, e.whitelist(), e.blacklist()),
    ensures
        forall|i: int| 0 < i < e.dispatched().len() ==> #[trigger] e.dispatched()[i].0 != u,
        forall|i: int| 0 <= i < e.queue().len() && (e.dispatched().len() > 0 || i > 0) ==> #[trigger] e.queue()[i].0 != u,
{
    assert forall|i: int| 0 < i < e.dispatched().len() implies #[trigger] e.dispatched()[i].0 != u by {
        assert(e.dispatched()[i] == e.enqueued()[i]);
    }
    assert forall|i: int| 0 <= i < e.queue().len() && (e.dispatched().len() > 0 || i > 0) implies #[trigger] e.queue()[i].0 != u by {
        assert(e.queue()[i] == e.enqueued()[e.dispatched().len() + i]);
    }
}

/// Termination without revisits: when every URL the crawl reaches lies in a
/// finite set `site`, at most `site.len()` items are ever enqueued, so at
/// most that many fetches are ever made, and each outcome reported shrinks
/// the remaining work.
pub proof fn lemma_work_bounded_by_site<E>(e: &CrawlEngine<E>, site: Set<Seq<char>>)
    requires
        e.wf(),
        !e.revisit(),
        site.finite(),
        forall|i: int| 0 <= i < e.enqueued().len() ==> site.contains(#[trigger] e.enqueued()[i].0),
    ensures
        e.completed() <= e.dispatched().len() <= e.enqueued().len() <= site.len(),
{
    let urls = e.enqueued().map_values(|p: (Seq<char>, int)| p.0);
    assert forall|i: int, j: int| 0 <= i < j < urls.len() implies urls[i] != urls[j] by {
        assert(urls[i] == e.enqueued()[i].0);
        assert(urls[j] == e.enqueued()[j].0);
    }
    assert(urls.no_duplicates());
    urls.unique_seq_to_set();
    assert(urls.to_set().subset_of(site)) by {
        assert forall|x: Seq<char>| urls.to_set().contains(x) implies site.contains(x) by {
            let k = choose|k: int| 0 <= k < urls.len() && urls[k] == x;
            assert(urls[k] == e.enqueued()[k].0);
        }
    }
    lemma_len_subset(urls.to_set(), site);
}

/// With depth cap 0 the seed is the only item ever enqueued, hence the only
/// page fetched; `record_page` answers false for it, so no propagator runs.
pub proof fn lemma_zero_depth_fetches_seed_only<E>(e: &CrawlEngine<E>)
    requires
        e.wf(),
        e.max_depth() == 0,
    ensures
        e.enqueued() == seq![(e.seed(), 0int)],
        e.dispatched().len() <= 1,
{
    if e.enqueued().len() > 1 {
        assert(e.enqueued()[1].1 >= 1 && e.enqueued()[1].1 <= e.max_depth());
    }
    assert(e.enqueued() =~= seq![(e.seed(), 0int)]);
}

/// A propagator that returns nothing enqueues nothing.
pub proof fn lemma_empty_propagation(
    seen: Set<Seq<char>>,
    wl: Seq<Seq<char>>,
    bl: Seq<Seq<char>>,
    revisit: bool,
    d: int,
)
    ensures
        admitted(Seq::empty(), seen, wl, bl, revisit) == Seq::<Seq<char>>::empty(),
        at_depth(admitted(Seq::empty(), seen, wl, bl, revisit), d) == Seq::<(Seq<char>, int)>::empty(),
{
    assert(at_depth(Seq::empty(), d) =~= Seq::<(Seq<char>, int)>::empty());
}

/// A propagator's batch never grows: what is admitted from it is at most as
/// long as the batch, and every admitted URL comes from the batch and passes
/// the filters. With bounded out-degree, each page adds boundedly many items,
/// each one level deeper, up to the depth cap.
pub proof fn lemma_admitted_bounded(
    found: Seq<Seq<char>>,
    seen: Set<Seq<char>>,
    wl: Seq<Seq<char>>,
    bl: Seq<Seq<char>>,
    revisit: bool,
)
    ensures
        admitted(found, seen, wl, bl, revisit).len() <= found.len(),
        forall|i: int|
            0 <= i < admitted(found, seen, wl, bl, revisit).len() ==> found.contains(
                #[trigger] admitted(found, seen, wl, bl, revisit)[i],
            ) && allowed(admitted(found, seen, wl, bl, revisit)[i], wl, bl),
    decreases found.len(),
{
    if found.len() > 0 {
        let rest = found.drop_last();
        lemma_admitted_bounded(rest, seen, wl, bl, revisit);
        let prev = admitted(rest, seen, wl, bl, revisit);
        let cur = admitted(found, seen, wl, bl, revisit);
        assert forall|i: int| 0 <= i < cur.len() implies found.contains(#[trigger] cur[i]) && allowed(
            cur[i],
            wl,
            bl,
        ) by {
            if i < prev.len() {
                assert(cur[i] == prev[i]);
                assert(rest.contains(prev[i]));
                let k = choose|k: int| 0 <= k < rest.len() && rest[k] == prev[i];
                assert(found[k] == rest[k]);
            } else {
                assert(cur[i] == found.last());
                assert(found[found.len() - 1] == found.last());
            }
        }
    }
}

/// Items are handed out in the order they were enqueued. With a single
/// worker at most one fetch is in flight, and it is the last one handed
/// out: fetches run one after another and complete in enqueue order.
pub proof fn lemma_single_worker_sequential<E>(e: &CrawlEngine<E>)
    requires
        e.wf(),
    ensures
        e.dispatched() == e.enqueued().take(e.dispatched().len() as int),
        e.workers() == 1 ==> e.in_flight() <= 1,
        e.workers() == 1 && e.in_flight() == 1 ==> e.completed() == e.dispatched().len() - 1,
{
    assert(e.dispatched() =~= e.enqueued().take(e.dispatched().len() as int));
}

} // verus!
