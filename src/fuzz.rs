//! The fuzzer's request driver: the same bounded producer/consumer loop as
//! the crawl engine, fed by a stream of URL strings instead of a queue.
//!
//! Whoever drives it pulls input while `wants_input` holds, hands each item
//! to `offer` (which says whether to send a request), reports each outcome
//! with `record_response` or `record_failure`, and stops when `has_work` is
//! false: the input is exhausted and nothing is in flight.

use vstd::prelude::*;
use crate::error::CrawlError;
use crate::link::{parsed_url, Url};

verus! {

/// The state of one fuzzing run.
pub struct FuzzEngine<E> {
    workers: usize,
    in_flight: usize,
    exhausted: bool,
    errors: Vec<E>,
    sent: Ghost<Seq<Seq<char>>>,
    responses: Ghost<nat>,
}

impl<E> FuzzEngine<E> {
    /// The bound on requests in flight.
    pub closed spec fn workers(&self) -> int {
        self.workers as int
    }

    /// Requests sent whose outcome has not been reported yet.
    pub closed spec fn in_flight(&self) -> int {
        self.in_flight as int
    }

    /// Whether the input has run out.
    pub closed spec fn exhausted(&self) -> bool {
        self.exhausted
    }

    /// The errors collected so far, in order of arrival.
    pub closed spec fn errors(&self) -> Seq<E> {
        self.errors@
    }

    /// The URLs requested so far, in order.
    pub closed spec fn sent(&self) -> Seq<Seq<char>> {
        self.sent@
    }

    /// The number of responses reported so far.
    pub closed spec fn responses(&self) -> nat {
        self.responses@
    }

    /// Every request sent has been answered, failed, or is in flight.
    pub open spec fn wf(&self) -> bool {
        &&& self.workers() >= 1
        &&& 0 <= self.in_flight() <= self.workers()
        &&& self.sent().len() == self.responses() + self.errors().len() + self.in_flight()
    }

    /// A run with at most `workers` requests in flight. Fails when the bound
    /// is zero.
    pub fn new(workers: usize) -> (r: Result<FuzzEngine<E>, CrawlError>)
        ensures
            r is Ok <==> workers >= 1,
            match r {
                Ok(f) => {
                    &&& f.wf()
                    &&& f.workers() == workers
                    &&& f.in_flight() == 0
                    &&& !f.exhausted()
                    &&& f.sent() == Seq::<Seq<char>>::empty()
                    &&& f.errors() == Seq::<E>::empty()
                    &&& f.responses() == 0
                },
                Err(e) => e is NoWorkers,
            },
    {
        if workers == 0 {
            return Err(CrawlError::NoWorkers);
        }
        Ok(
            FuzzEngine {
                workers,
                in_flight: 0,
                exhausted: false,
                errors: Vec::new(),
                sent: Ghost(Seq::empty()),
                responses: Ghost(0),
            },
        )
    }

    /// Whether to pull the next input item: the input is not exhausted and
    /// a worker is free.
    pub fn wants_input(&self) -> (r: bool)
        ensures
            r == (!self.exhausted() && self.in_flight() < self.workers()),
    {
        !self.exhausted && self.in_flight < self.workers
    }

    /// Whether an outcome is outstanding.
    pub fn awaiting(&self) -> (r: bool)
        ensures
            r == (self.in_flight() > 0),
    {
        self.in_flight > 0
    }

    /// Whether the run goes on: input remains or a request is in flight.
    pub fn has_work(&self) -> (r: bool)
        ensures
            r == (!self.exhausted() || self.in_flight() > 0),
    {
        !self.exhausted || self.in_flight > 0
    }

    /// The number of requests in flight.
    pub fn in_flight_count(&self) -> (r: usize)
        ensures
            r == self.in_flight(),
    {
        self.in_flight
    }

    /// Takes the next input item. `None` marks the input exhausted. An item
    /// that parses as a URL is to be requested, and the parsed URL comes
    /// back; one that does not is skipped.
    pub fn offer(&mut self, next: Option<&str>) -> (r: Option<Url>)
        requires
            old(self).wf(),
            !old(self).exhausted(),
            old(self).in_flight() < old(self).workers(),
        ensures
            final(self).wf(),
            final(self).workers() == old(self).workers(),
            final(self).errors() == old(self).errors(),
            final(self).responses() == old(self).responses(),
            final(self).exhausted() == next is None,
            match next {
                None => r is None && final(self).in_flight() == old(self).in_flight()
                    && final(self).sent() == old(self).sent(),
                Some(s) => match parsed_url(s@) {
                    Some(u) => r is Some && r->Some_0@ == u && final(self).in_flight()
                        == old(self).in_flight() + 1 && final(self).sent() == old(self).sent().push(u),
                    None => r is None && final(self).in_flight() == old(self).in_flight()
                        && final(self).sent() == old(self).sent(),
                },
            },
    {
        match next {
            None => {
                self.exhausted = true;
                None
            },
            Some(s) => match Url::parse(s) {
                Some(u) => {
                    self.in_flight = self.in_flight + 1;
                    self.sent = Ghost(self.sent@.push(u@));
                    Some(u)
                },
                None => None,
            },
        }
    }

    /// Reports a response; the caller runs the handlers on it.
    pub fn record_response(&mut self)
        requires
            old(self).wf(),
            old(self).in_flight() > 0,
        ensures
            final(self).wf(),
            final(self).workers() == old(self).workers(),
            final(self).exhausted() == old(self).exhausted(),
            final(self).sent() == old(self).sent(),
            final(self).errors() == old(self).errors(),
            final(self).in_flight() == old(self).in_flight() - 1,
            final(self).responses() == old(self).responses() + 1,
    {
        self.in_flight = self.in_flight - 1;
        self.responses = Ghost(self.responses@ + 1);
    }

    /// Reports a failed request: the error is collected and the run goes on.
    pub fn record_failure(&mut self, err: E)
        requires
            old(self).wf(),
            old(self).in_flight() > 0,
        ensures
            final(self).wf(),
            final(self).workers() == old(self).workers(),
            final(self).exhausted() == old(self).exhausted(),
            final(self).sent() == old(self).sent(),
            final(self).responses() == old(self).responses(),
            final(self).errors() == old(self).errors().push(err),
            final(self).in_flight() == old(self).in_flight() - 1,
    {
        self.in_flight = self.in_flight - 1;
        self.errors.push(err);
    }

    /// The errors collected by the run.
    pub fn into_errors(self) -> (r: Vec<E>)
        ensures
            r@ == self.errors(),
    {
        self.errors
    }
}

/// Once a run has finished, every request sent was answered exactly once:
/// by a response or by an error.
pub proof fn lemma_fuzz_accounting<E>(f: &FuzzEngine<E>)
    requires
        f.wf(),
        f.exhausted(),
        f.in_flight() == 0,
    ensures
        f.sent().len() == f.responses() + f.errors().len(),
{
}

} // verus!
