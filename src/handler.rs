//! The events a crawl reports, the registry that maps each event to its
//! callbacks, and the page record handed to them.

use vstd::prelude::*;
use crate::error::CrawlError;
use crate::link::Url;

verus! {

/// The events one can hook into.
#[derive(Clone, Debug, Hash)]
pub enum HandlerEvent {
    /// Every element that matches a CSS selector.
    OnSelector(String),
    /// Every page loaded.
    OnPage,
}

impl HandlerEvent {
    /// What identifies an event: its selector text, or `None` for `OnPage`.
    pub open spec fn key(&self) -> Option<Seq<char>> {
        match self {
            HandlerEvent::OnSelector(s) => Some(s@),
            HandlerEvent::OnPage => None,
        }
    }
}

impl PartialEq for HandlerEvent {
    fn eq(&self, o: &HandlerEvent) -> (r: bool) {
        match self {
            HandlerEvent::OnSelector(a) => match o {
                HandlerEvent::OnSelector(b) => a.eq(b),
                HandlerEvent::OnPage => false,
            },
            HandlerEvent::OnPage => match o {
                HandlerEvent::OnSelector(_) => false,
                HandlerEvent::OnPage => true,
            },
        }
    }
}

impl vstd::std_specs::cmp::PartialEqSpecImpl for HandlerEvent {
    open spec fn obeys_eq_spec() -> bool {
        true
    }

    open spec fn eq_spec(&self, o: &HandlerEvent) -> bool {
        self.key() == o.key()
    }
}

impl Eq for HandlerEvent {}

/// Whether `s` parses as a CSS selector group.
pub uninterp spec fn selector_parses(s: Seq<char>) -> bool;

/// `scraper::Selector`, a compiled selector group, carried through opaquely.
#[verifier::external_type_specification]
#[verifier::external_body]
pub struct ExSelector(scraper::Selector);

/// `scraper::Html`, a parsed document, carried through opaquely.
#[verifier::external_type_specification]
#[verifier::external_body]
pub struct ExHtml(scraper::Html);

/// Relies on `scraper::Selector::parse`: `Ok` exactly for the strings that
/// parse as a selector group; the outcome depends on the string alone.
#[verifier::external_body]
fn parse_selector(s: &str) -> (r: Option<scraper::Selector>)
    ensures
        r.is_some() == selector_parses(s@),
{
    scraper::Selector::parse(s).ok()
}

/// Relies on `scraper::Html::parse_document`, a lenient HTML parser that
/// accepts any text.
pub assume_specification[ scraper::Html::parse_document ](document: &str) -> scraper::Html;

/// An event whose selector, if it has one, parses.
pub open spec fn event_compiles(e: HandlerEvent) -> bool {
    match e {
        HandlerEvent::OnSelector(s) => selector_parses(s@),
        HandlerEvent::OnPage => true,
    }
}

/// Parses the selector of every event, in order. Fails on the first one
/// that does not parse, naming it.
pub fn compile_selectors(
    events: &Vec<HandlerEvent>,
) -> (r: Result<Vec<Option<scraper::Selector>>, CrawlError>)
    ensures
        r is Ok <==> forall|i: int| 0 <= i < events@.len() ==> event_compiles(#[trigger] events@[i]),
        match r {
            Ok(v) => v@.len() == events@.len() && forall|i: int|
                0 <= i < v@.len() ==> (#[trigger] v@[i] is Some <==> events@[i] is OnSelector),
            Err(e) => e is InvalidSelector && exists|i: int|
                0 <= i < events@.len() && events@[i].key() == Some(e.subject())
                && !event_compiles(#[trigger] events@[i])
                && forall|j: int| 0 <= j < i ==> event_compiles(#[trigger] events@[j]),
        },
{
    let mut out: Vec<Option<scraper::Selector>> = Vec::new();
    let mut i: usize = 0;
    while i < events.len()
        invariant
            i <= events@.len(),
            out@.len() == i,
            forall|j: int| 0 <= j < i ==> event_compiles(#[trigger] events@[j]),
            forall|j: int| 0 <= j < i ==> (#[trigger] out@[j] is Some <==> events@[j] is OnSelector),
        decreases events.len() - i,
    {
        match &events[i] {
            HandlerEvent::OnSelector(s) => {
                match parse_selector(s.as_str()) {
                    Some(sel) => out.push(Some(sel)),
                    None => {
                        let e = CrawlError::InvalidSelector(s.clone());
                        assert(events@[i as int].key() == Some(e.subject()));
                        return Err(e);
                    }
                }
            },
            HandlerEvent::OnPage => out.push(None),
        }
        i += 1;
    }
    Ok(out)
}

/// For each event key, in the order keys were first registered, the
/// callbacks registered under it, in the order they were added.
pub struct Registry<T> {
    events: Vec<HandlerEvent>,
    callbacks: Vec<Vec<T>>,
}

impl<T> Registry<T> {
    /// The registered keys, in order of first registration.
    pub closed spec fn keys(&self) -> Seq<Option<Seq<char>>> {
        self.events@.map_values(|e: HandlerEvent| e.key())
    }

    /// The registered events themselves.
    pub closed spec fn events(&self) -> Seq<HandlerEvent> {
        self.events@
    }

    /// The callbacks under each key, aligned with `keys`.
    pub closed spec fn lists(&self) -> Seq<Seq<T>> {
        self.callbacks@.map_values(|v: Vec<T>| v@)
    }

    /// Keys are distinct and each has its list.
    pub closed spec fn wf(&self) -> bool {
        &&& self.events@.len() == self.callbacks@.len()
        &&& forall|i: int, j: int|
            0 <= i < j < self.events@.len() ==> #[trigger] self.events@[i].key()
                != #[trigger] self.events@[j].key()
    }

    /// An empty registry.
    pub fn new() -> (r: Registry<T>)
        ensures
            r.wf(),
            r.keys() == Seq::<Option<Seq<char>>>::empty(),
            r.lists() == Seq::<Seq<T>>::empty(),
    {
        let r = Registry { events: Vec::new(), callbacks: Vec::new() };
        assert(r.keys() =~= Seq::<Option<Seq<char>>>::empty());
        assert(r.lists() =~= Seq::<Seq<T>>::empty());
        r
    }

    /// The number of distinct keys.
    pub fn len(&self) -> (r: usize)
        requires
            self.wf(),
        ensures
            r == self.keys().len(),
            r == self.lists().len(),
            r == self.events().len(),
    {
        self.events.len()
    }

    /// Registers `cb` under `event`, after those already under it.
    pub fn add(&mut self, event: HandlerEvent, cb: T)
        requires
            old(self).wf(),
        ensures
            final(self).wf(),
            old(self).keys().contains(event.key()) ==> {
                &&& final(self).keys() == old(self).keys()
                &&& final(self).events() == old(self).events()
                &&& exists|i: int|
                    0 <= i < old(self).keys().len() && old(self).keys()[i] == event.key()
                        && final(self).lists() == old(self).lists().update(
                        i,
                        old(self).lists()[i].push(cb),
                    )
            },
            !old(self).keys().contains(event.key()) ==> {
                &&& final(self).keys() == old(self).keys().push(event.key())
                &&& final(self).events() == old(self).events().push(event)
                &&& final(self).lists() == old(self).lists().push(seq![cb])
            },
    {
        let mut i: usize = 0;
        while i < self.events.len()
            invariant
                self == old(self),
                self.wf(),
                i <= self.events@.len(),
                forall|j: int| 0 <= j < i ==> self.events@[j].key() != event.key(),
            decreases self.events.len() - i,
        {
            if self.events[i] == event {
                let mut list = self.callbacks.remove(i);
                list.push(cb);
                self.callbacks.insert(i, list);
                assert(old(self).keys()[i as int] == event.key());
                assert(self.keys() =~= old(self).keys());
                assert(self.lists() =~= old(self).lists().update(
                    i as int,
                    old(self).lists()[i as int].push(cb),
                ));
                return ;
            }
            i += 1;
        }
        assert(!old(self).keys().contains(event.key())) by {
            if old(self).keys().contains(event.key()) {
                let j = choose|j: int| 0 <= j < old(self).keys().len() && old(self).keys()[j] == event.key();
                assert(old(self).events@[j].key() == event.key());
            }
        }
        let ghost k = event.key();
        self.events.push(event);
        let mut list = Vec::new();
        list.push(cb);
        self.callbacks.push(list);
        assert(self.keys() =~= old(self).keys().push(k));
        assert(self.lists() =~= old(self).lists().push(seq![cb]));
    }

    /// Takes the registry apart into its events and, aligned with them, the
    /// callbacks under each.
    pub fn into_parts(self) -> (r: (Vec<HandlerEvent>, Vec<Vec<T>>))
        requires
            self.wf(),
        ensures
            r.0@ == self.events(),
            r.1@.map_values(|v: Vec<T>| v@) == self.lists(),
            r.0@.len() == r.1@.len(),
    {
        (self.events, self.callbacks)
    }
}

/// A fetched page: its URL, its body, the parsed document and the depth at
/// which it was fetched (the seed is at depth 0).
pub struct Page {
    /// URL of the page.
    pub url: Url,
    /// Response body as text.
    pub text: String,
    /// The parsed HTML document.
    pub doc: scraper::Html,
    /// Crawl depth of the page.
    pub depth: usize,
}

impl Page {
    /// Builds the page record, parsing `text` as an HTML document.
    pub fn new(url: Url, text: String, depth: usize) -> (r: Page)
        ensures
            r.url@ == url@,
            r.text@ == text@,
            r.depth == depth,
    {
        let doc = scraper::Html::parse_document(text.as_str());
        Page { url, text, doc, depth }
    }
}

} // verus!
