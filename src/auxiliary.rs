//! The rules that gate a discovered link: resolution against the page it was
//! found on, the wl/bl filters, and the visited set.

use vstd::prelude::*;
use crate::error::CrawlError;
use crate::link::{is_url_text, joined_url, parsed_url, Url};

verus! {

/// `p` occurs in `s` as a contiguous run of characters.
pub open spec fn has_substring(s: Seq<char>, p: Seq<char>) -> bool {
    exists|k: int| 0 <= k && k + p.len() <= s.len() && #[trigger] s.subrange(k, k + p.len()) == p
}

/// Relies on `str::contains` with a `&str` pattern: true exactly when the
/// pattern matches a sub-slice of the string.
#[verifier::external_body]
fn str_contains(s: &str, p: &str) -> (r: bool)
    ensures
        r == has_substring(s@, p@),
{
    s.contains(p)
}

/// The character sequences of a list of strings.
pub open spec fn texts(v: Seq<String>) -> Seq<Seq<char>> {
    v.map_values(|x: String| x@)
}

/// Some entry of `list` occurs in `s`.
pub open spec fn matches_any(s: Seq<char>, list: Seq<Seq<char>>) -> bool {
    exists|i: int| 0 <= i < list.len() && has_substring(s, #[trigger] list[i])
}

/// The wl/bl rule: with a non-empty wl list some entry must
/// occur in `s`, and no entry of the bl list may occur in it.
pub open spec fn allowed(s: Seq<char>, wl: Seq<Seq<char>>, bl: Seq<Seq<char>>) -> bool {
    (wl.len() == 0 || matches_any(s, wl)) && !matches_any(s, bl)
}

/// Where `href` leads from `base`: the URL it parses to on its own, else its
/// resolution against `base`.
pub open spec fn absolute_link(base: Seq<char>, href: Seq<char>) -> Option<Seq<char>> {
    match parsed_url(href) {
        Some(u) => Some(u),
        None => joined_url(base, href),
    }
}

/// Absolute URL of `href` relative to `base_url`: `href` itself where it is
/// an absolute URL, else `href` joined onto `base_url`.
pub fn absolute_url(base_url: &Url, href: &str) -> (r: Result<Url, CrawlError>)
    ensures
        match r {
            Ok(u) => absolute_link(base_url@, href@) == Some(u@) && is_url_text(u@),
            Err(e) => absolute_link(base_url@, href@).is_none() && e is InvalidLink
                && e.subject() == href@,
        },
{
    match Url::parse(href) {
        Some(u) => Ok(u),
        None => match base_url.join(href) {
            Some(u) => Ok(u),
            None => Err(CrawlError::InvalidLink(String::from_str(href))),
        },
    }
}

/// What a default propagator yields for one element: the element's
/// attribute value, if it has one, resolved against the page URL; nothing
/// when the attribute is missing or does not resolve.
pub fn attribute_link(page_url: &Url, value: Option<&str>) -> (r: Vec<Url>)
    ensures
        r@.len() <= 1,
        match value {
            Some(v) => match absolute_link(page_url@, v@) {
                Some(u) => r@.len() == 1 && r@[0]@ == u,
                None => r@.len() == 0,
            },
            None => r@.len() == 0,
        },
{
    let mut out: Vec<Url> = Vec::new();
    match value {
        Some(v) => match absolute_url(page_url, v) {
            Ok(u) => out.push(u),
            Err(_) => {},
        },
        None => {},
    }
    out
}

/// Resolving the string form of a resolved link again, against the same
/// base, gives the same link.
pub proof fn lemma_absolute_url_idempotent(base: Seq<char>, href: Seq<char>, first: Seq<char>)
    requires
        absolute_link(base, href) == Some(first),
        is_url_text(first),
    ensures
        absolute_link(base, first) == Some(first),
{
}

fn matches_one(s: &str, list: &Vec<String>) -> (r: bool)
    ensures
        r == matches_any(s@, texts(list@)),
{
    let mut i: usize = 0;
    while i < list.len()
        invariant
            i <= list.len(),
            forall|j: int| 0 <= j < i ==> !has_substring(s@, #[trigger] list@[j]@),
        decreases list.len() - i,
    {
        if str_contains(s, list[i].as_str()) {
            assert(texts(list@)[i as int] == list@[i as int]@);
            return true;
        }
        i += 1;
    }
    assert forall|j: int| 0 <= j < texts(list@).len() implies !has_substring(
        s@,
        #[trigger] texts(list@)[j],
    ) by {
        assert(texts(list@)[j] == list@[j]@);
    }
    false
}

/// Whether `url` passes the wl list `wl` and the bl list `bl`:
/// raw, case-sensitive substring matching on its string form.
pub fn is_allowed(url: &Url, wl: &Vec<String>, bl: &Vec<String>) -> (r: bool)
    ensures
        r == allowed(url@, texts(wl@), texts(bl@)),
{
    let s = url.as_str();
    let listed = wl.len() == 0 || matches_one(s, wl);
    listed && !matches_one(s, bl)
}

/// The wl/bl rule depends on which entries the lists hold, not on
/// their order or repetition: whatever order the filters were added in, the
/// same URLs pass.
pub proof fn lemma_allowed_order_free(
    s: Seq<char>,
    wl1: Seq<Seq<char>>,
    bl1: Seq<Seq<char>>,
    wl2: Seq<Seq<char>>,
    bl2: Seq<Seq<char>>,
)
    requires
        wl1.to_set() == wl2.to_set(),
        bl1.to_set() == bl2.to_set(),
    ensures
        allowed(s, wl1, bl1) == allowed(s, wl2, bl2),
{
    lemma_matches_any_by_set(s, wl1, wl2);
    lemma_matches_any_by_set(s, bl1, bl2);
    if wl1.len() == 0 && wl2.len() != 0 {
        assert(wl2.to_set().contains(wl2[0]));
        assert(!wl1.to_set().contains(wl2[0]));
    }
    if wl2.len() == 0 && wl1.len() != 0 {
        assert(wl1.to_set().contains(wl1[0]));
        assert(!wl2.to_set().contains(wl1[0]));
    }
}

proof fn lemma_matches_any_by_set(s: Seq<char>, a: Seq<Seq<char>>, b: Seq<Seq<char>>)
    requires
        a.to_set() == b.to_set(),
    ensures
        matches_any(s, a) == matches_any(s, b),
{
    if matches_any(s, a) {
        let i = choose|i: int| 0 <= i < a.len() && has_substring(s, #[trigger] a[i]);
        assert(a.to_set().contains(a[i]));
        assert(b.to_set().contains(a[i]));
        let j = choose|j: int| 0 <= j < b.len() && b[j] == a[i];
        assert(has_substring(s, b[j]));
    }
    if matches_any(s, b) {
        let i = choose|i: int| 0 <= i < b.len() && has_substring(s, #[trigger] b[i]);
        assert(b.to_set().contains(b[i]));
        assert(a.to_set().contains(b[i]));
        let j = choose|j: int| 0 <= j < a.len() && a[j] == b[i];
        assert(has_substring(s, a[j]));
    }
}

/// With an empty wl list every URL passes that matches no bl
/// entry; with a non-empty one, only URLs that contain one of its entries
/// pass.
pub proof fn lemma_whitelist_rule(s: Seq<char>, wl: Seq<Seq<char>>, bl: Seq<Seq<char>>)
    ensures
        wl.len() == 0 ==> (allowed(s, wl, bl) <==> !matches_any(s, bl)),
        wl.len() > 0 && allowed(s, wl, bl) ==> exists|i: int|
            0 <= i < wl.len() && has_substring(s, #[trigger] wl[i]),
{
}

/// The URLs seen so far, as a set of string forms.
pub struct VisitedSet {
    items: Vec<String>,
}

impl View for VisitedSet {
    type V = Set<Seq<char>>;

    closed spec fn view(&self) -> Set<Seq<char>> {
        Set::new(|t: Seq<char>| exists|i: int| 0 <= i < self.items@.len() && self.items@[i]@ == t)
    }
}

impl VisitedSet {
    /// An empty set.
    pub fn new() -> (r: VisitedSet)
        ensures
            r@ == Set::<Seq<char>>::empty(),
    {
        let r = VisitedSet { items: Vec::new() };
        assert(r@ =~= Set::<Seq<char>>::empty());
        r
    }

    /// Whether `t` is in the set.
    pub fn contains(&self, t: &String) -> (r: bool)
        ensures
            r == self@.contains(t@),
    {
        let mut i: usize = 0;
        while i < self.items.len()
            invariant
                i <= self.items@.len(),
                forall|j: int| 0 <= j < i ==> self.items@[j]@ != t@,
            decreases self.items.len() - i,
        {
            if self.items[i] == *t {
                return true;
            }
            i += 1;
        }
        false
    }

    /// Adds `t`; true when it was not there before.
    pub fn insert(&mut self, t: String) -> (r: bool)
        ensures
            r == !old(self)@.contains(t@),
            final(self)@ == old(self)@.insert(t@),
    {
        if self.contains(&t) {
            assert(self@ =~= old(self)@.insert(t@));
            false
        } else {
            let ghost tv = t@;
            self.items.push(t);
            assert forall|x: Seq<char>| #[trigger] self@.contains(x) == old(self)@.insert(tv).contains(x) by {
                if old(self)@.contains(x) {
                    let i = choose|i: int| 0 <= i < old(self).items@.len() && old(self).items@[i]@ == x;
                    assert(self.items@[i] == old(self).items@[i]);
                }
                if x == tv {
                    assert(self.items@[self.items@.len() - 1]@ == tv);
                }
                if self@.contains(x) {
                    let i = choose|i: int| 0 <= i < self.items@.len() && self.items@[i]@ == x;
                    if i < old(self).items@.len() {
                        assert(self.items@[i] == old(self).items@[i]);
                    }
                }
            }
            assert(self@ =~= old(self)@.insert(tv));
            true
        }
    }
}

/// Records `url` as visited. True when it had been visited before, so that a
/// caller re-enqueues only on `false`.
pub fn is_visited(url: &Url, visited: &mut VisitedSet) -> (r: bool)
    ensures
        r == old(visited)@.contains(url@),
        final(visited)@ == old(visited)@.insert(url@),
{
    !visited.insert(url.to_string())
}

} // verus!
