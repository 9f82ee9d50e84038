//! URLs as the crawler sees them: the stable string form of a parsed,
//! absolute URL. Parsing and joining are done by the `url` crate (through
//! reqwest's re-export); the library keeps the serialization it returns.

use vstd::prelude::*;

verus! {

/// The serialization of `Url::parse(s)`, or `None` where it fails.
pub uninterp spec fn parsed_url(s: Seq<char>) -> Option<Seq<char>>;

/// The serialization of `Url::parse(base)?.join(href)`, or `None` where
/// either step fails.
pub uninterp spec fn joined_url(base: Seq<char>, href: Seq<char>) -> Option<Seq<char>>;

/// A string that parses back to itself: the serialization of a URL.
pub open spec fn is_url_text(s: Seq<char>) -> bool {
    parsed_url(s) == Some(s)
}

/// Relies on `url::Url::parse` (re-exported by reqwest) for the parse, and on
/// `From<Url> for String` for its serialization. A serialization parses back
/// to itself: `Url::check_invariants` in the url crate asserts that
/// re-parsing `as_str()` yields the same serialization.
#[verifier::external_body]
fn parse_url_text(s: &str) -> (r: Option<String>)
    ensures
        match r {
            Some(t) => parsed_url(s@) == Some(t@) && is_url_text(t@),
            None => parsed_url(s@).is_none(),
        },
{
    match reqwest::Url::parse(s) {
        Ok(u) => Some(String::from(u)),
        Err(_) => None,
    }
}

/// Relies on `url::Url::parse` for the base and `url::Url::join` for the
/// reference resolution (RFC 3986 / WHATWG), and on `From<Url> for String`
/// for the serialization of the result, which parses back to itself as above.
#[verifier::external_body]
fn join_url_text(base: &str, href: &str) -> (r: Option<String>)
    ensures
        match r {
            Some(t) => joined_url(base@, href@) == Some(t@) && is_url_text(t@),
            None => joined_url(base@, href@).is_none(),
        },
{
    match reqwest::Url::parse(base) {
        Ok(b) => match b.join(href) {
            Ok(u) => Some(String::from(u)),
            Err(_) => None,
        },
        Err(_) => None,
    }
}

/// A parsed absolute URL, held as its serialization. Two URLs are the same
/// exactly when their string forms are.
#[derive(Debug, PartialEq, Eq, Hash)]
pub struct Url {
    text: String,
}

impl View for Url {
    type V = Seq<char>;

    closed spec fn view(&self) -> Seq<char> {
        self.text@
    }
}

impl Url {
    #[verifier::type_invariant]
    spec fn inv(self) -> bool {
        is_url_text(self.text@)
    }

    /// Parses an absolute URL.
    pub fn parse(s: &str) -> (r: Option<Url>)
        ensures
            match r {
                Some(u) => parsed_url(s@) == Some(u@) && is_url_text(u@),
                None => parsed_url(s@).is_none(),
            },
    {
        match parse_url_text(s) {
            Some(text) => Some(Url { text }),
            None => None,
        }
    }

    /// Resolves `href` against this URL as a base.
    pub fn join(&self, href: &str) -> (r: Option<Url>)
        ensures
            match r {
                Some(u) => joined_url(self@, href@) == Some(u@) && is_url_text(u@),
                None => joined_url(self@, href@).is_none(),
            },
    {
        match join_url_text(self.text.as_str(), href) {
            Some(text) => Some(Url { text }),
            None => None,
        }
    }

    /// The string form of this URL.
    pub fn as_str(&self) -> (r: &str)
        ensures
            r@ == self@,
    {
        self.text.as_str()
    }

    /// The string form of this URL, owned.
    pub fn to_string(&self) -> (r: String)
        ensures
            r@ == self@,
    {
        self.text.clone()
    }

    /// A copy of this URL.
    pub fn duplicate(&self) -> (r: Url)
        ensures
            r@ == self@,
    {
        proof {
            use_type_invariant(self);
        }
        Url { text: self.text.clone() }
    }
}

} // verus!
