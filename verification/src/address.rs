//! Web addresses as plain values. Parsing and relative resolution are done
//! by the `url` crate; what the rest of the library reads of an address is
//! held here as text.

use vstd::prelude::*;
use crate::text::{CharClass, chars_of, find_class, first_in, lemma_first_in, slice_of, string_of};

verus! {

/// A parsed absolute URL: its normalised text, its host and its path.
#[derive(Clone, Debug)]
pub struct WebUrl {
    /// The URL in its normalised written form.
    pub href: String,
    /// The host, where the URL has one.
    pub host: Option<String>,
    /// The path, percent-encoded, without query and fragment.
    pub path: String,
}

/// What a `WebUrl` holds, as sequences of characters.
pub struct WebUrlView {
    /// The URL in its normalised written form.
    pub href: Seq<char>,
    /// The host, where the URL has one.
    pub host: Option<Seq<char>>,
    /// The path, without query and fragment.
    pub path: Seq<char>,
}

/// An optional text as an optional sequence of characters.
pub open spec fn text_view(t: Option<String>) -> Option<Seq<char>> {
    match t {
        Some(s) => Some(s@),
        None => None,
    }
}

impl View for WebUrl {
    type V = WebUrlView;

    open spec fn view(&self) -> WebUrlView {
        WebUrlView { href: self.href@, host: text_view(self.host), path: self.path@ }
    }
}

/// An optional address by its view.
pub open spec fn url_view(u: Option<WebUrl>) -> Option<WebUrlView> {
    match u {
        Some(w) => Some(w@),
        None => None,
    }
}

/// What `url::Url::parse` makes of `input`: nothing where it reports an
/// error, else the parsed URL's text, host and path.
pub uninterp spec fn url_parsed(input: Seq<char>) -> Option<WebUrlView>;

/// What `url::Url::join` makes of `reference` on the URL that `base` parses
/// to: nothing where either step reports an error, else the resulting URL's
/// text, host and path.
pub uninterp spec fn url_joined(base: Seq<char>, reference: Seq<char>) -> Option<WebUrlView>;

/// Calls `url::Url::parse` and reads the parsed URL's `as_str`, `host_str`
/// and `path`. Nothing is claimed of the outcome but that it is determined
/// by `input`.
#[verifier::external_body]
fn parse_url(input: &str) -> (r: Option<WebUrl>)
    ensures
        url_view(r) == url_parsed(input@),
{
    match url::Url::parse(input) {
        Ok(u) => {
            let host = u.host_str().map(|h| h.to_string());
            Some(WebUrl { href: u.as_str().to_string(), host, path: u.path().to_string() })
        },
        Err(_) => None,
    }
}

/// Calls `url::Url::parse` on `base` and `url::Url::join` with `reference`
/// on the result, and reads the joined URL's `as_str`, `host_str` and `path`.
/// Nothing is claimed of the outcome but that it is determined by the two
/// texts.
#[verifier::external_body]
fn join_url(base: &str, reference: &str) -> (r: Option<WebUrl>)
    ensures
        url_view(r) == url_joined(base@, reference@),
{
    let joined = match url::Url::parse(base) {
        Ok(b) => b.join(reference),
        Err(e) => Err(e),
    };
    match joined {
        Ok(u) => {
            let host = u.host_str().map(|h| h.to_string());
            Some(WebUrl { href: u.as_str().to_string(), host, path: u.path().to_string() })
        },
        Err(_) => None,
    }
}

/// `reference` as an address of its own where it parses as one, else
/// resolved against `page`.
pub open spec fn resolved(page: Seq<char>, reference: Seq<char>) -> Option<WebUrlView> {
    match url_parsed(reference) {
        Some(u) => Some(u),
        None => url_joined(page, reference),
    }
}

/// A written URL without its fragment: the text before the first `#`.
pub open spec fn before_fragment(href: Seq<char>) -> Seq<char> {
    match first_in(href, CharClass::Just('#'), 0) {
        Some(k) => href.subrange(0, k),
        None => href,
    }
}

impl WebUrlView {
    /// The address of the document itself: the URL without its fragment.
    pub open spec fn document(self) -> WebUrlView {
        WebUrlView { href: before_fragment(self.href), ..self }
    }
}

impl WebUrl {
    /// The address of the document itself: the URL without its fragment.
    pub fn without_fragment(self) -> (r: WebUrl)
        ensures
            r@ == self@.document(),
    {
        let text = chars_of(self.href.as_str());
        proof {
            lemma_first_in(text@, CharClass::Just('#'), 0);
        }
        match find_class(&text, CharClass::Just('#'), 0) {
            Some(k) => WebUrl {
                href: string_of(&slice_of(&text, 0, k)),
                host: self.host,
                path: self.path,
            },
            None => self,
        }
    }

    /// Parses an absolute URL.
    pub fn parse(input: &str) -> (r: Option<WebUrl>)
        ensures
            url_view(r) == url_parsed(input@),
    {
        parse_url(input)
    }

    /// Resolves `reference` as found on the page at this address: an
    /// absolute URL stands for itself, anything else is joined to the
    /// page's address.
    pub fn resolve(&self, reference: &str) -> (r: Option<WebUrl>)
        ensures
            url_view(r) == resolved(self.href@, reference@),
    {
        match parse_url(reference) {
            Some(u) => Some(u),
            None => join_url(self.href.as_str(), reference),
        }
    }
}

} // verus!
