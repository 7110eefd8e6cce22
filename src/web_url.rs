use vstd::prelude::*;

verus! {

/// The `url` crate's parsed URL, carried opaquely beside its serialization.
#[verifier::external_type_specification]
#[verifier::external_body]
pub struct ExUrl(url::Url);

/// Why a string could not be read as an absolute URL.
#[derive(Clone, Copy, Debug, PartialEq, Eq, Structural)]
pub enum UrlFault {
    /// The string is a relative reference: it has no scheme.
    RelativeWithoutBase,
    /// The string is structurally invalid.
    Malformed,
}

/// What `url::Url::parse` makes of a string: the serialization of the
/// parsed URL, or the kind of failure.
pub uninterp spec fn url_parse(s: Seq<char>) -> Result<Seq<char>, UrlFault>;

/// The serialization of a URL after `url::Url::set_path("")`.
pub uninterp spec fn url_without_path(u: Seq<char>) -> Seq<char>;

/// The serialization of a URL after `url::Url::set_query(None)`.
pub uninterp spec fn url_without_query(u: Seq<char>) -> Seq<char>;

/// What `url::Url::join` makes of a reference against a base URL.
pub uninterp spec fn url_join(base: Seq<char>, reference: Seq<char>) -> Result<Seq<char>, UrlFault>;

/// An absolute URL, seen through its serialization.
pub struct WebUrl {
    serialized: String,
    parsed: url::Url,
}

impl View for WebUrl {
    type V = Seq<char>;

    closed spec fn view(&self) -> Seq<char> {
        self.serialized@
    }
}

/// The serializations that a fallible URL operation leaves behind.
pub open spec fn url_outcome(r: Result<WebUrl, UrlFault>) -> Result<Seq<char>, UrlFault> {
    match r {
        Ok(u) => Ok(u@),
        Err(e) => Err(e),
    }
}

/// A URL with its path and query removed: scheme, host and port are kept.
pub open spec fn domain_root(u: Seq<char>) -> Seq<char> {
    url_without_query(url_without_path(u))
}

/// Relies on url::Url::parse: parses an absolute URL and tells a relative
/// reference apart from any other failure.
#[verifier::external_body]
fn parse_url(s: &str) -> (r: Result<WebUrl, UrlFault>)
    ensures
        url_outcome(r) == url_parse(s@),
{
    match url::Url::parse(s) {
        Ok(u) => Ok(WebUrl { serialized: String::from(u.as_str()), parsed: u }),
        Err(url::ParseError::RelativeUrlWithoutBase) => Err(UrlFault::RelativeWithoutBase),
        Err(_) => Err(UrlFault::Malformed),
    }
}

/// Relies on url::Url::set_path with an empty path: the same URL without
/// its path. An empty path never lengthens the serialization, so the
/// setter's length check, which panics, is never reached.
#[verifier::external_body]
fn clear_path(u: &WebUrl) -> (r: WebUrl)
    ensures
        r@ == url_without_path(u@),
{
    let mut p = u.parsed.clone();
    p.set_path("");
    WebUrl { serialized: String::from(p.as_str()), parsed: p }
}

/// Relies on url::Url::set_query with no query: the same URL without its
/// query. Removing the query only truncates the serialization.
#[verifier::external_body]
fn clear_query(u: &WebUrl) -> (r: WebUrl)
    ensures
        r@ == url_without_query(u@),
{
    let mut p = u.parsed.clone();
    p.set_query(None);
    WebUrl { serialized: String::from(p.as_str()), parsed: p }
}

/// Relies on url::Url::join: resolves a reference against a base URL with
/// the relative-reference rules of RFC 3986.
#[verifier::external_body]
fn join_url(base: &WebUrl, reference: &str) -> (r: Result<WebUrl, UrlFault>)
    ensures
        url_outcome(r) == url_join(base@, reference@),
{
    match base.parsed.join(reference) {
        Ok(u) => Ok(WebUrl { serialized: String::from(u.as_str()), parsed: u }),
        Err(url::ParseError::RelativeUrlWithoutBase) => Err(UrlFault::RelativeWithoutBase),
        Err(_) => Err(UrlFault::Malformed),
    }
}

/// Where a link's reference leads when found on a page whose domain root
/// is `root`: an absolute reference as it parses; a relative one joined to
/// the root; nothing for a malformed one.
pub open spec fn resolved(root: Seq<char>, reference: Seq<char>) -> Option<Seq<char>> {
    match url_parse(reference) {
        Ok(u) => Some(u),
        Err(UrlFault::RelativeWithoutBase) => match url_join(root, reference) {
            Ok(u) => Some(u),
            Err(_) => None,
        },
        Err(UrlFault::Malformed) => None,
    }
}

impl WebUrl {
    /// Reads an absolute URL.
    pub fn parse(s: &str) -> (r: Result<WebUrl, UrlFault>)
        ensures
            url_outcome(r) == url_parse(s@),
    {
        parse_url(s)
    }

    /// The serialization of the URL.
    pub fn as_str(&self) -> (r: &str)
        ensures
            r@ == self@,
    {
        self.serialized.as_str()
    }

    /// The URL with its path and query cleared.
    pub fn domain_root(&self) -> (r: WebUrl)
        ensures
            r@ == domain_root(self@),
    {
        let p = clear_path(self);
        clear_query(&p)
    }

    /// Resolves `reference` against this URL taken as a domain root.
    pub fn resolve(&self, reference: &str) -> (r: Option<WebUrl>)
        ensures
            match r {
                Some(u) => resolved(self@, reference@) == Some(u@),
                None => resolved(self@, reference@) is None,
            },
    {
        match parse_url(reference) {
            Ok(u) => Some(u),
            Err(UrlFault::RelativeWithoutBase) => match join_url(self, reference) {
                Ok(u) => Some(u),
                Err(_) => None,
            },
            Err(UrlFault::Malformed) => None,
        }
    }
}

} // verus!
