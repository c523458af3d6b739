//! URLs as the `url` crate parses and rewrites them, seen through plain values.
use vstd::prelude::*;

verus! {

/// Why a text could not be parsed as a URL.
#[derive(PartialEq, Eq, Structural, Clone, Copy, Debug)]
pub enum UrlParseError {
    /// The text is a relative URL, and there is no base to resolve it against.
    RelativeUrlWithoutBase,
    /// Any other reason.
    Other,
}

/// The parts of a parsed URL that the indexer reads.
pub struct UrlParts {
    pub scheme: String,
    /// The host (a domain name or an IP address), when the URL has one.
    pub host: Option<String>,
    /// The host, when it is a domain name.
    pub domain: Option<String>,
    /// The whole URL, serialized.
    pub serialization: String,
}

/// The abstract parts of a parsed URL.
pub struct UrlPartsView {
    pub scheme: Seq<char>,
    pub host: Option<Seq<char>>,
    pub domain: Option<Seq<char>>,
    pub serialization: Seq<char>,
}

pub open spec fn opt_view(o: Option<String>) -> Option<Seq<char>> {
    match o {
        Some(s) => Some(s@),
        None => None,
    }
}

impl View for UrlParts {
    type V = UrlPartsView;

    open spec fn view(&self) -> UrlPartsView {
        UrlPartsView {
            scheme: self.scheme@,
            host: opt_view(self.host),
            domain: opt_view(self.domain),
            serialization: self.serialization@,
        }
    }
}

/// What `url::Url::parse` gives for a text.
pub uninterp spec fn url_parse(s: Seq<char>) -> Result<UrlPartsView, UrlParseError>;

/// What `url::Url::join` gives for a link read with the URL `base` as its
/// base: the serialization of the absolute URL, or why the link does not parse.
pub uninterp spec fn url_joined(base: Seq<char>, link: Seq<char>) -> Result<Seq<char>, UrlParseError>;

/// What the serialization of a URL becomes after `url::Url::set_host` with the
/// given host and `url::Url::set_scheme` with the given scheme (either of
/// which may refuse, leaving the URL as it was).
pub uninterp spec fn url_with_host_and_scheme(url: Seq<char>, host: Seq<char>, scheme: Seq<char>) -> Seq<char>;

/// What the serialization of a URL becomes after `url::Url::set_scheme` and
/// `url::Url::set_path`; `None` when `set_scheme` refuses the scheme.
pub uninterp spec fn url_with_scheme_and_path(url: Seq<char>, scheme: Seq<char>, path: Seq<char>) -> Option<Seq<char>>;

/// What `url_escape::decode` gives for a text.
pub uninterp spec fn percent_decoded(s: Seq<char>) -> Seq<char>;

/// Calls `url::Url::parse` and reads the scheme, host (`Url::host`, displayed),
/// domain and serialization of the result. The contract claims that the
/// result is the named parse of the text, a function of the text alone; it
/// says nothing of how the parse is done. The only error told apart is
/// `RelativeUrlWithoutBase`.
#[verifier::external_body]
pub(crate) fn parse_url(s: &str) -> (r: Result<UrlParts, UrlParseError>)
    ensures
        match r {
            Ok(u) => url_parse(s@) == Ok::<UrlPartsView, UrlParseError>(u@),
            Err(e) => url_parse(s@) == Err::<UrlPartsView, UrlParseError>(e),
        },
{
    match url::Url::parse(s) {
        Ok(u) => Ok(UrlParts {
            scheme: u.scheme().to_string(),
            host: u.host().map(|h| h.to_string()),
            domain: u.domain().map(|d| d.to_string()),
            serialization: u.to_string(),
        }),
        Err(url::ParseError::RelativeUrlWithoutBase) => Err(UrlParseError::RelativeUrlWithoutBase),
        Err(_) => Err(UrlParseError::Other),
    }
}

/// Parses `base` (which parses) and calls `url::Url::join(link)`, which reads
/// `link` as an URL with `base` as its base URL (an absolute link stands
/// alone, a relative one is resolved against `base`), and serializes the
/// result. The contract claims only that the result is the named join of its
/// two arguments; the only error told apart is `RelativeUrlWithoutBase`.
#[verifier::external_body]
pub(crate) fn join_url(base: &str, link: &str) -> (r: Result<String, UrlParseError>)
    requires
        url_parse(base@) is Ok,
    ensures
        match r {
            Ok(u) => url_joined(base@, link@) == Ok::<Seq<char>, UrlParseError>(u@),
            Err(e) => url_joined(base@, link@) == Err::<Seq<char>, UrlParseError>(e),
        },
{
    match url::Url::parse(base).unwrap().join(link) {
        Ok(u) => Ok(u.to_string()),
        Err(url::ParseError::RelativeUrlWithoutBase) => Err(UrlParseError::RelativeUrlWithoutBase),
        Err(_) => Err(UrlParseError::Other),
    }
}

/// Parses `url` (which parses), calls `url::Url::set_host(Some(host))` and then
/// `url::Url::set_scheme(scheme)`, ignoring a refusal of either as the indexer
/// does, and serializes the result. The contract claims only that the result
/// is the named rewrite of its three arguments.
#[verifier::external_body]
pub(crate) fn rewrite_host_and_scheme(url: &str, host: &str, scheme: &str) -> (r: String)
    requires
        url_parse(url@) is Ok,
    ensures
        r@ == url_with_host_and_scheme(url@, host@, scheme@),
{
    let mut u = url::Url::parse(url).unwrap();
    let _ = u.set_host(Some(host));
    let _ = u.set_scheme(scheme);
    u.to_string()
}

/// Parses `url` (which parses), calls `url::Url::set_scheme(scheme)` and, when
/// the scheme is accepted, `url::Url::set_path(path)`, and serializes the
/// result. The contract claims only that the result is the named rewrite of
/// its three arguments.
#[verifier::external_body]
pub(crate) fn rewrite_scheme_and_path(url: &str, scheme: &str, path: &str) -> (r: Option<String>)
    requires
        url_parse(url@) is Ok,
    ensures
        opt_view(r) == url_with_scheme_and_path(url@, scheme@, path@),
{
    let mut u = url::Url::parse(url).unwrap();
    if u.set_scheme(scheme).is_err() {
        return None;
    }
    u.set_path(path);
    Some(u.to_string())
}

/// Calls `url_escape::decode`, which turns each `%XX` escape into its byte
/// and reads the bytes as UTF-8, replacing invalid sequences. The contract
/// claims only that the result is the named decoding of the text.
#[verifier::external_body]
pub(crate) fn percent_decode(s: &str) -> (r: String)
    ensures
        r@ == percent_decoded(s@),
{
    url_escape::decode(s).to_string()
}

/// The domain of `url`: `None` when it does not parse or has no domain.
pub fn url_domain(url: &str) -> (r: Option<String>)
    ensures
        opt_view(r) == match url_parse(url@) {
            Ok(u) => u.domain,
            Err(_) => None,
        },
{
    match parse_url(url) {
        Ok(u) => u.domain,
        Err(_) => None,
    }
}

} // verus!
