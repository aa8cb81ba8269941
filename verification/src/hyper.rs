//! The probe target: a URL split into host, scheme and path with the `http`
//! crate's URI parser, and the settings of the probing connector.
use vstd::prelude::*;

use crate::backend::opt_view;

verus! {

/// The `http` crate's parsed URI, carried through unopened.
#[verifier::external_type_specification]
#[verifier::external_body]
pub struct ExUri(http::Uri);

/// The user agent that probes send.
pub const USER_AGENT: &'static str = "Mozilla/5.0 (Windows NT 10.0; Win64; x64) AppleWebKit/537.36 (KHTML, like Gecko) Chrome/120.0.0.0 Safari/537.36";

/// A parsed URI and its parts: the host, the scheme, and the path.
pub struct UriParts {
    pub uri: http::Uri,
    pub host: Option<String>,
    pub scheme: Option<String>,
    pub path: String,
}

/// The host, the scheme and the path that the `http` crate's parser reads
/// from `url`, or `None` when it refuses the text.
pub uninterp spec fn uri_components(url: Seq<char>) -> Option<(Option<Seq<char>>, Option<Seq<char>>, Seq<char>)>;

/// Parses `url` with `http::Uri`'s `FromStr` and reads the parsed value's
/// `host()`, `scheme_str()` and `path()`. The contract claims only that the
/// outcome is a function of the text, named `uri_components`: the `http`
/// crate's grammar is not restated.
#[verifier::external_body]
fn parse_uri(url: &str) -> (r: Option<UriParts>)
    ensures
        match r {
            Some(p) => uri_components(url@) == Some((opt_view(p.host), opt_view(p.scheme), p.path@)),
            None => uri_components(url@) is None,
        },
{
    match url.parse::<http::Uri>() {
        Ok(uri) => Some(UriParts {
            host: uri.host().map(|h| h.to_string()),
            scheme: uri.scheme_str().map(|s| s.to_string()),
            path: uri.path().to_string(),
            uri,
        }),
        Err(_) => None,
    }
}

/// The scheme that probes use: `https` when the URL says so, else `http`.
pub open spec fn probe_scheme(scheme: Seq<char>) -> Seq<char> {
    if scheme == "https"@ {
        "https"@
    } else {
        "http"@
    }
}

/// The probe target from a parsed URI: `None` without a host or a scheme;
/// else the URI, the host, `https` or `http`, and the path.
pub fn url_target(parts: UriParts) -> (r: Option<(http::Uri, String, &'static str, String)>)
    ensures
        match r {
            Some((_, host, scheme, path)) => parts.host matches Some(h) && parts.scheme matches Some(
                s,
            ) && host@ == h@ && scheme@ == probe_scheme(s@) && path@ == parts.path@,
            None => parts.host is None || parts.scheme is None,
        },
{
    let host = match parts.host {
        Some(h) => h,
        None => return None,
    };
    let scheme = match parts.scheme {
        Some(s) => s,
        None => return None,
    };
    proof {
        reveal_strlit("https");
        reveal_strlit("http");
    }
    let https = crate::text::chars_of("https");
    let sc = crate::text::chars_of(scheme.as_str());
    let is_https = eq_chars(&sc, &https);
    let scheme_out: &'static str = if is_https {
        "https"
    } else {
        "http"
    };
    Some((parts.uri, host, scheme_out, parts.path))
}

/// Whether two character sequences are equal.
pub fn eq_chars(a: &Vec<char>, b: &Vec<char>) -> (r: bool)
    ensures
        r == (a@ == b@),
{
    if a.len() != b.len() {
        return false;
    }
    let mut i: usize = 0;
    while i < a.len()
        invariant
            i <= a.len() == b.len(),
            forall|k: int| 0 <= k < i ==> a@[k] == b@[k],
        decreases a.len() - i,
    {
        if a[i] != b[i] {
            return false;
        }
        i = i + 1;
    }
    proof {
        assert(a@ =~= b@);
    }
    true
}

/// Splits a URL into the parsed URI, the host, the probe scheme and the path:
/// `None` when the `http` crate refuses the text or it has no host or no
/// scheme.
pub fn parse_url(url: &str) -> (r: Option<(http::Uri, String, &'static str, String)>)
    ensures
        match r {
            Some((_, host, scheme, path)) => uri_components(url@) matches Some((Some(h), Some(s), p))
                && host@ == h && scheme@ == probe_scheme(s) && path@ == p,
            None => !(uri_components(url@) matches Some((Some(_), Some(_), _))),
        },
{
    match parse_uri(url) {
        Some(parts) => url_target(parts),
        None => None,
    }
}

/// The connector's settings: the connection timeout in milliseconds.
pub struct ConnectorService {
    pub timeout_ms: u64,
}

impl ConnectorService {
    /// A connector that gives up after `timeout_ms`.
    pub fn new(timeout_ms: u64) -> (r: ConnectorService)
        ensures
            r.timeout_ms == timeout_ms,
    {
        ConnectorService { timeout_ms }
    }
}

/// The empty request body that probes send.
pub struct EmptyBody;

impl EmptyBody {
    /// The body has ended from the start.
    pub fn is_end_stream(&self) -> (r: bool)
        ensures
            r,
    {
        true
    }
}

} // verus!
