//! The addresses of the speed test's services.

use url::Url;
use vstd::prelude::*;

verus! {

/// The services of the speed test.
#[derive(Clone, Copy, Debug, PartialEq, Eq, Structural)]
pub enum Endpoint {
    /// The table of all edge locations.
    Locations,
    /// The trace of the edge in use.
    Trace,
    /// Downloads of a chosen size.
    Download,
    /// Uploads.
    Upload,
}

/// The address under which the speed test is served.
pub open spec fn base_text() -> Seq<char> {
    "https://speed.cloudflare.com"@
}

/// The path of a service below the base address.
pub open spec fn path_text(endpoint: Endpoint) -> Seq<char> {
    match endpoint {
        Endpoint::Locations => "locations"@,
        Endpoint::Trace => "cdn-cgi/trace"@,
        Endpoint::Download => "__down"@,
        Endpoint::Upload => "__up"@,
    }
}

/// The path of a service below the base address.
pub fn endpoint_path(endpoint: Endpoint) -> (path: &'static str)
    ensures
        path@ == path_text(endpoint),
{
    match endpoint {
        Endpoint::Locations => "locations",
        Endpoint::Trace => "cdn-cgi/trace",
        Endpoint::Download => "__down",
        Endpoint::Upload => "__up",
    }
}

/// The text of the URL that `reference` denotes relative to the absolute URL
/// `base`, as the `url` crate resolves it; `None` where `base` is no absolute
/// URL or `reference` cannot be resolved against it.
pub uninterp spec fn url_join(base: Seq<char>, reference: Seq<char>) -> Option<Seq<char>>;

/// Resolves `reference` against `base` with `url::Url::join`, after reading
/// `base` with `url::Url::parse`. Nothing is proved of the text that comes
/// back: it is what the `url` crate makes of these two strings, and `None`
/// where either call reports an error.
#[verifier::external_body]
fn join_url(base: &str, reference: &str) -> (r: Option<String>)
    ensures
        match r {
            Some(text) => url_join(base@, reference@) == Some(text@),
            None => url_join(base@, reference@) is None,
        },
{
    match Url::parse(base) {
        Ok(parsed) => match parsed.join(reference) {
            Ok(joined) => Some(String::from(joined)),
            Err(_) => None,
        },
        Err(_) => None,
    }
}

/// The URL of a service: its path resolved against the base address.
pub fn endpoint_url(endpoint: Endpoint) -> (r: Option<String>)
    ensures
        match r {
            Some(text) => url_join(base_text(), path_text(endpoint)) == Some(text@),
            None => url_join(base_text(), path_text(endpoint)) is None,
        },
{
    join_url("https://speed.cloudflare.com", endpoint_path(endpoint))
}

} // verus!
