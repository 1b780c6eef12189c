//! Deciding whether an input location is a web URL or a local path.  The
//! fetching itself is I/O and lives outside this library.
use crate::chartext::str_eq;
use vstd::prelude::*;

verus! {

/// The scheme of the string when it parses as an absolute URL: a function
/// of the characters alone.
pub uninterp spec fn scheme_of(s: Seq<char>) -> Option<Seq<char>>;

/// Relies on url::Url::parse, a deterministic parser, and Url::scheme,
/// which returns the parsed scheme.
#[verifier::external_body]
fn parse_scheme(path: &str) -> (r: Option<String>)
    ensures
        match r {
            Some(s) => scheme_of(path@) == Some(s@),
            None => scheme_of(path@) is None,
        },
{
    url::Url::parse(path).ok().map(|u| u.scheme().to_string())
}

/// Whether the input names a web location: it parses as a URL with scheme
/// `http` or `https`.
pub fn is_url(path: &str) -> (r: bool)
    ensures
        r == (scheme_of(path@) == Some("http"@) || scheme_of(path@) == Some("https"@)),
{
    match parse_scheme(path) {
        Some(s) => str_eq(s.as_str(), "http") || str_eq(s.as_str(), "https"),
        None => false,
    }
}

} // verus!
