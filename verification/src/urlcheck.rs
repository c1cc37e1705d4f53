//! Validation of the endpoint URL: the string must parse as an absolute URL
//! and its scheme must be `http` or `https`. Parsing itself is done by the
//! `url` crate; everything around the call is verified.

use vstd::prelude::*;
use crate::strutil::str_eq;

verus! {

/// The scheme of the absolute URL that `s` parses as, or nothing when `s`
/// does not parse as an absolute URL.
pub uninterp spec fn url_scheme(s: Seq<char>) -> Option<Seq<char>>;

/// The message of the parse error reported for a string that does not parse
/// as an absolute URL.
pub uninterp spec fn url_parse_err(s: Seq<char>) -> Seq<char>;

/// Relies on `url::Url::parse`: it parses an absolute URL from the input and
/// its outcome depends on the input string alone; `Url::scheme` returns the
/// parsed URL's scheme; the parse error's display text likewise depends on
/// the input alone.
#[verifier::external_body]
fn parse_url_scheme(s: &str) -> (r: Result<String, String>)
    ensures
        r is Ok <==> url_scheme(s@) is Some,
        r matches Ok(sch) ==> url_scheme(s@) == Some(sch@),
        r matches Err(m) ==> m@ == url_parse_err(s@),
{
    match url::Url::parse(s) {
        Ok(u) => Ok(u.scheme().to_string()),
        Err(e) => Err(e.to_string()),
    }
}

/// A string is an accepted endpoint when it parses as an absolute URL whose
/// scheme is `http` or `https`.
pub open spec fn is_accepted_endpoint(s: Seq<char>) -> bool {
    url_scheme(s) == Some("http"@) || url_scheme(s) == Some("https"@)
}

/// Accepts exactly the absolute URLs with scheme `http` or `https`; rejects a
/// malformed string with the parser's message and any other scheme with a
/// fixed message.
pub fn validate_endpoint_url(url: &str) -> (r: Result<(), String>)
    ensures
        r is Ok <==> is_accepted_endpoint(url@),
        url_scheme(url@) is None ==> (r matches Err(m) && m@ == "Invalid URL: "@
            + url_parse_err(url@)),
        url_scheme(url@) is Some && !is_accepted_endpoint(url@) ==> (r matches Err(m) && m@
            == "URL must use http or https"@),
{
    match parse_url_scheme(url) {
        Err(e) => Err(String::from_str("Invalid URL: ").concat(e.as_str())),
        Ok(sch) => {
            if str_eq(sch.as_str(), "http") || str_eq(sch.as_str(), "https") {
                Ok(())
            } else {
                Err(String::from_str("URL must use http or https"))
            }
        },
    }
}

} // verus!
