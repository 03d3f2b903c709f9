//! Validation of sitemap values through the `url` crate.

use vstd::prelude::*;

verus! {

/// Whether `url::Url::parse` accepts these bytes, read as UTF-8, as an
/// absolute URL.  The outcome is a function of the bytes alone.
pub uninterp spec fn url_parse_ok(s: Seq<u8>) -> bool;

/// Relies on url::Url::parse, which returns `Ok` exactly when its input
/// parses as an absolute URL; the outcome depends on the input string alone.
/// Bytes that are not valid UTF-8 are not an URL.
#[verifier::external_body]
pub(crate) fn is_parsable_url(s: &[u8]) -> (r: bool)
    ensures
        r == url_parse_ok(s@),
{
    match core::str::from_utf8(s) {
        Ok(t) => url::Url::parse(t).is_ok(),
        Err(_) => false,
    }
}

} // verus!
