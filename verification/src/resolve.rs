use vstd::prelude::*;
use vstd::string::StringExecFns;

verus! {

/// Whether a string parses as an absolute URL. The grammar belongs to the
/// URL parser; the resolution policy only needs the verdict.
pub uninterp spec fn is_absolute_url(s: Seq<char>) -> bool;

/// A long URL with the default scheme put in front.
pub open spec fn prefix_http(s: Seq<char>) -> Seq<char> {
    "http://"@ + s
}

/// Relies on `url::Url::parse`: whether parsing an absolute URL from a
/// string succeeds depends on the string's characters alone.
#[verifier::external_body]
fn parses_as_absolute_url(s: &str) -> (r: bool)
    ensures
        r == is_absolute_url(s@),
{
    url::Url::parse(s).is_ok()
}

/// The redirect target for a stored long URL: the URL itself when it is
/// absolute; otherwise — a deliberate tolerance for entries stored without
/// a scheme — the URL prefixed with `"http://"`, when that prefixed form is
/// absolute; and nothing when even the prefixed form does not parse.
pub fn resolve_redirect(long_url: &str) -> (r: Option<String>)
    ensures
        is_absolute_url(long_url@) ==> (r matches Some(u) && u@ == long_url@),
        !is_absolute_url(long_url@) && is_absolute_url(prefix_http(long_url@)) ==> (r matches Some(
            u,
        ) && u@ == prefix_http(long_url@)),
        !is_absolute_url(long_url@) && !is_absolute_url(prefix_http(long_url@)) ==> r is None,
{
    if parses_as_absolute_url(long_url) {
        Some(long_url.to_owned())
    } else {
        let mut prefixed: String = "http://".to_owned();
        prefixed.append(long_url);
        if parses_as_absolute_url(prefixed.as_str()) {
            Some(prefixed)
        } else {
            None
        }
    }
}

} // verus!
