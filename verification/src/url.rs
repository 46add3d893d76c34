//! URL parsing and resolution, done by the `url` crate that `surf`
//! re-exports. The library keeps URLs as text and names what the crate
//! returns; it does not restate the URL standard.
use vstd::prelude::*;

verus! {

/// The serialization of the absolute URL that `text` parses to, or `None`
/// if `text` is not a well-formed absolute URL.
pub uninterp spec fn parsed_url(text: Seq<char>) -> Option<Seq<char>>;

/// The serialization of the URL that `path` resolves to against the URL
/// written as `base`, or `None` if `base` is no absolute URL or `path`
/// does not resolve against it.
pub uninterp spec fn joined_url(base: Seq<char>, path: Seq<char>) -> Option<Seq<char>>;

/// Calls `surf::http::Url::parse` and hands back the URL's serialization.
/// Trusted: the result is the one named `parsed_url`; nothing else is
/// claimed of it.
#[verifier::external_body]
pub(crate) fn parse_url(text: &str) -> (r: Option<String>)
    ensures
        match r {
            Some(u) => parsed_url(text@) == Some(u@),
            None => parsed_url(text@).is_none(),
        },
{
    match surf::http::Url::parse(text) {
        Ok(url) => Some(String::from(url)),
        Err(_) => None,
    }
}

/// Calls `surf::http::Url::join` on the URL written as `base` and hands
/// back the serialization of the resolved URL. Trusted: the result is the
/// one named `joined_url`; nothing else is claimed of it.
#[verifier::external_body]
pub(crate) fn join_url(base: &str, path: &str) -> (r: Option<String>)
    ensures
        match r {
            Some(u) => joined_url(base@, path@) == Some(u@),
            None => joined_url(base@, path@).is_none(),
        },
{
    match surf::http::Url::parse(base) {
        Ok(url) => match url.join(path) {
            Ok(resolved) => Some(String::from(resolved)),
            Err(_) => None,
        },
        Err(_) => None,
    }
}

} // verus!
