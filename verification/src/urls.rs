//! What the library reads of URLs, computed by the `url` crate.
use vstd::prelude::*;

verus! {

/// The view of an optional string.
pub open spec fn opt_view(o: Option<String>) -> Option<Seq<char>> {
    match o {
        Some(s) => Some(s@),
        None => None,
    }
}

/// The view of a result whose value and error are strings.
pub open spec fn result_view(r: Result<String, String>) -> Result<Seq<char>, Seq<char>> {
    match r {
        Ok(s) => Ok(s@),
        Err(e) => Err(e@),
    }
}

/// The host that `url::Url::parse(input)` followed by `Url::host_str` gives:
/// `None` when `input` does not parse as a URL or the URL has no host.
pub uninterp spec fn parsed_url_host(input: Seq<char>) -> Option<Seq<char>>;

/// The scheme that `url::Url::parse(input)` followed by `Url::scheme` gives:
/// `None` when `input` does not parse as a URL.
pub uninterp spec fn parsed_url_scheme(input: Seq<char>) -> Option<Seq<char>>;

/// The serialization of the URL that `url::Url::parse(input)` gives:
/// `None` when `input` does not parse as a URL.
pub uninterp spec fn parsed_url_serialization(input: Seq<char>) -> Option<Seq<char>>;

/// The serialization of `href` resolved against the URL that `base` parses
/// to, as `url::Url::join` gives it; the error's message when `base` does not
/// parse or the join fails.
pub uninterp spec fn joined_url(base: Seq<char>, href: Seq<char>) -> Result<Seq<char>, Seq<char>>;

/// Calls `url::Url::parse` and `Url::host_str`. The contract claims only that
/// the result is a function of `input`, named `parsed_url_host`.
#[verifier::external_body]
pub(crate) fn url_host(input: &str) -> (r: Option<String>)
    ensures
        opt_view(r) == parsed_url_host(input@),
{
    match url::Url::parse(input) {
        Ok(u) => u.host_str().map(String::from),
        Err(_) => None,
    }
}

/// Calls `url::Url::parse` and `Url::scheme`. The contract claims only that
/// the result is a function of `input`, named `parsed_url_scheme`.
#[verifier::external_body]
pub(crate) fn url_scheme(input: &str) -> (r: Option<String>)
    ensures
        opt_view(r) == parsed_url_scheme(input@),
{
    match url::Url::parse(input) {
        Ok(u) => Some(u.scheme().to_string()),
        Err(_) => None,
    }
}

/// Calls `url::Url::parse` and serializes the result (`Url::as_str`). The
/// contract claims only that the result is a function of `input`, named
/// `parsed_url_serialization`.
#[verifier::external_body]
pub(crate) fn url_serialization(input: &str) -> (r: Option<String>)
    ensures
        opt_view(r) == parsed_url_serialization(input@),
{
    match url::Url::parse(input) {
        Ok(u) => Some(u.as_str().to_string()),
        Err(_) => None,
    }
}

/// Calls `url::Url::parse` on `base` and `Url::join` with `href`, and
/// serializes the result or renders the error with `Display`. The contract
/// claims only that the result is a function of `base` and `href`, named
/// `joined_url`.
#[verifier::external_body]
pub(crate) fn url_join(base: &str, href: &str) -> (r: Result<String, String>)
    ensures
        match r {
            Ok(u) => joined_url(base@, href@) == Ok::<Seq<char>, Seq<char>>(u@),
            Err(e) => joined_url(base@, href@) == Err::<Seq<char>, Seq<char>>(e@),
        },
{
    match url::Url::parse(base) {
        Ok(b) => match b.join(href) {
            Ok(u) => Ok(u.as_str().to_string()),
            Err(e) => Err(e.to_string()),
        },
        Err(e) => Err(e.to_string()),
    }
}

} // verus!
