//! URL parsing and joining, done by the `url` crate.
//!
//! What `url::Url::parse` and `url::Url::join` return is given by the WHATWG
//! URL standard; it is named here rather than restated, and the rest of the
//! library is specified over these names.
use vstd::prelude::*;

verus! {

/// The plain values that the library reads from a parsed URL.
pub struct ParsedUrl {
    /// The URL's serialization (`Url::as_str`, which is also what
    /// `Url::to_string` gives).
    pub serialization: String,
    /// The URL's path (`Url::path`).
    pub path: String,
}

/// What `url::Url::parse` makes of `input`: `None` where it returns an
/// error, else the serialization and the path of the parsed URL.
pub uninterp spec fn url_parse_spec(input: Seq<char>) -> Option<(Seq<char>, Seq<char>)>;

/// What `url::Url::join` gives with the URL parsed from `base` as the
/// base and `input` as the reference: `None` where it returns an error,
/// else the serialization of the joined URL.
pub uninterp spec fn url_join_spec(base: Seq<char>, input: Seq<char>) -> Option<Seq<char>>;

/// Calls `url::Url::parse` on `input`. The contract claims that the result
/// is what `url_parse_spec` names: `None` on an error, else the parsed
/// URL's serialization and path, read with `Url::as_str` and `Url::path`.
#[verifier::external_body]
pub fn parse_url(input: &str) -> (r: Option<ParsedUrl>)
    ensures
        match r {
            Some(u) => url_parse_spec(input@) == Some((u.serialization@, u.path@)),
            None => url_parse_spec(input@) is None,
        },
{
    match url::Url::parse(input) {
        Ok(u) => Some(ParsedUrl { serialization: u.as_str().to_string(), path: u.path().to_string() }),
        Err(_) => None,
    }
}

/// Parses `base` with `url::Url::parse` and, where that succeeds, calls
/// `url::Url::join` on it with `input`. The contract claims that the result
/// is `None` where `base` does not parse, and otherwise what
/// `url_join_spec` names, the serialization of the joined URL.
#[verifier::external_body]
pub fn join_url(base: &str, input: &str) -> (r: Option<String>)
    ensures
        url_parse_spec(base@) is None ==> r is None,
        url_parse_spec(base@) is Some ==> match r {
            Some(j) => url_join_spec(base@, input@) == Some(j@),
            None => url_join_spec(base@, input@) is None,
        },
{
    match url::Url::parse(base) {
        Ok(b) => match b.join(input) {
            Ok(j) => Some(j.to_string()),
            Err(_) => None,
        },
        Err(_) => None,
    }
}

/// Whether `input` parses as an absolute URL.
pub fn is_valid_url(input: &str) -> (r: bool)
    ensures
        r == url_parse_spec(input@) is Some,
{
    match parse_url(input) {
        Some(_) => true,
        None => false,
    }
}

} // verus!
