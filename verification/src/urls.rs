//! URL validation. The shell accepts a tab URL only when the `url` crate
//! parses it as an absolute URL; the text kept for the tab is the parsed
//! URL's serialization, which may normalize the input (for instance by
//! adding a trailing slash to a bare authority).

use vstd::prelude::*;

verus! {

/// What `url::Url::parse` makes of a string: `None` when parsing fails,
/// otherwise the serialization of the parsed URL. The result depends on
/// the characters of the input alone.
pub uninterp spec fn parsed_url(s: Seq<char>) -> Option<Seq<char>>;

/// A string the `url` crate accepts as an absolute URL.
pub open spec fn is_valid_url(s: Seq<char>) -> bool {
    parsed_url(s) is Some
}

/// Relies on `url::Url::parse` for acceptance and on `From<Url> for String`
/// for the serialization of the parsed URL; parsing reads the input string
/// alone.
#[verifier::external_body]
pub fn parse_url(s: &str) -> (r: Option<String>)
    ensures
        r is Some <==> parsed_url(s@) is Some,
        r is Some ==> r->0@ == parsed_url(s@)->0,
{
    match url::Url::parse(s) {
        Ok(u) => Some(String::from(u)),
        Err(_) => None,
    }
}

} // verus!
