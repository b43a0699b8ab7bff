use vstd::prelude::*;

verus! {

#[verifier::external_type_specification]
#[verifier::external_body]
pub struct ExParseError(url::ParseError);

/// The serialization of `s` parsed as an absolute URL, or `None` where it
/// does not parse.
pub uninterp spec fn url_parse(s: Seq<char>) -> Option<Seq<char>>;

/// `s` without its leading and trailing whitespace.
pub uninterp spec fn trim_of(s: Seq<char>) -> Seq<char>;

/// Relies on `url::Url::parse`: whether the text parses as an absolute URL,
/// and the serialization of the parsed URL (`Url::as_str`).
#[verifier::external_body]
pub(crate) fn parse_url(s: &str) -> (r: Result<String, url::ParseError>)
    ensures
        r is Ok <==> url_parse(s@) is Some,
        r matches Ok(u) ==> url_parse(s@) == Some(u@),
{
    url::Url::parse(s).map(String::from)
}

/// Relies on `str::trim`: the result depends on the characters alone.
#[verifier::external_body]
pub(crate) fn trim_text(s: &str) -> (r: &str)
    ensures
        r@ == trim_of(s@),
{
    s.trim()
}

} // verus!
