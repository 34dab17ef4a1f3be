//! URLs as the library sees them: a parsed URL carries the text it was
//! parsed from, and what the `url` crate computes from it is named over that
//! text. Percent-encoding is stated exactly.
use vstd::prelude::*;

verus! {

#[verifier::external_type_specification]
#[verifier::external_body]
pub struct ExUrl(url::Url);

#[verifier::external_type_specification]
#[verifier::external_body]
pub struct ExParseError(url::ParseError);

/// What `url::Url::parse` makes of `s`, as the URL's serialization, or
/// `None` where it fails.
pub uninterp spec fn url_parse(s: Seq<char>) -> Option<Seq<char>>;

/// The scheme of the URL parsed from `s` (`url::Url::scheme`).
pub uninterp spec fn url_scheme(s: Seq<char>) -> Seq<char>;

/// The host of the URL parsed from `s` (`url::Url::host_str`).
pub uninterp spec fn url_host(s: Seq<char>) -> Option<Seq<char>>;

/// The ASCII serialization of the origin of the URL parsed from `s`
/// (`url::Origin::ascii_serialization`).
pub uninterp spec fn url_origin(s: Seq<char>) -> Seq<char>;

/// The serialization of `reference` resolved against the URL parsed from
/// `base` (`url::Url::join`), or `None` where resolution fails.
pub uninterp spec fn url_join(base: Seq<char>, reference: Seq<char>) -> Option<Seq<char>>;

/// An absolute URL together with the text it was parsed from.
pub struct ParsedUrl {
    url: url::Url,
    source: Ghost<Seq<char>>,
}

impl ParsedUrl {
    /// The text this URL was parsed from.
    pub closed spec fn source(&self) -> Seq<char> {
        self.source@
    }

    /// Relies on `url::Url::parse`: it succeeds exactly where the name
    /// `url_parse` says so.
    #[verifier::external_body]
    pub fn parse(s: &str) -> (r: Result<ParsedUrl, url::ParseError>)
        ensures
            r is Ok <==> url_parse(s@) is Some,
            r matches Ok(u) ==> u.source() == s@,
    {
        url::Url::parse(s).map(|url| ParsedUrl { url, source: Ghost(s@) })
    }

    /// Relies on `url::Url::scheme`.
    #[verifier::external_body]
    pub fn scheme(&self) -> (r: &str)
        ensures
            r@ == url_scheme(self.source()),
    {
        self.url.scheme()
    }

    /// Relies on `url::Url::host_str`.
    #[verifier::external_body]
    pub fn host(&self) -> (r: Option<&str>)
        ensures
            r is Some <==> url_host(self.source()) is Some,
            r matches Some(h) ==> url_host(self.source()) == Some(h@),
    {
        self.url.host_str()
    }

    /// Relies on `url::Url::origin` and its `ascii_serialization`.
    #[verifier::external_body]
    pub fn origin(&self) -> (r: String)
        ensures
            r@ == url_origin(self.source()),
    {
        self.url.origin().ascii_serialization()
    }

    /// Relies on `url::Url::join`: the result is the serialization of the
    /// resolved URL (`From<Url> for String`).
    #[verifier::external_body]
    pub fn join(&self, reference: &str) -> (r: Result<String, url::ParseError>)
        ensures
            r is Ok <==> url_join(self.source(), reference@) is Some,
            r matches Ok(j) ==> url_join(self.source(), reference@) == Some(j@),
    {
        self.url.join(reference).map(String::from)
    }
}

/// Bytes that percent-encoding leaves as they are: ASCII letters, digits
/// and `-`, `.`, `_`, `~`.
pub open spec fn is_unreserved(b: u8) -> bool {
    (48 <= b && b <= 57) || (65 <= b && b <= 90) || (97 <= b && b <= 122) || b == 45 || b == 46
        || b == 95 || b == 126
}

/// An upper-case hexadecimal digit for `d < 16`.
pub open spec fn hex_digit(d: u8) -> char {
    if d < 10 {
        ((48 + d) as u8) as char
    } else {
        ((55 + d) as u8) as char
    }
}

/// Percent-encoding of a byte string: each byte outside the unreserved set
/// becomes `%` and two upper-case hexadecimal digits.
pub open spec fn percent_encoded(b: Seq<u8>) -> Seq<char>
    decreases b.len(),
{
    if b.len() == 0 {
        Seq::empty()
    } else {
        let head = if is_unreserved(b[0]) {
            seq![b[0] as char]
        } else {
            seq!['%', hex_digit(b[0] / 16), hex_digit(b[0] % 16)]
        };
        head + percent_encoded(b.drop_first())
    }
}

/// Percent-encoding of the UTF-8 bytes of `s`.
pub open spec fn url_encoded(s: Seq<char>) -> Seq<char> {
    percent_encoded(vstd::utf8::encode_utf8(s))
}

/// Relies on `urlencoding::encode`: every byte of the UTF-8 form but
/// alphanumerics and `-`, `_`, `.`, `~` becomes `%XX`, upper-case.
#[verifier::external_body]
pub fn encode_component(s: &str) -> (r: String)
    ensures
        r@ == url_encoded(s@),
{
    urlencoding::encode(s).into_owned()
}

} // verus!
