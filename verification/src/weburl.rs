//! The boundary to the URL parser: what a parsed URL is to this library.

use vstd::prelude::*;

verus! {

/// A parsed URL by the parts the library reads.
#[derive(Debug, Clone, PartialEq, Eq)]
pub struct ParsedUrl {
    /// The URL as the parser writes it out.
    pub serialization: String,
    /// The host as text, if the URL has one.
    pub host: Option<String>,
    /// The port, if one is given and is not the scheme's default.
    pub port: Option<u16>,
    /// The path cut at each `/`, or nothing for a URL that cannot be a base.
    pub path_segments: Option<Vec<String>>,
}

/// The mathematical value of a [`ParsedUrl`].
pub struct UrlRecord {
    pub serialization: Seq<char>,
    pub host: Option<Seq<char>>,
    pub port: Option<u16>,
    pub path_segments: Option<Seq<Seq<char>>>,
}

impl View for ParsedUrl {
    type V = UrlRecord;

    open spec fn view(&self) -> UrlRecord {
        UrlRecord {
            serialization: self.serialization@,
            host: match self.host {
                Some(host) => Some(host@),
                None => None,
            },
            port: self.port,
            path_segments: match self.path_segments {
                Some(parts) => Some(parts.deep_view()),
                None => None,
            },
        }
    }
}

/// The parser's error, carried through as it is.
#[verifier::external_type_specification]
#[verifier::external_body]
pub struct ExParseError(url::ParseError);

/// What the URL parser makes of `input`: the record of the URL it reads,
/// or nothing where it rejects the input.
pub uninterp spec fn parsed_url(input: Seq<char>) -> Option<UrlRecord>;

/// Parses `input` with `url::Url::parse` and reads the result with
/// `Url::as_str`, `Url::host_str`, `Url::port` and `Url::path_segments`.
/// The parser works on the input alone, so its outcome is a function of
/// the input: the contract gives that outcome the name [`parsed_url`] and
/// claims nothing of what the parser accepts.
#[verifier::external_body]
pub(crate) fn parse_url(input: &str) -> (outcome: Result<ParsedUrl, url::ParseError>)
    ensures
        match outcome {
            Ok(url) => parsed_url(input@) == Some(url@),
            Err(_) => parsed_url(input@) is None,
        },
{
    let url = url::Url::parse(input)?;
    Ok(ParsedUrl {
        serialization: String::from(url.as_str()),
        host: url.host_str().map(String::from),
        port: url.port(),
        path_segments: url.path_segments().map(|parts| parts.map(String::from).collect()),
    })
}

} // verus!
