//! Telling a complete address from a fuzzy navigation pattern.

use crate::matcher::Segments;
use crate::text::{chars_of, contains_char, contains_text, has_substring, split_on, split_text};
use crate::tokenizer::{normalize_segments, normalized};
use crate::weburl::{parse_url, parsed_url, ParsedUrl, UrlRecord};
use vstd::prelude::*;
use vstd::string::StringExecFns;

verus! {

/// What an address turned out to be.
#[derive(Debug, PartialEq)]
pub enum InputType {
    /// A complete address, to be opened as it is.
    FullUrl(ParsedUrl),
    /// Segments to be resolved against the history.
    FuzzyPattern(Vec<String>),
}

/// The mathematical value of an [`InputType`].
pub enum InputKind {
    FullUrl(UrlRecord),
    FuzzyPattern(Segments),
}

impl View for InputType {
    type V = InputKind;

    open spec fn view(&self) -> InputKind {
        match self {
            InputType::FullUrl(url) => InputKind::FullUrl(url@),
            InputType::FuzzyPattern(segments) => InputKind::FuzzyPattern(segments.deep_view()),
        }
    }
}

/// The mark of an address that names its scheme.
pub open spec fn scheme_mark() -> Seq<char> {
    seq![':', '/', '/']
}

/// The scheme assumed for an address that names none: `http` where the
/// address holds a `:`, as before a port, and `https` otherwise.
pub open spec fn inferred_scheme(address: Seq<char>) -> Seq<char> {
    if address.contains(':') {
        seq!['h', 't', 't', 'p']
    } else {
        seq!['h', 't', 't', 'p', 's']
    }
}

/// The address with the inferred scheme put before it.
pub open spec fn with_inferred_scheme(address: Seq<char>) -> Seq<char> {
    inferred_scheme(address) + scheme_mark() + address
}

/// A parsed address shows a real host: its host holds a `.`, or it names a
/// port.
pub open spec fn names_real_host(url: UrlRecord) -> bool {
    (url.host matches Some(host) && host.contains('.')) || url.port is Some
}

/// The character ends the part of an address that names host and port.
/// Under the schemes that are inferred a `\` does so as a `/` does.
pub open spec fn ends_authority(c: char) -> bool {
    c == '/' || c == '\\' || c == '?' || c == '#'
}

/// The character is a decimal digit.
pub open spec fn is_digit(c: char) -> bool {
    ('0' as u32) <= (c as u32) <= ('9' as u32)
}

/// The part of the address that names host and port stops before `end`,
/// and closes with the `:` at `colon` and digits, at least one, after it.
pub open spec fn port_at(address: Seq<char>, colon: int, end: int) -> bool {
    &&& 0 <= colon && colon + 1 < end <= address.len()
    &&& forall|i: int| 0 <= i < end ==> !ends_authority(#[trigger] address[i])
    &&& end < address.len() ==> ends_authority(address[end])
    &&& address[colon] == ':'
    &&& forall|i: int| colon < i < end ==> is_digit(#[trigger] address[i])
}

/// The address itself gives a port: before its first `/`, `\`, `?` or `#`
/// it closes with a `:` and a number. Such a port need not show in the
/// parsed URL, which leaves out the port that its scheme implies.
pub open spec fn gives_port(address: Seq<char>) -> bool {
    exists|colon: int, end: int| port_at(address, colon, end)
}

/// The pattern that an address stands for: its components between `/`,
/// the empty ones dropped, the others lowercased.
pub open spec fn pattern_of(address: Seq<char>) -> Segments {
    normalized(split_on(address, '/'))
}

/// The decision, given what the parser made of the address as it is
/// (`direct`) and of the address with the inferred scheme (`inferred`):
/// an address that names its scheme and parses is that URL; an address
/// that parses with the inferred scheme is that URL where the parse shows
/// a real host or the address itself gives a port; any other address is a
/// pattern.
pub open spec fn decision(
    address: Seq<char>,
    direct: Option<UrlRecord>,
    inferred: Option<UrlRecord>,
) -> InputKind {
    if has_substring(address, scheme_mark()) && direct is Some {
        InputKind::FullUrl(direct->0)
    } else if inferred is Some && (names_real_host(inferred->0) || gives_port(address)) {
        InputKind::FullUrl(inferred->0)
    } else {
        InputKind::FuzzyPattern(pattern_of(address))
    }
}

/// What an address is classified as.
pub open spec fn classification(address: Seq<char>) -> InputKind {
    decision(address, parsed_url(address), parsed_url(with_inferred_scheme(address)))
}

/// An address that names its scheme and parses as it stands is that URL.
pub proof fn lemma_explicit_scheme_is_full_url(address: Seq<char>)
    requires
        has_substring(address, scheme_mark()),
        parsed_url(address) is Some,
    ensures
        classification(address) == InputKind::FullUrl(parsed_url(address)->0),
{
}

/// An address that does not parse as it stands and whose host, once a
/// scheme is put before it, holds a `.` is the URL with that scheme:
/// `http` where the address holds a `:`, `https` otherwise.
pub proof fn lemma_dotted_host_is_full_url(address: Seq<char>)
    requires
        has_substring(address, scheme_mark()) ==> parsed_url(address) is None,
        parsed_url(with_inferred_scheme(address)) matches Some(url) && url.host matches Some(host)
            && host.contains('.'),
    ensures
        classification(address) == InputKind::FullUrl(
            parsed_url(with_inferred_scheme(address))->0,
        ),
        address.contains(':') ==> with_inferred_scheme(address) == seq!['h', 't', 't', 'p']
            + scheme_mark() + address,
        !address.contains(':') ==> with_inferred_scheme(address) == seq!['h', 't', 't', 'p', 's']
            + scheme_mark() + address,
{
}

/// An address that gives a port holds a `:`.
pub proof fn lemma_port_needs_a_colon(address: Seq<char>)
    requires
        gives_port(address),
    ensures
        address.contains(':'),
{
    let (colon, end) = choose|colon: int, end: int| port_at(address, colon, end);
    assert(address[colon] == ':');
}

/// An address that gives a port and parses with `http` put before it is
/// that URL, whether or not the parsed URL still shows the port.
pub proof fn lemma_given_port_is_full_url(address: Seq<char>)
    requires
        has_substring(address, scheme_mark()) ==> parsed_url(address) is None,
        gives_port(address),
        parsed_url(with_inferred_scheme(address)) is Some,
    ensures
        with_inferred_scheme(address) == seq!['h', 't', 't', 'p'] + scheme_mark() + address,
        classification(address) == InputKind::FullUrl(
            parsed_url(with_inferred_scheme(address))->0,
        ),
{
    lemma_port_needs_a_colon(address);
}

/// An address that does not parse as it stands, gives no port and shows
/// no real host with a scheme put before it is the pattern of its
/// components: of the address as it was typed, in its order.
pub proof fn lemma_plain_words_are_a_pattern(address: Seq<char>)
    requires
        has_substring(address, scheme_mark()) ==> parsed_url(address) is None,
        !gives_port(address),
        parsed_url(with_inferred_scheme(address)) matches Some(url) ==> !names_real_host(url),
    ensures
        classification(address) == InputKind::FuzzyPattern(pattern_of(address)),
{
}

/// Whether the character ends the part that names host and port.
fn is_authority_end(c: char) -> (ends: bool)
    ensures
        ends == ends_authority(c),
{
    c == '/' || c == '\\' || c == '?' || c == '#'
}

/// Whether the character is a decimal digit.
fn is_decimal_digit(c: char) -> (digit: bool)
    ensures
        digit == is_digit(c),
{
    ('0' as u32) <= (c as u32) && (c as u32) <= ('9' as u32)
}

/// Whether the address itself gives a port.
pub fn address_gives_port(address: &str) -> (given: bool)
    ensures
        given == gives_port(address@),
{
    let chars = chars_of(address);
    let count: usize = chars.len();
    let mut end: usize = 0;
    while end < count && !is_authority_end(chars[end])
        invariant
            chars@ == address@,
            count == chars@.len(),
            end <= count,
            forall|i: int| 0 <= i < end ==> !ends_authority(#[trigger] address@[i]),
        decreases count - end,
    {
        end += 1;
    }
    let mut start: usize = end;
    while start > 0 && is_decimal_digit(chars[start - 1])
        invariant
            chars@ == address@,
            count == chars@.len(),
            start <= end <= count,
            forall|i: int| start <= i < end ==> is_digit(#[trigger] address@[i]),
        decreases start,
    {
        start -= 1;
    }
    let given = 0 < start && start < end && chars[start - 1] == ':';
    proof {
        if given {
            assert(port_at(address@, start - 1, end as int));
        } else {
            assert forall|colon: int, other: int| !port_at(address@, colon, other) by {
                if port_at(address@, colon, other) {
                    if other < end {
                        assert(ends_authority(address@[other]));
                    } else if end < other {
                        assert(!ends_authority(address@[end as int]));
                    }
                    assert(other == end);
                    assert(!is_digit(address@[colon]));
                    if colon + 1 < start {
                        assert(is_digit(address@[start - 1]));
                    }
                    assert(start == colon + 1);
                }
            }
        }
    }
    given
}

/// Whether a parsed address shows a real host.
fn shows_real_host(url: &ParsedUrl) -> (shown: bool)
    ensures
        shown == names_real_host(url@),
{
    let dotted = match &url.host {
        Some(host) => contains_char(host.as_str(), '.'),
        None => false,
    };
    dotted || url.port.is_some()
}

/// The address as a pattern.
fn fuzzy_pattern(address: &str) -> (pattern: Vec<String>)
    ensures
        pattern.deep_view() == pattern_of(address@),
{
    let parts = split_text(address, '/');
    normalize_segments(parts.as_slice())
}

/// Decides on an address from the two parses of it. Neither parse is
/// looked at where the rule does not ask for it.
pub fn classify_parsed(
    address: &str,
    direct: Option<ParsedUrl>,
    inferred: Option<ParsedUrl>,
) -> (kind: InputType)
    ensures
        kind@ == decision(
            address@,
            match direct {
                Some(url) => Some(url@),
                None => None,
            },
            match inferred {
                Some(url) => Some(url@),
                None => None,
            },
        ),
{
    proof {
        reveal_strlit("://");
        assert("://"@ =~= scheme_mark());
    }
    if contains_text(address, "://") {
        if let Some(url) = direct {
            return InputType::FullUrl(url);
        }
    }
    if let Some(url) = inferred {
        if shows_real_host(&url) || address_gives_port(address) {
            return InputType::FullUrl(url);
        }
    }
    InputType::FuzzyPattern(fuzzy_pattern(address))
}

/// The address with the inferred scheme put before it.
fn qualify(address: &str) -> (qualified: String)
    ensures
        qualified@ == with_inferred_scheme(address@),
{
    proof {
        reveal_strlit("http");
        reveal_strlit("https");
        reveal_strlit("://");
        assert("http"@ =~= seq!['h', 't', 't', 'p']);
        assert("https"@ =~= seq!['h', 't', 't', 'p', 's']);
        assert("://"@ =~= scheme_mark());
    }
    let scheme = if contains_char(address, ':') {
        "http"
    } else {
        "https"
    };
    String::from_str(scheme).concat("://").concat(address)
}

/// Classifies an address: a complete URL, or a pattern for the history.
/// Never fails: an address that no parse accepts is a pattern.
pub fn classify_input(address: &str) -> (kind: InputType)
    ensures
        kind@ == classification(address@),
{
    proof {
        reveal_strlit("://");
        assert("://"@ =~= scheme_mark());
    }
    if contains_text(address, "://") {
        if let Ok(url) = parse_url(address) {
            return classify_parsed(address, Some(url), None);
        }
    }
    let qualified = qualify(address);
    let inferred = match parse_url(qualified.as_str()) {
        Ok(url) => Some(url),
        Err(_) => None,
    };
    classify_parsed(address, None, inferred)
}

} // verus!
