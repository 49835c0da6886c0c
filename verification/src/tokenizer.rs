//! From a URL to its path segments.

use crate::error::HistoryError;
use crate::matcher::Segments;
use crate::text::lowercase;
use crate::weburl::{parse_url, parsed_url, ParsedUrl, UrlRecord};
use vstd::prelude::*;

verus! {

/// Raw components made into segments: the empty ones dropped, the others
/// lowercased, the order kept.
pub open spec fn normalized(raw: Segments) -> Segments {
    raw.filter(|part: Seq<char>| part.len() > 0).map_values(|part: Seq<char>| lowercase(part))
}

/// The segments of a parsed URL. A URL without a path, or with the path
/// `/`, has none.
pub open spec fn url_segments(url: UrlRecord) -> Segments {
    match url.path_segments {
        Some(raw) => normalized(raw),
        None => Seq::empty(),
    }
}

/// The segments of the URL written as `text`, where it is one.
pub open spec fn tokenized(text: Seq<char>) -> Option<Segments> {
    match parsed_url(text) {
        Some(url) => Some(url_segments(url)),
        None => None,
    }
}

/// The last segment, or the empty text where there is none.
pub open spec fn last_or_empty(segments: Segments) -> Seq<char> {
    if segments.len() > 0 {
        segments.last()
    } else {
        Seq::empty()
    }
}

/// Drops the empty components of `raw` and lowercases the others.
pub fn normalize_segments(raw: &[String]) -> (segments: Vec<String>)
    ensures
        segments.deep_view() == normalized(raw.deep_view()),
{
    let count: usize = raw.len();
    let mut segments: Vec<String> = Vec::new();
    let mut at: usize = 0;
    proof {
        reveal(Seq::filter);
        assert(raw.deep_view().take(0) =~= Seq::<Seq<char>>::empty());
        assert(segments.deep_view() =~= normalized(raw.deep_view().take(0)));
    }
    while at < count
        invariant
            count == raw@.len(),
            at <= count,
            segments.deep_view() == normalized(raw.deep_view().take(at as int)),
        decreases count - at,
    {
        let ghost before = segments.deep_view();
        let ghost seen = raw.deep_view().take(at as int);
        let ghost next = raw.deep_view().take(at + 1);
        proof {
            reveal(Seq::filter);
            assert(next.drop_last() =~= seen);
            assert(next.last() == raw@[at as int]@);
        }
        if !raw[at].as_str().is_empty() {
            let lowered = raw[at].as_str().to_lowercase();
            segments.push(lowered);
            proof {
                let kept = seen.filter(|part: Seq<char>| part.len() > 0);
                assert(next.filter(|part: Seq<char>| part.len() > 0) == kept.push(next.last()));
                assert(segments.deep_view() =~= before.push(lowercase(next.last())));
                assert(normalized(next) =~= normalized(seen).push(lowercase(next.last())));
            }
        }
        at += 1;
    }
    proof {
        assert(raw.deep_view().take(at as int) =~= raw.deep_view());
    }
    segments
}

/// The segments of a parsed URL.
pub fn tokenize(url: &ParsedUrl) -> (segments: Vec<String>)
    ensures
        segments.deep_view() == url_segments(url@),
{
    match &url.path_segments {
        Some(raw) => normalize_segments(raw.as_slice()),
        None => {
            let segments: Vec<String> = Vec::new();
            assert(segments.deep_view() =~= Seq::<Seq<char>>::empty());
            segments
        },
    }
}

/// Parses `url_str` and gives its segments; fails where it is no URL.
pub fn extract_segments(url_str: &str) -> (outcome: Result<Vec<String>, HistoryError>)
    ensures
        match outcome {
            Ok(segments) => tokenized(url_str@) == Some(segments.deep_view()),
            Err(error) => tokenized(url_str@) is None && error == HistoryError::ParseFailure,
        },
{
    match parse_url(url_str) {
        Ok(url) => Ok(tokenize(&url)),
        Err(_) => Err(HistoryError::ParseFailure),
    }
}

/// The final segment, if there is one.
pub fn get_last_segment(segments: &[String]) -> (last: Option<String>)
    ensures
        match last {
            Some(segment) => segments@.len() > 0 && segment@ == segments.deep_view().last(),
            None => segments@.len() == 0,
        },
{
    let count: usize = segments.len();
    if count == 0 {
        None
    } else {
        Some(segments[count - 1].clone())
    }
}

/// Tokenizing is a function of the URL's text: two outcomes for the same
/// text are the same.
pub proof fn lemma_tokenizing_is_repeatable(
    text: Seq<char>,
    first: Option<Segments>,
    second: Option<Segments>,
)
    requires
        first == tokenized(text),
        second == tokenized(text),
    ensures
        first == second,
{
}

} // verus!
