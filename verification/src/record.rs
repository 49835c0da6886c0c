//! One record of the history.

use crate::matcher::Segments;
use crate::tokenizer::{last_or_empty, tokenized};
use vstd::prelude::*;

verus! {

/// What the history keeps of one visited URL. Times are whole seconds
/// since the Unix epoch; the score counts the visits.
#[derive(Debug, Clone, PartialEq, Eq)]
pub struct VisitRecord {
    /// Given by the store, and kept for as long as the record lives.
    pub id: u64,
    /// The URL itself: the key of the record.
    pub full_url: String,
    /// The segments of `full_url`, set when the record is made.
    pub segments: Vec<String>,
    /// The last of `segments`, or the empty text.
    pub last_segment: String,
    /// The weight of the record: 1 on the first visit, one more on each
    /// later visit.
    pub score: u64,
    /// The time of the latest visit to the URL.
    pub last_accessed: u64,
}

/// The mathematical value of a [`VisitRecord`].
pub struct VisitView {
    pub id: u64,
    pub full_url: Seq<char>,
    pub segments: Segments,
    pub last_segment: Seq<char>,
    pub score: u64,
    pub last_accessed: u64,
}

impl View for VisitRecord {
    type V = VisitView;

    open spec fn view(&self) -> VisitView {
        VisitView {
            id: self.id,
            full_url: self.full_url@,
            segments: self.segments.deep_view(),
            last_segment: self.last_segment@,
            score: self.score,
            last_accessed: self.last_accessed,
        }
    }
}

impl DeepView for VisitRecord {
    type V = VisitView;

    open spec fn deep_view(&self) -> VisitView {
        self@
    }
}

/// A record is what its URL makes it: the segments are those of the URL,
/// the last segment is the last of them, and it was visited at least once.
pub open spec fn record_is_derived(record: VisitView) -> bool {
    &&& tokenized(record.full_url) == Some(record.segments)
    &&& record.last_segment == last_or_empty(record.segments)
    &&& record.score >= 1
}

/// The record of a first visit.
pub open spec fn first_visit(id: u64, url: Seq<char>, timestamp: u64) -> VisitView {
    let segments = tokenized(url).unwrap();
    VisitView {
        id,
        full_url: url,
        segments,
        last_segment: last_or_empty(segments),
        score: 1,
        last_accessed: timestamp,
    }
}

/// The score after one more visit. It stops at the largest number the
/// field holds.
pub open spec fn raised(score: u64) -> u64 {
    if score < u64::MAX {
        (score + 1) as u64
    } else {
        score
    }
}

/// The later of two times.
pub open spec fn later_of(first: u64, second: u64) -> u64 {
    if first >= second {
        first
    } else {
        second
    }
}

/// The record after one more visit: the score raised, the time moved on
/// to that of the visit unless the record already knows a later one, all
/// else as it was. The time of the last visit never moves back.
pub open spec fn revisited(record: VisitView, timestamp: u64) -> VisitView {
    VisitView {
        score: raised(record.score),
        last_accessed: later_of(record.last_accessed, timestamp),
        ..record
    }
}

} // verus!
