//! The order in which matching records are preferred.

use crate::matcher::{anchored_match, segments_match_pattern, Segments};
use crate::record::{VisitRecord, VisitView};
use crate::text::chars_of;
use vstd::prelude::*;

verus! {

/// `first` comes before `second` in the order of texts: character by
/// character, by code point, a proper prefix before what it begins.
pub open spec fn text_before(first: Seq<char>, second: Seq<char>) -> bool
    decreases first.len(),
{
    if second.len() == 0 {
        false
    } else if first.len() == 0 {
        true
    } else if first[0] == second[0] {
        text_before(first.skip(1), second.skip(1))
    } else {
        (first[0] as u32) < (second[0] as u32)
    }
}

/// `first` is preferred to `second`: by the higher score, then by the
/// later visit, then by the URL that comes first as text.
pub open spec fn outranks(first: VisitView, second: VisitView) -> bool {
    ||| first.score > second.score
    ||| first.score == second.score && first.last_accessed > second.last_accessed
    ||| first.score == second.score && first.last_accessed == second.last_accessed
        && text_before(first.full_url, second.full_url)
}

/// The record at `at` matches the pattern.
pub open spec fn is_candidate(records: Seq<VisitView>, pattern: Segments, at: int) -> bool {
    0 <= at < records.len() && anchored_match(pattern, records[at].segments)
}

/// The record at `at` matches the pattern, and no matching record is
/// preferred to it.
pub open spec fn is_top(records: Seq<VisitView>, pattern: Segments, at: int) -> bool {
    &&& is_candidate(records, pattern, at)
    &&& forall|other: int| #[trigger]
        is_candidate(records, pattern, other) ==> !outranks(records[other], records[at])
}

/// The URL of the best match, or nothing where no record matches.
pub open spec fn best_url(records: Seq<VisitView>, pattern: Segments) -> Option<Seq<char>> {
    if exists|at: int| is_top(records, pattern, at) {
        Some(records[choose|at: int| is_top(records, pattern, at)].full_url)
    } else {
        None
    }
}

/// No text comes before itself.
pub proof fn lemma_text_before_irreflexive(text: Seq<char>)
    ensures
        !text_before(text, text),
    decreases text.len(),
{
    if text.len() > 0 {
        lemma_text_before_irreflexive(text.skip(1));
    }
}

/// The order of texts is transitive.
pub proof fn lemma_text_before_transitive(first: Seq<char>, second: Seq<char>, third: Seq<char>)
    requires
        text_before(first, second),
        text_before(second, third),
    ensures
        text_before(first, third),
    decreases first.len(),
{
    if first.len() > 0 && first[0] == second[0] && second[0] == third[0] {
        lemma_text_before_transitive(first.skip(1), second.skip(1), third.skip(1));
    }
}

/// Of two different texts one comes before the other.
pub proof fn lemma_text_before_total(first: Seq<char>, second: Seq<char>)
    requires
        first != second,
    ensures
        text_before(first, second) || text_before(second, first),
    decreases first.len(),
{
    if first.len() == 0 || second.len() == 0 {
        if first.len() == 0 && second.len() == 0 {
            assert(first =~= second);
        }
    } else if first[0] == second[0] {
        if first.skip(1) == second.skip(1) {
            assert(first.len() == second.len()) by {
                assert(first.skip(1).len() == first.len() - 1);
                assert(second.skip(1).len() == second.len() - 1);
            }
            assert forall|i: int| 0 <= i < first.len() implies first[i] == second[i] by {
                if i > 0 {
                    assert(first.skip(1)[i - 1] == first[i]);
                    assert(second.skip(1)[i - 1] == second[i]);
                }
            }
            assert(first =~= second);
        }
        lemma_text_before_total(first.skip(1), second.skip(1));
    } else {
        vstd::utf8::char_u32_cast(first[0], first[0] as u32);
        vstd::utf8::char_u32_cast(second[0], second[0] as u32);
    }
}

/// No record is preferred to itself.
pub proof fn lemma_outranks_irreflexive(record: VisitView)
    ensures
        !outranks(record, record),
{
    lemma_text_before_irreflexive(record.full_url);
}

/// Preference is transitive.
pub proof fn lemma_outranks_transitive(first: VisitView, second: VisitView, third: VisitView)
    requires
        outranks(first, second),
        outranks(second, third),
    ensures
        outranks(first, third),
{
    if first.score == second.score && second.score == third.score && first.last_accessed
        == second.last_accessed && second.last_accessed == third.last_accessed {
        lemma_text_before_transitive(first.full_url, second.full_url, third.full_url);
    }
}

/// Of two records with different URLs one is preferred to the other.
pub proof fn lemma_outranks_total(first: VisitView, second: VisitView)
    requires
        first.full_url != second.full_url,
    ensures
        outranks(first, second) || outranks(second, first),
{
    lemma_text_before_total(first.full_url, second.full_url);
}

/// The best match is one URL: two records that both match, with no
/// matching record preferred to either, have the same URL. So the answer
/// depends on the records and the pattern alone, whatever record is looked
/// at first.
pub proof fn lemma_best_match_is_unique(
    records: Seq<VisitView>,
    pattern: Segments,
    first: int,
    second: int,
)
    requires
        is_top(records, pattern, first),
        is_top(records, pattern, second),
    ensures
        records[first].full_url == records[second].full_url,
        best_url(records, pattern) == Some(records[first].full_url),
{
    if records[first].full_url != records[second].full_url {
        lemma_outranks_total(records[first], records[second]);
    }
    let chosen = choose|at: int| is_top(records, pattern, at);
    if records[first].full_url != records[chosen].full_url {
        lemma_outranks_total(records[first], records[chosen]);
    }
}

/// There is no best match exactly where no record matches.
pub proof fn lemma_no_best_match_means_no_match(records: Seq<VisitView>, pattern: Segments)
    ensures
        best_url(records, pattern) is None <==> forall|at: int|
            !is_candidate(records, pattern, at),
{
    if exists|at: int| is_candidate(records, pattern, at) {
        let top = lemma_top_exists(records, pattern, records.len() as int);
        assert(is_top(records, pattern, top));
    }
}

/// Among the first `upto` records, if one matches, one matches that no
/// other of them is preferred to.
proof fn lemma_top_exists(records: Seq<VisitView>, pattern: Segments, upto: int) -> (top: int)
    requires
        0 <= upto <= records.len(),
        exists|at: int| at < upto && is_candidate(records, pattern, at),
    ensures
        top < upto,
        is_candidate(records, pattern, top),
        forall|other: int|
            other < upto && #[trigger] is_candidate(records, pattern, other) ==> !outranks(
                records[other],
                records[top],
            ),
    decreases upto,
{
    let last = upto - 1;
    if exists|at: int| at < last && is_candidate(records, pattern, at) {
        let before = lemma_top_exists(records, pattern, last);
        if is_candidate(records, pattern, last) && outranks(records[last], records[before]) {
            lemma_outranks_irreflexive(records[last]);
            assert forall|other: int|
                other < upto && #[trigger] is_candidate(records, pattern, other) implies !outranks(
                records[other],
                records[last],
            ) by {
                if outranks(records[other], records[last]) {
                    lemma_outranks_transitive(records[other], records[last], records[before]);
                }
            }
            last
        } else {
            before
        }
    } else {
        lemma_outranks_irreflexive(records[last]);
        last
    }
}

/// Whether `first` comes before `second` in the order of texts.
pub fn comes_before(first: &str, second: &str) -> (before: bool)
    ensures
        before == text_before(first@, second@),
{
    let left = chars_of(first);
    let right = chars_of(second);
    let left_len: usize = left.len();
    let right_len: usize = right.len();
    let mut at: usize = 0;
    proof {
        assert(first@.skip(0) =~= first@);
        assert(second@.skip(0) =~= second@);
    }
    while at < left_len && at < right_len
        invariant
            left@ == first@,
            right@ == second@,
            left_len == left@.len(),
            right_len == right@.len(),
            at <= left_len,
            at <= right_len,
            text_before(first@, second@) == text_before(first@.skip(at as int), second@.skip(at as int)),
        decreases left_len - at,
    {
        proof {
            assert(first@.skip(at as int)[0] == first@[at as int]);
            assert(second@.skip(at as int)[0] == second@[at as int]);
            assert(first@.skip(at as int).skip(1) =~= first@.skip(at + 1));
            assert(second@.skip(at as int).skip(1) =~= second@.skip(at + 1));
        }
        if left[at] != right[at] {
            return (left[at] as u32) < (right[at] as u32);
        }
        at += 1;
    }
    at < right_len
}

/// Whether `first` is preferred to `second`.
pub fn is_preferred(first: &VisitRecord, second: &VisitRecord) -> (preferred: bool)
    ensures
        preferred == outranks(first@, second@),
{
    if first.score != second.score {
        first.score > second.score
    } else if first.last_accessed != second.last_accessed {
        first.last_accessed > second.last_accessed
    } else {
        comes_before(first.full_url.as_str(), second.full_url.as_str())
    }
}

/// The place of a best match among `records`: a record that matches
/// `pattern` and that no matching record is preferred to.
fn best_position(records: &[VisitRecord], pattern: &[String]) -> (best: Option<usize>)
    ensures
        match best {
            Some(at) => is_top(records.deep_view(), pattern.deep_view(), at as int),
            None => forall|at: int| !is_candidate(records.deep_view(), pattern.deep_view(), at),
        },
{
    let ghost views = records.deep_view();
    let ghost wanted = pattern.deep_view();
    let count: usize = records.len();
    let mut best: Option<usize> = None;
    let mut at: usize = 0;
    while at < count
        invariant
            views == records.deep_view(),
            wanted == pattern.deep_view(),
            count == records@.len(),
            at <= count,
            match best {
                Some(top) => top < at && is_candidate(views, wanted, top as int) && (forall|
                    other: int,
                |
                    other < at && #[trigger] is_candidate(views, wanted, other) ==> !outranks(
                        views[other],
                        views[top as int],
                    )),
                None => forall|other: int| other < at ==> !is_candidate(views, wanted, other),
            },
        decreases count - at,
    {
        assert(views[at as int] == records@[at as int]@);
        assert(views[at as int].segments == records@[at as int].segments.deep_view());
        if segments_match_pattern(records[at].segments.as_slice(), pattern) {
            match best {
                Some(top) => {
                    assert(views[top as int] == records@[top as int]@);
                    if is_preferred(&records[at], &records[top]) {
                        proof {
                            lemma_outranks_irreflexive(views[at as int]);
                            assert forall|other: int|
                                other < at + 1 && #[trigger] is_candidate(
                                    views,
                                    wanted,
                                    other,
                                ) implies !outranks(views[other], views[at as int]) by {
                                if outranks(views[other], views[at as int]) {
                                    lemma_outranks_transitive(
                                        views[other],
                                        views[at as int],
                                        views[top as int],
                                    );
                                }
                            }
                        }
                        best = Some(at);
                    }
                },
                None => {
                    proof {
                        lemma_outranks_irreflexive(views[at as int]);
                    }
                    best = Some(at);
                },
            }
        }
        at += 1;
    }
    best
}

/// The URL of the best match for `pattern` among `records`, or nothing
/// where no record matches.
pub fn best_match(records: &[VisitRecord], pattern: &[String]) -> (best: Option<String>)
    ensures
        match best {
            Some(url) => best_url(records.deep_view(), pattern.deep_view()) == Some(url@),
            None => best_url(records.deep_view(), pattern.deep_view()) is None,
        },
        best is None <==> forall|at: int|
            !is_candidate(records.deep_view(), pattern.deep_view(), at),
{
    match best_position(records, pattern) {
        Some(at) => {
            proof {
                lemma_best_match_is_unique(
                    records.deep_view(),
                    pattern.deep_view(),
                    at as int,
                    at as int,
                );
                assert(records.deep_view()[at as int] == records@[at as int]@);
            }
            Some(records[at].full_url.clone())
        },
        None => None,
    }
}

} // verus!
