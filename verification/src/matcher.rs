//! Anchored subsequence matching of a pattern against path segments.

use vstd::prelude::*;

verus! {

/// A segment sequence as the rules see it: each segment by its characters.
pub type Segments = Seq<Seq<char>>;

/// `at` embeds `pattern` into `segments`: it names one position of
/// `segments` for each element of `pattern`, the positions strictly
/// increase, and each position holds the element it stands for.
pub open spec fn is_embedding(at: Seq<int>, pattern: Segments, segments: Segments) -> bool {
    &&& at.len() == pattern.len()
    &&& forall|i: int|
        0 <= i < at.len() ==> 0 <= #[trigger] at[i] < segments.len() && segments[at[i]]
            == pattern[i]
    &&& forall|i: int, j: int| 0 <= i < j < at.len() ==> #[trigger] at[i] < #[trigger] at[j]
}

/// `pattern` occurs in `segments` in order, not necessarily contiguously.
pub open spec fn is_subsequence(pattern: Segments, segments: Segments) -> bool {
    exists|at: Seq<int>| is_embedding(at, pattern, segments)
}

/// Where both sequences are non-empty, the pattern's first element is the
/// first segment.
pub open spec fn head_anchored(pattern: Segments, segments: Segments) -> bool {
    pattern.len() > 0 && segments.len() > 0 ==> pattern.first() == segments.first()
}

/// Where both sequences are non-empty, the pattern's last element is the
/// last segment.
pub open spec fn tail_anchored(pattern: Segments, segments: Segments) -> bool {
    pattern.len() > 0 && segments.len() > 0 ==> pattern.last() == segments.last()
}

/// The match rule: the empty pattern matches everything; any other pattern
/// matches the segment sequences it is anchored to at both ends and occurs
/// in as an ordered subsequence.
pub open spec fn anchored_match(pattern: Segments, segments: Segments) -> bool {
    pattern.len() == 0 || (head_anchored(pattern, segments) && tail_anchored(pattern, segments)
        && is_subsequence(pattern, segments))
}

/// The empty pattern matches every segment sequence.
pub proof fn lemma_empty_pattern_matches(segments: Segments)
    ensures
        anchored_match(Seq::empty(), segments),
{
}

/// A match pins both ends: where a pattern that is not empty matches
/// segments that are not empty, it begins with the first segment and ends
/// with the last.
pub proof fn lemma_match_is_anchored(pattern: Segments, segments: Segments)
    requires
        anchored_match(pattern, segments),
        pattern.len() > 0,
        segments.len() > 0,
    ensures
        pattern.first() == segments.first(),
        pattern.last() == segments.last(),
{
}

/// Every embedding of a prefix of the pattern ends at or after the place
/// where the leftmost scan has arrived.
spec fn scan_is_leftmost(pattern: Segments, segments: Segments, done: int, next: int) -> bool {
    forall|at: Seq<int>| #[trigger]
        is_embedding(at, pattern.take(done), segments) && done > 0 ==> at[done - 1] + 1 >= next
}

/// An embedding of the first `done + 1` elements, cut by one, embeds the
/// first `done` elements.
proof fn lemma_embedding_prefix(at: Seq<int>, pattern: Segments, segments: Segments, done: int)
    requires
        0 <= done < pattern.len(),
        is_embedding(at, pattern.take(done + 1), segments),
    ensures
        is_embedding(at.take(done), pattern.take(done), segments),
{
    let shorter = at.take(done);
    assert forall|i: int| 0 <= i < shorter.len() implies 0 <= #[trigger] shorter[i]
        < segments.len() && segments[shorter[i]] == pattern.take(done)[i] by {
        assert(shorter[i] == at[i]);
        assert(pattern.take(done + 1)[i] == pattern[i]);
    }
    assert forall|i: int, j: int| 0 <= i < j < shorter.len() implies #[trigger] shorter[i]
        < #[trigger] shorter[j] by {
        assert(shorter[i] == at[i]);
        assert(shorter[j] == at[j]);
    }
}

/// The first place at or after `from` where `segments` holds `wanted`, if
/// there is one.
fn find_from(segments: &[String], from: usize, wanted: &String) -> (found: Option<usize>)
    requires
        from <= segments@.len(),
    ensures
        match found {
            Some(at) => from <= at < segments@.len() && segments@[at as int]@ == wanted@
                && forall|j: int| from <= j < at ==> segments@[j]@ != wanted@,
            None => forall|j: int| from <= j < segments@.len() ==> segments@[j]@ != wanted@,
        },
{
    let mut at: usize = from;
    while at < segments.len()
        invariant
            from <= at <= segments@.len(),
            forall|j: int| from <= j < at ==> segments@[j]@ != wanted@,
        decreases segments@.len() - at,
    {
        if segments[at] == *wanted {
            return Some(at);
        }
        at += 1;
    }
    None
}

/// Decides the match rule for one record's segments and a pattern.
pub fn segments_match_pattern(url_segments: &[String], pattern: &[String]) -> (matched: bool)
    ensures
        matched == anchored_match(pattern.deep_view(), url_segments.deep_view()),
{
    let ghost p = pattern.deep_view();
    let ghost s = url_segments.deep_view();
    if pattern.len() == 0 {
        return true;
    }
    if url_segments.len() > 0 {
        if pattern[0] != url_segments[0] {
            assert(p.first() == pattern@[0]@ && s.first() == url_segments@[0]@);
            return false;
        }
        if pattern[pattern.len() - 1] != url_segments[url_segments.len() - 1] {
            assert(p.last() == pattern@[pattern@.len() - 1]@);
            assert(s.last() == url_segments@[url_segments@.len() - 1]@);
            return false;
        }
        assert(p.first() == pattern@[0]@ && s.first() == url_segments@[0]@);
        assert(p.last() == pattern@[pattern@.len() - 1]@);
        assert(s.last() == url_segments@[url_segments@.len() - 1]@);
    }
    let url_len: usize = url_segments.len();
    let mut url_idx: usize = 0;
    let mut done: usize = 0;
    let ghost mut found_at: Seq<int> = Seq::empty();
    proof {
        assert(is_embedding(found_at, p.take(0), s));
    }
    while done < pattern.len()
        invariant
            p == pattern.deep_view(),
            s == url_segments.deep_view(),
            done <= pattern@.len(),
            url_len == url_segments@.len(),
            url_idx <= url_len,
            is_embedding(found_at, p.take(done as int), s),
            done == 0 ==> url_idx == 0,
            done > 0 ==> found_at[done - 1] + 1 == url_idx,
            scan_is_leftmost(p, s, done as int, url_idx as int),
        decreases pattern@.len() - done,
    {
        let found = find_from(url_segments, url_idx, &pattern[done]);
        match found {
            Some(at) => {
                proof {
                    let longer = found_at.push(at as int);
                    assert(s[at as int] == p[done as int]);
                    assert forall|i: int| 0 <= i < longer.len() implies 0 <= #[trigger] longer[i]
                        < s.len() && s[longer[i]] == p.take(done + 1)[i] by {
                        if i < done {
                            assert(longer[i] == found_at[i]);
                            assert(p.take(done as int)[i] == p.take(done + 1)[i]);
                        }
                    }
                    assert forall|i: int, j: int| 0 <= i < j < longer.len() implies #[trigger] longer[i]
                        < #[trigger] longer[j] by {
                        if j < done {
                            assert(longer[i] == found_at[i] && longer[j] == found_at[j]);
                        } else if done > 0 {
                            assert(longer[i] == found_at[i]);
                            assert(found_at[i] <= found_at[done - 1]);
                        }
                    }
                    assert(is_embedding(longer, p.take(done + 1), s));
                    assert forall|other: Seq<int>| #[trigger]
                        is_embedding(other, p.take(done + 1), s) implies other[done as int] + 1 >= at
                        + 1 by {
                        lemma_embedding_prefix(other, p, s, done as int);
                        let shorter = other.take(done as int);
                        assert(p.take(done + 1)[done as int] == p[done as int]);
                        if done > 0 {
                            assert(shorter[done - 1] == other[done - 1]);
                            assert(other[done - 1] < other[done as int]);
                        }
                        assert(url_idx <= other[done as int]);
                        assert(s[other[done as int]] == url_segments@[other[done as int]]@);
                    }
                    found_at = longer;
                }
                url_idx = at + 1;
                done += 1;
            },
            None => {
                proof {
                    assert forall|other: Seq<int>| !is_embedding(other, p, s) by {
                        if is_embedding(other, p, s) {
                            let cut = other.take(done + 1);
                            assert forall|i: int| 0 <= i < cut.len() implies 0 <= #[trigger] cut[i]
                                < s.len() && s[cut[i]] == p.take(done + 1)[i] by {
                                assert(cut[i] == other[i]);
                            }
                            assert forall|i: int, j: int| 0 <= i < j < cut.len() implies #[trigger] cut[i]
                                < #[trigger] cut[j] by {
                                assert(cut[i] == other[i] && cut[j] == other[j]);
                            }
                            assert(is_embedding(cut, p.take(done + 1), s));
                            lemma_embedding_prefix(cut, p, s, done as int);
                            let shorter = cut.take(done as int);
                            if done > 0 {
                                assert(shorter[done - 1] == other[done - 1]);
                                assert(other[done - 1] < other[done as int]);
                            }
                            assert(url_idx <= other[done as int]);
                            assert(s[other[done as int]] == url_segments@[other[done as int]]@);
                            assert(p[done as int] == pattern@[done as int]@);
                        }
                    }
                }
                return false;
            },
        }
    }
    proof {
        assert(p.take(done as int) == p);
    }
    true
}

} // verus!
