//! How the segments of a record are written as one text, for a store that
//! keeps them in one column.

use crate::matcher::Segments;
use crate::text::{
    lemma_split_on_nonempty, lemma_split_on_parts_are_plain, lemma_split_on_plain_tail, split_on,
    split_text,
};
use vstd::prelude::*;
use vstd::string::StringExecFns;

verus! {

/// The segments written as one text: a `/` between each two.
pub open spec fn joined(segments: Segments) -> Seq<char>
    decreases segments.len(),
{
    if segments.len() == 0 {
        Seq::empty()
    } else if segments.len() == 1 {
        segments[0]
    } else {
        joined(segments.drop_last()) + seq!['/'] + segments.last()
    }
}

/// The segments that a text holds: what stands between its `/`, but for
/// what is empty.
pub open spec fn parts_of(text: Seq<char>) -> Segments {
    split_on(text, '/').filter(|part: Seq<char>| part.len() > 0)
}

/// The segments can be written and read back: none is empty and none
/// holds a `/`.
pub open spec fn is_writable(segments: Segments) -> bool {
    forall|at: int|
        0 <= at < segments.len() ==> (#[trigger] segments[at]).len() > 0 && !segments[at].contains(
            '/',
        )
}

/// Filtering keeps a sequence whose elements all pass.
proof fn lemma_filter_keeps_all(parts: Segments)
    requires
        forall|at: int| 0 <= at < parts.len() ==> (#[trigger] parts[at]).len() > 0,
    ensures
        parts.filter(|part: Seq<char>| part.len() > 0) == parts,
    decreases parts.len(),
{
    reveal(Seq::filter);
    if parts.len() > 0 {
        lemma_filter_keeps_all(parts.drop_last());
        assert(parts.drop_last().push(parts.last()) =~= parts);
    }
}

/// Segments without a `/`, at least one of them, are what their text
/// splits into.
proof fn lemma_joined_splits_back(segments: Segments)
    requires
        segments.len() >= 1,
        forall|at: int| 0 <= at < segments.len() ==> !(#[trigger] segments[at]).contains('/'),
    ensures
        split_on(joined(segments), '/') == segments,
    decreases segments.len(),
{
    let none = Seq::<char>::empty();
    if segments.len() == 1 {
        lemma_split_on_plain_tail(none, segments[0], '/');
        assert(none + segments[0] =~= segments[0]);
        assert(split_on(none, '/') =~= seq![none]);
        assert(seq![none].drop_last().push(none + segments[0]) =~= segments);
    } else {
        let front = segments.drop_last();
        lemma_joined_splits_back(front);
        let marked = joined(front) + seq!['/'];
        assert(marked.drop_last() =~= joined(front));
        assert(split_on(marked, '/') == front.push(none));
        lemma_split_on_plain_tail(marked, segments.last(), '/');
        assert(front.push(none).drop_last().push(none + segments.last()) =~= segments);
    }
}

/// What was written is read back: the segments of the text of writable
/// segments are those segments.
pub proof fn lemma_written_segments_read_back(segments: Segments)
    requires
        is_writable(segments),
    ensures
        parts_of(joined(segments)) == segments,
{
    if segments.len() == 0 {
        reveal(Seq::filter);
        let parts = split_on(joined(segments), '/');
        assert(parts =~= seq![Seq::<char>::empty()]);
        assert(parts.drop_last().filter(|part: Seq<char>| part.len() > 0) =~= Seq::<
            Seq<char>,
        >::empty());
        assert(parts_of(joined(segments)) =~= segments);
    } else {
        lemma_joined_splits_back(segments);
        lemma_filter_keeps_all(segments);
    }
}

/// What is read can be written: the segments of any text are writable.
pub proof fn lemma_read_segments_are_writable(text: Seq<char>)
    ensures
        is_writable(parts_of(text)),
{
    let parts = split_on(text, '/');
    let kept = parts_of(text);
    let nonempty = |part: Seq<char>| part.len() > 0;
    lemma_split_on_parts_are_plain(text, '/');
    assert forall|at: int| 0 <= at < kept.len() implies (#[trigger] kept[at]).len() > 0
        && !kept[at].contains('/') by {
        parts.lemma_filter_pred(nonempty, at);
        assert(kept.contains(kept[at]));
        parts.lemma_filter_contains_rev(nonempty, kept[at]);
        let source = choose|source: int| 0 <= source < parts.len() && parts[source] == kept[at];
        assert(!parts[source].contains('/'));
    }
}

/// Writes the segments as one text. Writable segments are read back from
/// it by [`segments_from_text`].
pub fn segments_to_text(segments: &[String]) -> (text: String)
    ensures
        text@ == joined(segments.deep_view()),
        is_writable(segments.deep_view()) ==> parts_of(text@) == segments.deep_view(),
{
    let ghost all = segments.deep_view();
    let count: usize = segments.len();
    let mut text = String::new();
    let mut at: usize = 0;
    proof {
        reveal_strlit("/");
        assert("/"@ =~= seq!['/']);
    }
    while at < count
        invariant
            all == segments.deep_view(),
            count == segments@.len(),
            at <= count,
            "/"@ == seq!['/'],
            text@ == joined(all.take(at as int)),
        decreases count - at,
    {
        let ghost before = text@;
        proof {
            assert(all.take(at + 1).drop_last() =~= all.take(at as int));
            assert(all.take(at + 1).last() == segments@[at as int]@);
        }
        if at > 0 {
            text.append("/");
        }
        text.append(segments[at].as_str());
        proof {
            if at == 0 {
                assert(before =~= Seq::<char>::empty());
                assert(text@ =~= all.take(1)[0]);
            }
        }
        at += 1;
    }
    proof {
        assert(all.take(at as int) =~= all);
        if is_writable(all) {
            lemma_written_segments_read_back(all);
        }
    }
    text
}

/// Reads the segments that a text holds.
pub fn segments_from_text(text: &str) -> (segments: Vec<String>)
    ensures
        segments.deep_view() == parts_of(text@),
        is_writable(segments.deep_view()),
{
    let parts = split_text(text, '/');
    let ghost all = parts.deep_view();
    let count: usize = parts.len();
    let mut segments: Vec<String> = Vec::new();
    let mut at: usize = 0;
    proof {
        reveal(Seq::filter);
        assert(all.take(0) =~= Seq::<Seq<char>>::empty());
        assert(segments.deep_view() =~= all.take(0).filter(|part: Seq<char>| part.len() > 0));
    }
    while at < count
        invariant
            all == parts.deep_view(),
            count == parts@.len(),
            at <= count,
            segments.deep_view() == all.take(at as int).filter(|part: Seq<char>| part.len() > 0),
        decreases count - at,
    {
        let ghost before = segments.deep_view();
        proof {
            reveal(Seq::filter);
            assert(all.take(at + 1).drop_last() =~= all.take(at as int));
            assert(all.take(at + 1).last() == parts@[at as int]@);
        }
        if !parts[at].as_str().is_empty() {
            segments.push(parts[at].clone());
            assert(segments.deep_view() =~= before.push(parts@[at as int]@));
        }
        at += 1;
    }
    proof {
        assert(all.take(at as int) =~= all);
        lemma_read_segments_are_writable(text@);
    }
    segments
}

} // verus!
