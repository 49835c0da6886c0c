//! Plain-text helpers over the characters of a string.

use vstd::prelude::*;

verus! {

/// `needle` stands in `text` from position `at` on.
pub open spec fn occurs_at(text: Seq<char>, needle: Seq<char>, at: int) -> bool {
    0 <= at && at + needle.len() <= text.len() && text.subrange(at, at + needle.len()) == needle
}

/// `needle` occurs in `text` as a contiguous run of characters.
pub open spec fn has_substring(text: Seq<char>, needle: Seq<char>) -> bool {
    exists|at: int| occurs_at(text, needle, at)
}

/// The components of `text` between occurrences of `separator`, empty ones
/// included: a separator opens a new component, any other character
/// extends the last one. There is always at least one component.
pub open spec fn split_on(text: Seq<char>, separator: char) -> Seq<Seq<char>>
    decreases text.len(),
{
    if text.len() == 0 {
        seq![Seq::<char>::empty()]
    } else {
        let before = split_on(text.drop_last(), separator);
        if text.last() == separator {
            before.push(Seq::<char>::empty())
        } else {
            before.drop_last().push(before.last().push(text.last()))
        }
    }
}

/// Splitting always yields at least one component.
pub proof fn lemma_split_on_nonempty(text: Seq<char>, separator: char)
    ensures
        split_on(text, separator).len() >= 1,
    decreases text.len(),
{
    if text.len() > 0 {
        lemma_split_on_nonempty(text.drop_last(), separator);
    }
}

/// No component holds the separator.
pub proof fn lemma_split_on_parts_are_plain(text: Seq<char>, separator: char)
    ensures
        forall|at: int|
            0 <= at < split_on(text, separator).len() ==> !(#[trigger] split_on(
                text,
                separator,
            )[at]).contains(separator),
    decreases text.len(),
{
    if text.len() > 0 {
        let before = split_on(text.drop_last(), separator);
        lemma_split_on_nonempty(text.drop_last(), separator);
        lemma_split_on_parts_are_plain(text.drop_last(), separator);
        assert forall|at: int| 0 <= at < split_on(text, separator).len() implies !(
        #[trigger] split_on(text, separator)[at]).contains(separator) by {
            let part = split_on(text, separator)[at];
            if at < before.len() - 1 {
                assert(part == before[at]);
            } else if text.last() != separator {
                assert(part == before.last().push(text.last()));
                assert forall|i: int| 0 <= i < part.len() implies part[i] != separator by {
                    if i < before.last().len() {
                        assert(before.last().contains(before.last()[i]));
                    }
                }
            } else if at == before.len() - 1 {
                assert(part == before[at]);
            }
        }
    }
}

/// Text without the separator, put behind a text, extends its last
/// component.
pub proof fn lemma_split_on_plain_tail(text: Seq<char>, tail: Seq<char>, separator: char)
    requires
        !tail.contains(separator),
    ensures
        split_on(text + tail, separator) == split_on(text, separator).drop_last().push(
            split_on(text, separator).last() + tail,
        ),
    decreases tail.len(),
{
    let parts = split_on(text, separator);
    lemma_split_on_nonempty(text, separator);
    if tail.len() == 0 {
        assert(text + tail =~= text);
        assert(parts.last() + tail =~= parts.last());
        assert(parts.drop_last().push(parts.last()) =~= parts);
    } else {
        let shorter = tail.drop_last();
        assert(tail.contains(tail.last()));
        assert forall|i: int| 0 <= i < shorter.len() implies shorter[i] != separator by {
            assert(tail.contains(tail[i]));
        }
        lemma_split_on_plain_tail(text, shorter, separator);
        assert((text + tail).drop_last() =~= text + shorter);
        assert((text + tail).last() == tail.last());
        assert((parts.last() + shorter).push(tail.last()) =~= parts.last() + tail);
    }
}

/// The lowercase form of a text: what `str::to_lowercase` returns for it.
pub uninterp spec fn lowercase(text: Seq<char>) -> Seq<char>;

/// `str::to_lowercase` of the standard library. Lowercasing follows the
/// Unicode tables and nothing else, so the result is a function of the
/// characters of the text: the contract gives it the name [`lowercase`]
/// and claims no more.
pub assume_specification[ str::to_lowercase ](text: &str) -> (lowered: String)
    ensures
        lowered@ == lowercase(text@),
;

/// The characters of `text`, one by one.
pub fn chars_of(text: &str) -> (chars: Vec<char>)
    ensures
        chars@ == text@,
{
    let count = text.unicode_len();
    let mut chars: Vec<char> = Vec::new();
    let mut at: usize = 0;
    while at < count
        invariant
            count == text@.len(),
            at <= count,
            chars@ == text@.take(at as int),
        decreases count - at,
    {
        chars.push(text.get_char(at));
        at += 1;
    }
    chars
}

/// Whether `wanted` is one of the characters of `text`.
pub fn contains_char(text: &str, wanted: char) -> (found: bool)
    ensures
        found == text@.contains(wanted),
{
    let chars = chars_of(text);
    let mut at: usize = 0;
    while at < chars.len()
        invariant
            chars@ == text@,
            at <= chars@.len(),
            forall|j: int| 0 <= j < at ==> chars@[j] != wanted,
        decreases chars@.len() - at,
    {
        if chars[at] == wanted {
            return true;
        }
        at += 1;
    }
    false
}

/// Whether `needle` occurs in `text`.
pub fn contains_text(text: &str, needle: &str) -> (found: bool)
    ensures
        found == has_substring(text@, needle@),
{
    let chars = chars_of(text);
    let wanted = chars_of(needle);
    let text_len: usize = chars.len();
    let needle_len: usize = wanted.len();
    if needle_len == 0 {
        assert(text@.subrange(0, 0) =~= needle@);
        assert(occurs_at(text@, needle@, 0));
        return true;
    }
    if needle_len > text_len {
        return false;
    }
    let starts: usize = text_len - needle_len + 1;
    let mut at: usize = 0;
    while at < starts
        invariant
            chars@ == text@,
            wanted@ == needle@,
            text_len == chars@.len(),
            needle_len == wanted@.len(),
            starts + needle_len == text_len + 1,
            at <= starts,
            forall|j: int| 0 <= j < at ==> !occurs_at(text@, needle@, j),
        decreases starts - at,
    {
        let mut same: usize = 0;
        while same < needle_len && chars[at + same] == wanted[same]
            invariant
                text_len == chars@.len(),
                needle_len == wanted@.len(),
                at + needle_len <= text_len,
                same <= needle_len,
                forall|k: int| 0 <= k < same ==> chars@[at + k] == wanted@[k],
            decreases needle_len - same,
        {
            same += 1;
        }
        if same == needle_len {
            assert(text@.subrange(at as int, at + needle@.len()) =~= needle@);
            assert(occurs_at(text@, needle@, at as int));
            return true;
        }
        assert(text@.subrange(at as int, at + needle@.len())[same as int] != needle@[same as int]);
        at += 1;
    }
    false
}

/// Splits `text` at each occurrence of `separator`, keeping empty
/// components.
pub fn split_text(text: &str, separator: char) -> (parts: Vec<String>)
    ensures
        parts.deep_view() == split_on(text@, separator),
{
    let chars = chars_of(text);
    let text_len: usize = chars.len();
    let mut parts: Vec<String> = Vec::new();
    let mut start: usize = 0;
    let mut at: usize = 0;
    proof {
        assert(parts.deep_view() =~= Seq::<Seq<char>>::empty());
        assert(text@.subrange(0, 0) =~= Seq::<char>::empty());
        assert(split_on(text@.take(0), separator) =~= seq![Seq::<char>::empty()]);
    }
    while at < text_len
        invariant
            chars@ == text@,
            text_len == chars@.len(),
            start <= at <= text_len,
            split_on(text@.take(at as int), separator) == parts.deep_view().push(
                text@.subrange(start as int, at as int),
            ),
        decreases text_len - at,
    {
        proof {
            assert(text@.take(at + 1).drop_last() == text@.take(at as int));
            assert(text@.take(at + 1).last() == text@[at as int]);
        }
        if chars[at] == separator {
            let part = text.substring_char(start, at).to_owned();
            let ghost before = parts.deep_view();
            parts.push(part);
            assert(parts.deep_view() == before.push(text@.subrange(start as int, at as int)));
            start = at + 1;
            assert(text@.subrange(start as int, at + 1) == Seq::<char>::empty());
        } else {
            assert(text@.subrange(start as int, at as int).push(text@[at as int])
                == text@.subrange(start as int, at + 1));
            assert(parts.deep_view().push(text@.subrange(start as int, at as int)).drop_last()
                == parts.deep_view());
        }
        at += 1;
    }
    let part = text.substring_char(start, at).to_owned();
    let ghost before = parts.deep_view();
    parts.push(part);
    proof {
        assert(parts.deep_view() == before.push(text@.subrange(start as int, at as int)));
        assert(text@.take(at as int) == text@);
    }
    parts
}

} // verus!
