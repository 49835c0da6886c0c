//! The history of visited URLs: what a store of it owes its callers, and
//! a store that keeps the records in memory.

use crate::error::HistoryError;
use crate::matcher::{anchored_match, segments_match_pattern, Segments};
use crate::ranker::{best_match, best_url};
use crate::record::{
    first_visit, later_of, raised, record_is_derived, revisited, VisitRecord, VisitView,
};
use crate::tokenizer::{extract_segments, get_last_segment, tokenized};
use vstd::prelude::*;
use vstd::string::StringExecFns;

verus! {

/// The record at `at` is the one kept for `url`.
pub open spec fn holds_url(records: Seq<VisitView>, at: int, url: Seq<char>) -> bool {
    0 <= at < records.len() && records[at].full_url == url
}

/// The URLs of the records that match `pattern`, in the order of the
/// records.
pub open spec fn matching_urls(records: Seq<VisitView>, pattern: Segments) -> Seq<Seq<char>> {
    records.filter(|record: VisitView| anchored_match(pattern, record.segments)).map_values(
        |record: VisitView| record.full_url,
    )
}

/// The records are in order: each is derived from its URL, no URL has two
/// records, and no identifier is used twice.
pub open spec fn is_consistent(records: Seq<VisitView>) -> bool {
    &&& forall|at: int| 0 <= at < records.len() ==> record_is_derived(#[trigger] records[at])
    &&& forall|first: int, second: int|
        0 <= first < second < records.len() ==> (#[trigger] records[first]).full_url != (
        #[trigger] records[second]).full_url
    &&& forall|first: int, second: int|
        0 <= first < second < records.len() ==> (#[trigger] records[first]).id != (
        #[trigger] records[second]).id
}

/// `after` is `before` with one visit to `url` at `timestamp` recorded:
/// the record of a URL that is known is visited once more, in its place,
/// and keeps the later of its time and `timestamp`;
/// a URL that is new gets a record of its own, behind the others, under an
/// identifier that no other record has.
pub open spec fn visit_recorded(
    before: Seq<VisitView>,
    after: Seq<VisitView>,
    url: Seq<char>,
    timestamp: u64,
) -> bool {
    &&& tokenized(url) is Some
    &&& forall|at: int| #[trigger]
        holds_url(before, at, url) ==> after == before.update(
            at,
            revisited(before[at], timestamp),
        )
    &&& (forall|at: int| !holds_url(before, at, url)) ==> {
        &&& after.len() == before.len() + 1
        &&& after.drop_last() == before
        &&& after.last() == first_visit(after.last().id, url, timestamp)
        &&& forall|at: int| 0 <= at < before.len() ==> (#[trigger] before[at]).id != after.last().id
    }
}

/// Recording a visit keeps the records in order: each URL still has one
/// record, derived from it, under an identifier of its own.
pub proof fn lemma_visit_keeps_consistency(
    before: Seq<VisitView>,
    after: Seq<VisitView>,
    url: Seq<char>,
    timestamp: u64,
)
    requires
        is_consistent(before),
        visit_recorded(before, after, url, timestamp),
    ensures
        is_consistent(after),
{
    if exists|at: int| holds_url(before, at, url) {
        let at = choose|at: int| holds_url(before, at, url);
        assert(holds_url(before, at, url));
        assert forall|other: int| 0 <= other < after.len() implies record_is_derived(
            #[trigger] after[other],
        ) by {
            assert(record_is_derived(before[other]));
        }
        assert forall|first: int, second: int| 0 <= first < second < after.len() implies (
        #[trigger] after[first]).full_url != (#[trigger] after[second]).full_url && after[first].id
            != after[second].id by {
            assert(after[first].full_url == before[first].full_url);
            assert(after[second].full_url == before[second].full_url);
        }
    } else {
        assert forall|other: int| 0 <= other < after.len() implies record_is_derived(
            #[trigger] after[other],
        ) by {
            if other < before.len() {
                assert(after[other] == after.drop_last()[other]);
                assert(record_is_derived(before[other]));
            }
        }
        assert forall|first: int, second: int| 0 <= first < second < after.len() implies (
        #[trigger] after[first]).full_url != (#[trigger] after[second]).full_url && after[first].id
            != after[second].id by {
            assert(after[first] == after.drop_last()[first]);
            if second < before.len() {
                assert(after[second] == after.drop_last()[second]);
            } else {
                assert(!holds_url(before, first, url));
            }
        }
    }
}

/// Recording a visit loses nothing: every record stays in its place with
/// its identifier, URL and segments, no score falls and no time moves
/// back, and only the record of the visited URL can change its time, to
/// that of the visit.
pub proof fn lemma_visit_loses_nothing(
    before: Seq<VisitView>,
    after: Seq<VisitView>,
    url: Seq<char>,
    timestamp: u64,
)
    requires
        visit_recorded(before, after, url, timestamp),
    ensures
        before.len() <= after.len() <= before.len() + 1,
        forall|at: int|
            0 <= at < before.len() ==> {
                &&& (#[trigger] after[at]).id == before[at].id
                &&& after[at].full_url == before[at].full_url
                &&& after[at].segments == before[at].segments
                &&& after[at].last_segment == before[at].last_segment
                &&& after[at].score >= before[at].score
                &&& after[at].last_accessed >= before[at].last_accessed
                &&& after[at].last_accessed == before[at].last_accessed || (after[at].full_url
                    == url && after[at].last_accessed == timestamp)
            },
{
    if exists|at: int| holds_url(before, at, url) {
        let at = choose|at: int| holds_url(before, at, url);
        assert(holds_url(before, at, url));
    } else {
        assert forall|at: int| 0 <= at < before.len() implies (#[trigger] after[at])
            == before[at] by {
            assert(after[at] == after.drop_last()[at]);
        }
    }
}

/// Two visits to one URL: the second adds no record, raises the score of
/// the URL's record (by one, short of the largest number) and leaves its
/// time no earlier than it was and no earlier than the visit; a visit
/// that is not earlier than what the record knows sets the time to its
/// own. In a history that was empty there is then one record, with the
/// score 2.
pub proof fn lemma_repeated_visit(
    first: Seq<VisitView>,
    second: Seq<VisitView>,
    third: Seq<VisitView>,
    url: Seq<char>,
    earlier: u64,
    later: u64,
)
    requires
        visit_recorded(first, second, url, earlier),
        visit_recorded(second, third, url, later),
    ensures
        third.len() == second.len(),
        exists|at: int|
            {
                &&& #[trigger] holds_url(second, at, url)
                &&& holds_url(third, at, url)
                &&& third[at].score == raised(second[at].score)
                &&& second[at].score < u64::MAX ==> third[at].score == second[at].score + 1
                &&& second[at].last_accessed >= earlier
                &&& third[at].last_accessed == later_of(second[at].last_accessed, later)
                &&& third[at].last_accessed >= second[at].last_accessed
                &&& later >= second[at].last_accessed ==> third[at].last_accessed == later
            },
        first.len() == 0 ==> third.len() == 1 && third[0].score == 2 && third[0].last_accessed
            == later_of(earlier, later),
{
    if exists|at: int| holds_url(first, at, url) {
        let at = choose|at: int| holds_url(first, at, url);
        assert(holds_url(first, at, url));
        assert(holds_url(second, at, url));
    } else {
        let at = first.len() as int;
        assert(second[at] == second.last());
        assert(holds_url(second, at, url));
    }
}

/// A store of the history of visited URLs. What a store keeps is its own
/// matter, so the trait states only what holds of every store: which texts
/// are refused as URLs, and that a search fails for no other reason than
/// the storage. [`HistoryStore`] states the rest for itself.
pub trait Database {
    /// Records a visit to `url` at `timestamp`. A text that is no URL is
    /// refused as one, and no text that is a URL is.
    fn add_visit(&mut self, url: &str, timestamp: u64) -> (outcome: Result<(), HistoryError>)
        ensures
            tokenized(url@) is None <==> outcome == Err::<(), HistoryError>(
                HistoryError::ParseFailure,
            ),
    ;

    /// The URLs of the records that match `pattern`.
    fn fuzzy_match(&self, pattern: &[String]) -> (outcome: Result<Vec<String>, HistoryError>)
        ensures
            outcome matches Err(error) ==> error == HistoryError::StorageUnavailable,
    ;

    /// The URL of the best match for `pattern`, or nothing where no record
    /// matches.
    fn get_best_match(&self, pattern: &[String]) -> (outcome: Result<
        Option<String>,
        HistoryError,
    >)
        ensures
            outcome matches Err(error) ==> error == HistoryError::StorageUnavailable,
    ;
}

/// The URLs of those of `records` that match `pattern`, in their order.
pub fn fuzzy_matches(records: &[VisitRecord], pattern: &[String]) -> (urls: Vec<String>)
    ensures
        urls.deep_view() == matching_urls(records.deep_view(), pattern.deep_view()),
{
    let ghost views = records.deep_view();
    let ghost wanted = pattern.deep_view();
    let count: usize = records.len();
    let mut urls: Vec<String> = Vec::new();
    let mut at: usize = 0;
    proof {
        reveal(Seq::filter);
        assert(views.take(0) =~= Seq::<VisitView>::empty());
        assert(urls.deep_view() =~= matching_urls(views.take(0), wanted));
    }
    while at < count
        invariant
            views == records.deep_view(),
            wanted == pattern.deep_view(),
            count == records@.len(),
            at <= count,
            urls.deep_view() == matching_urls(views.take(at as int), wanted),
        decreases count - at,
    {
        let ghost before = urls.deep_view();
        let ghost seen = views.take(at as int);
        let ghost next = views.take(at + 1);
        proof {
            reveal(Seq::filter);
            assert(next.drop_last() =~= seen);
            assert(next.last() == records@[at as int]@);
        }
        if segments_match_pattern(records[at].segments.as_slice(), pattern) {
            urls.push(records[at].full_url.clone());
            proof {
                let kept = seen.filter(
                    |record: VisitView| anchored_match(wanted, record.segments),
                );
                assert(next.filter(|record: VisitView| anchored_match(wanted, record.segments))
                    == kept.push(next.last()));
                assert(urls.deep_view() =~= before.push(next.last().full_url));
                assert(matching_urls(next, wanted) =~= matching_urls(seen, wanted).push(
                    next.last().full_url,
                ));
            }
        }
        at += 1;
    }
    proof {
        assert(views.take(at as int) =~= views);
    }
    urls
}

/// A history kept in memory.
pub struct HistoryStore {
    records: Vec<VisitRecord>,
}

impl HistoryStore {
    /// The records are consistent, and each has its place as identifier.
    #[verifier::type_invariant]
    spec fn well_kept(self) -> bool {
        &&& is_consistent(self.records.deep_view())
        &&& forall|at: int|
            0 <= at < self.records@.len() ==> (#[trigger] self.records@[at]).id == at
    }

    /// The records, in the order in which they were made.
    pub closed spec fn records(&self) -> Seq<VisitView> {
        self.records.deep_view()
    }

    /// A history without records.
    pub fn new() -> (store: HistoryStore)
        ensures
            store.records() == Seq::<VisitView>::empty(),
    {
        let store = HistoryStore { records: Vec::new() };
        assert(store.records.deep_view() =~= Seq::<VisitView>::empty());
        store
    }

    /// The number of records.
    pub fn len(&self) -> (count: usize)
        ensures
            count == self.records().len(),
    {
        self.records.len()
    }

    /// The records, to read.
    pub fn entries(&self) -> (records: &[VisitRecord])
        ensures
            records.deep_view() == self.records(),
            is_consistent(self.records()),
    {
        proof {
            use_type_invariant(self);
        }
        let records = self.records.as_slice();
        assert(records.deep_view() =~= self.records.deep_view());
        records
    }

    /// Takes the records out, to change them; the store is empty until
    /// they are put back.
    fn take_records(&mut self) -> (records: Vec<VisitRecord>)
        ensures
            records.deep_view() == old(self).records(),
            is_consistent(records.deep_view()),
            forall|at: int| 0 <= at < records@.len() ==> (#[trigger] records@[at]).id == at,
            final(self).records() == Seq::<VisitView>::empty(),
    {
        proof {
            use_type_invariant(&*self);
        }
        let mut taken = HistoryStore::new();
        std::mem::swap(self, &mut taken);
        taken.records
    }

    /// Where the record of `url` stands, if there is one.
    fn position_of(&self, url: &String) -> (found: Option<usize>)
        ensures
            match found {
                Some(at) => holds_url(self.records(), at as int, url@),
                None => forall|at: int| !holds_url(self.records(), at, url@),
            },
    {
        let count: usize = self.records.len();
        let mut at: usize = 0;
        while at < count
            invariant
                count == self.records@.len(),
                at <= count,
                forall|seen: int| 0 <= seen < at ==> self.records@[seen].full_url@ != url@,
            decreases count - at,
        {
            if self.records[at].full_url == *url {
                return Some(at);
            }
            at += 1;
        }
        None
    }
}

impl Database for HistoryStore {
    /// Records the visit: the record of a known URL is visited once more
    /// and keeps the later of its time and `timestamp`, a new URL gets a
    /// record with its place as identifier. In memory
    /// nothing but the URL can fail, and a call that fails changes
    /// nothing.
    fn add_visit(&mut self, url: &str, timestamp: u64) -> (outcome: Result<(), HistoryError>)
        ensures
            tokenized(url@) is Some <==> outcome is Ok,
            outcome is Err ==> final(self).records() == old(self).records(),
            outcome is Ok ==> visit_recorded(
                old(self).records(),
                final(self).records(),
                url@,
                timestamp,
            ),
            outcome is Ok && (forall|at: int| !holds_url(old(self).records(), at, url@))
                ==> final(self).records().last().id == old(self).records().len(),
    {
        proof {
            use_type_invariant(&*self);
        }
        let segments = match extract_segments(url) {
            Ok(segments) => segments,
            Err(error) => {
                return Err(error);
            },
        };
        let key = String::from_str(url);
        let ghost before = self.records.deep_view();
        let found = self.position_of(&key);
        let mut records = self.take_records();
        match found {
            Some(at) => {
                let id = records[at].id;
                let score = records[at].score;
                let known = records[at].last_accessed;
                let last_segment = match get_last_segment(segments.as_slice()) {
                    Some(segment) => segment,
                    None => String::new(),
                };
                let record = VisitRecord {
                    id,
                    full_url: key,
                    segments,
                    last_segment,
                    score: if score < u64::MAX {
                        score + 1
                    } else {
                        score
                    },
                    last_accessed: if known >= timestamp {
                        known
                    } else {
                        timestamp
                    },
                };
                assert(record@ == revisited(before[at as int], timestamp));
                records.set(at, record);
                proof {
                    let after = records.deep_view();
                    assert(after =~= before.update(
                        at as int,
                        revisited(before[at as int], timestamp),
                    ));
                    assert forall|other: int| #[trigger]
                        holds_url(before, other, url@) implies after == before.update(
                        other,
                        revisited(before[other], timestamp),
                    ) by {
                        assert(other == at);
                    }
                }
            },
            None => {
                let count: usize = records.len();
                let last_segment = match get_last_segment(segments.as_slice()) {
                    Some(segment) => segment,
                    None => String::new(),
                };
                let record = VisitRecord {
                    id: count as u64,
                    full_url: key,
                    segments,
                    last_segment,
                    score: 1,
                    last_accessed: timestamp,
                };
                assert(record@ == first_visit(count as u64, url@, timestamp));
                records.push(record);
                proof {
                    let after = records.deep_view();
                    assert(after =~= before.push(first_visit(count as u64, url@, timestamp)));
                    assert(after.drop_last() =~= before);
                    assert forall|first: int, second: int|
                        0 <= first < second < after.len() implies (#[trigger] after[first]).full_url
                        != (#[trigger] after[second]).full_url by {
                        if second == before.len() {
                            assert(!holds_url(before, first, url@));
                        } else {
                            assert(after[first] == before[first]);
                            assert(after[second] == before[second]);
                        }
                    }
                }
            },
        }
        self.records = records;
        Ok(())
    }

    /// The URLs of the matching records, in the order of the records. In
    /// memory the search cannot fail.
    fn fuzzy_match(&self, pattern: &[String]) -> (outcome: Result<Vec<String>, HistoryError>)
        ensures
            outcome matches Ok(urls) && urls.deep_view() == matching_urls(
                self.records(),
                pattern.deep_view(),
            ),
    {
        let records = self.records.as_slice();
        assert(records.deep_view() =~= self.records.deep_view());
        Ok(fuzzy_matches(records, pattern))
    }

    /// The URL of the best match among the records. In memory the search
    /// cannot fail.
    fn get_best_match(&self, pattern: &[String]) -> (outcome: Result<
        Option<String>,
        HistoryError,
    >)
        ensures
            outcome matches Ok(best) && match best {
                Some(url) => best_url(self.records(), pattern.deep_view()) == Some(url@),
                None => best_url(self.records(), pattern.deep_view()) is None,
            },
    {
        let records = self.records.as_slice();
        assert(records.deep_view() =~= self.records.deep_view());
        Ok(best_match(records, pattern))
    }
}

} // verus!
