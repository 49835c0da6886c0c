use zurl::database::fuzzy_matches;
use zurl::ranker::{best_match, comes_before, is_preferred};
use zurl::{
    App, Database, HistoryError, HistoryStore, OpenError, OpenStep, VisitRecord, ZurlConfig,
};

const BLOG: &str = "https://example.com/blog/posts/hello";
const DOCS: &str = "https://example.com/docs/api/reference";

fn words(items: &[&str]) -> Vec<String> {
    items.iter().map(|item| item.to_string()).collect()
}

fn record(url: &str, segments: &[&str], score: u64, last_accessed: u64) -> VisitRecord {
    VisitRecord {
        id: 0,
        full_url: url.to_string(),
        segments: words(segments),
        last_segment: segments.last().map(|last| last.to_string()).unwrap_or_default(),
        score,
        last_accessed,
    }
}

fn two_urls() -> HistoryStore {
    let mut store = HistoryStore::new();
    store.add_visit(BLOG, 100).unwrap();
    store.add_visit(DOCS, 200).unwrap();
    store
}

#[test]
fn new_store_is_empty() {
    let store = HistoryStore::new();
    assert_eq!(store.len(), 0);
    assert!(store.entries().is_empty());
    assert_eq!(store.fuzzy_match(&[]), Ok(Vec::new()));
    assert_eq!(store.get_best_match(&[]), Ok(None));
}

#[test]
fn first_visit_makes_a_record() {
    let mut store = HistoryStore::new();
    assert_eq!(store.add_visit("https://example.com/Blog/Posts/", 7), Ok(()));
    assert_eq!(
        store.entries(),
        &[VisitRecord {
            id: 0,
            full_url: "https://example.com/Blog/Posts/".to_string(),
            segments: words(&["blog", "posts"]),
            last_segment: "posts".to_string(),
            score: 1,
            last_accessed: 7,
        }]
    );
}

#[test]
fn record_without_segments_has_an_empty_last_segment() {
    let mut store = HistoryStore::new();
    store.add_visit("https://example.com", 1).unwrap();
    assert_eq!(store.entries()[0].segments, Vec::<String>::new());
    assert_eq!(store.entries()[0].last_segment, "");
}

#[test]
fn second_visit_updates_the_record() {
    let mut store = HistoryStore::new();
    store.add_visit(BLOG, 100).unwrap();
    store.add_visit(BLOG, 250).unwrap();
    assert_eq!(store.len(), 1);
    let kept = &store.entries()[0];
    assert_eq!(kept.id, 0);
    assert_eq!(kept.full_url, BLOG);
    assert_eq!(kept.segments, words(&["blog", "posts", "hello"]));
    assert_eq!(kept.last_segment, "hello");
    assert_eq!(kept.score, 2);
    assert_eq!(kept.last_accessed, 250);
}

#[test]
fn earlier_visit_does_not_move_the_time_back() {
    let mut store = HistoryStore::new();
    store.add_visit(BLOG, 100).unwrap();
    store.add_visit(BLOG, 50).unwrap();
    assert_eq!(store.len(), 1);
    assert_eq!(store.entries()[0].score, 2);
    assert_eq!(store.entries()[0].last_accessed, 100);
    store.add_visit(BLOG, 100).unwrap();
    assert_eq!(store.entries()[0].score, 3);
    assert_eq!(store.entries()[0].last_accessed, 100);
    store.add_visit(BLOG, 101).unwrap();
    assert_eq!(store.entries()[0].score, 4);
    assert_eq!(store.entries()[0].last_accessed, 101);
}

#[test]
fn visits_to_other_urls_leave_a_record_alone() {
    let mut store = two_urls();
    store.add_visit(DOCS, 300).unwrap();
    store.add_visit(DOCS, 400).unwrap();
    assert_eq!(store.len(), 2);
    assert_eq!(store.entries()[0].id, 0);
    assert_eq!(store.entries()[0].score, 1);
    assert_eq!(store.entries()[0].last_accessed, 100);
    assert_eq!(store.entries()[1].id, 1);
    assert_eq!(store.entries()[1].score, 3);
    assert_eq!(store.entries()[1].last_accessed, 400);
}

#[test]
fn unparsable_visit_fails_and_changes_nothing() {
    let mut store = two_urls();
    let before = store.entries().to_vec();
    assert_eq!(store.add_visit("docs/api", 500), Err(HistoryError::ParseFailure));
    assert_eq!(store.entries(), before.as_slice());
}

#[test]
fn urls_are_kept_as_given() {
    let mut store = HistoryStore::new();
    store.add_visit("https://example.com/a", 1).unwrap();
    store.add_visit("https://example.com/a/", 2).unwrap();
    store.add_visit("https://EXAMPLE.com/a", 3).unwrap();
    assert_eq!(store.len(), 3);
}

#[test]
fn patterns_pick_their_record() {
    let store = two_urls();
    assert_eq!(
        store.fuzzy_match(&words(&["blog", "hello"])),
        Ok(vec![BLOG.to_string()])
    );
    assert_eq!(
        store.fuzzy_match(&words(&["docs", "reference"])),
        Ok(vec![DOCS.to_string()])
    );
    assert_eq!(store.fuzzy_match(&words(&["api"])), Ok(Vec::new()));
    assert_eq!(store.get_best_match(&words(&["api"])), Ok(None));
    assert_eq!(
        store.get_best_match(&words(&["blog", "hello"])),
        Ok(Some(BLOG.to_string()))
    );
}

#[test]
fn empty_pattern_matches_all_records() {
    let store = two_urls();
    assert_eq!(
        store.fuzzy_match(&[]),
        Ok(vec![BLOG.to_string(), DOCS.to_string()])
    );
}

#[test]
fn fuzzy_match_reads_only() {
    let store = two_urls();
    let before = store.entries().to_vec();
    store.fuzzy_match(&words(&["blog", "hello"])).unwrap();
    store.get_best_match(&words(&["blog", "hello"])).unwrap();
    assert_eq!(store.entries(), before.as_slice());
}

#[test]
fn later_visit_wins_a_tie_on_score() {
    let mut store = HistoryStore::new();
    store.add_visit("https://a.example/docs", 100).unwrap();
    store.add_visit("https://b.example/docs", 200).unwrap();
    assert_eq!(store.entries()[0].score, store.entries()[1].score);
    assert_eq!(
        store.get_best_match(&words(&["docs"])),
        Ok(Some("https://b.example/docs".to_string()))
    );
    let records = [
        record("https://a.example/docs", &["docs"], 1, 100),
        record("https://b.example/docs", &["docs"], 1, 200),
    ];
    assert_eq!(
        best_match(&records, &words(&["docs"])),
        Some("https://b.example/docs".to_string())
    );
    let turned = [records[1].clone(), records[0].clone()];
    assert_eq!(
        best_match(&turned, &words(&["docs"])),
        Some("https://b.example/docs".to_string())
    );
}

#[test]
fn higher_score_wins_over_a_later_visit() {
    let mut store = HistoryStore::new();
    store.add_visit("https://one.example/docs", 100).unwrap();
    store.add_visit("https://one.example/docs", 110).unwrap();
    store.add_visit("https://two.example/docs", 900).unwrap();
    assert_eq!(
        store.get_best_match(&words(&["docs"])),
        Ok(Some("https://one.example/docs".to_string()))
    );
}

#[test]
fn smaller_url_wins_a_full_tie() {
    let records = [
        record("https://b.example/docs", &["docs"], 2, 50),
        record("https://a.example/docs", &["docs"], 2, 50),
        record("https://c.example/docs", &["docs"], 2, 50),
    ];
    assert_eq!(
        best_match(&records, &words(&["docs"])),
        Some("https://a.example/docs".to_string())
    );
}

#[test]
fn best_match_is_the_same_each_time() {
    let store = two_urls();
    let first = store.get_best_match(&[]);
    let second = store.get_best_match(&[]);
    assert_eq!(first, second);
    assert_eq!(first, Ok(Some(DOCS.to_string())));
}

#[test]
fn best_match_looks_at_matching_records_only() {
    let records = [
        record("https://x.example/a/b", &["a", "b"], 9, 900),
        record("https://x.example/a", &["a"], 1, 1),
    ];
    assert_eq!(
        best_match(&records, &words(&["a"])),
        Some("https://x.example/a".to_string())
    );
    assert_eq!(best_match(&records, &words(&["b"])), None);
    assert_eq!(best_match(&[], &[]), None);
}

#[test]
fn matches_come_in_the_order_of_the_records() {
    let records = [
        record("https://x.example/a/b", &["a", "b"], 1, 1),
        record("https://x.example/c", &["c"], 1, 1),
        record("https://y.example/a/z/b", &["a", "z", "b"], 1, 1),
    ];
    assert_eq!(
        fuzzy_matches(&records, &words(&["a", "b"])),
        words(&["https://x.example/a/b", "https://y.example/a/z/b"])
    );
}

#[test]
fn order_of_texts() {
    assert!(comes_before("a", "b"));
    assert!(!comes_before("b", "a"));
    assert!(!comes_before("a", "a"));
    assert!(comes_before("", "a"));
    assert!(!comes_before("a", ""));
    assert!(!comes_before("", ""));
    assert!(comes_before("ab", "abc"));
    assert!(!comes_before("abc", "ab"));
    assert!(comes_before("Z", "a"));
    assert!(comes_before("z", "é"));
    assert!(comes_before("é", "€"));
    assert_eq!(comes_before("abd", "abce"), "abd" < "abce");
}

#[test]
fn order_of_records() {
    let low = record("https://a.example/", &[], 1, 900);
    let high = record("https://b.example/", &[], 2, 100);
    assert!(is_preferred(&high, &low));
    assert!(!is_preferred(&low, &high));
    let old = record("https://a.example/", &[], 2, 99);
    assert!(is_preferred(&high, &old));
    assert!(!is_preferred(&old, &high));
    let same = record("https://a.example/", &[], 2, 100);
    assert!(is_preferred(&same, &high));
    assert!(!is_preferred(&high, &same));
    assert!(!is_preferred(&high, &high));
}

struct Unavailable;

impl Database for Unavailable {
    fn add_visit(&mut self, url: &str, _timestamp: u64) -> Result<(), HistoryError> {
        zurl::extract_segments(url)?;
        Err(HistoryError::StorageUnavailable)
    }

    fn fuzzy_match(&self, _pattern: &[String]) -> Result<Vec<String>, HistoryError> {
        Err(HistoryError::StorageUnavailable)
    }

    fn get_best_match(&self, _pattern: &[String]) -> Result<Option<String>, HistoryError> {
        Err(HistoryError::StorageUnavailable)
    }
}

#[test]
fn full_url_is_launched_as_it_is() {
    let app = App::new();
    assert_eq!(
        app.handle_open(&HistoryStore::new(), "example.com/a"),
        Ok(OpenStep::Launch { url: "https://example.com/a".to_string(), browser: None })
    );
    assert_eq!(
        app.handle_open(&Unavailable, "https://example.com/a"),
        Ok(OpenStep::Launch { url: "https://example.com/a".to_string(), browser: None })
    );
}

#[test]
fn pattern_is_resolved_against_the_history() {
    let app = App::new();
    let store = two_urls();
    assert_eq!(
        app.handle_open(&store, "Blog/hello"),
        Ok(OpenStep::Launch { url: BLOG.to_string(), browser: None })
    );
    assert_eq!(app.handle_open(&store, "api"), Ok(OpenStep::NoMatch));
}

#[test]
fn preferred_browser_goes_with_the_url() {
    let config = ZurlConfig { preferred_browser: Some("firefox".to_string()) };
    let app = App::builder().with_config(config).build();
    assert_eq!(app.preferred_browser(), Some("firefox".to_string()));
    assert_eq!(
        app.handle_open(&two_urls(), "docs/reference"),
        Ok(OpenStep::Launch { url: DOCS.to_string(), browser: Some("firefox".to_string()) })
    );
}

#[test]
fn builder_without_config_prefers_no_browser() {
    assert_eq!(App::builder().build().preferred_browser(), None);
    assert_eq!(App::new().preferred_browser(), None);
    let first = ZurlConfig { preferred_browser: Some("firefox".to_string()) };
    let second = ZurlConfig { preferred_browser: None };
    let app = App::builder().with_config(first).with_config(second).build();
    assert_eq!(app.preferred_browser(), None);
}

#[test]
fn empty_address_is_refused() {
    assert_eq!(
        App::new().handle_open(&two_urls(), ""),
        Err(OpenError::EmptyAddress)
    );
}

#[test]
fn answer_of_the_history_decides() {
    let config = ZurlConfig { preferred_browser: Some("lynx".to_string()) };
    let app = App::builder().with_config(config).build();
    assert_eq!(
        app.resolution(Ok(Some("https://example.com/".to_string()))),
        Ok(OpenStep::Launch {
            url: "https://example.com/".to_string(),
            browser: Some("lynx".to_string())
        })
    );
    assert_eq!(app.resolution(Ok(None)), Ok(OpenStep::NoMatch));
    assert_eq!(
        app.resolution(Err(HistoryError::StorageUnavailable)),
        Err(OpenError::History(HistoryError::StorageUnavailable))
    );
}

#[test]
fn failing_store_still_tells_urls_from_other_texts() {
    let mut store = Unavailable;
    assert_eq!(store.add_visit("docs/api", 1), Err(HistoryError::ParseFailure));
    assert_eq!(
        store.add_visit("https://example.com/", 1),
        Err(HistoryError::StorageUnavailable)
    );
    assert_eq!(store.fuzzy_match(&[]), Err(HistoryError::StorageUnavailable));
}

#[test]
fn storage_failure_is_passed_on() {
    assert_eq!(
        App::new().handle_open(&Unavailable, "docs"),
        Err(OpenError::History(HistoryError::StorageUnavailable))
    );
}
