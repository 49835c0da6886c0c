//! Resolution of short, possibly incomplete addresses: a classifier that
//! tells complete URLs from fuzzy navigation patterns, and a history of
//! visited URLs that is searched by anchored subsequence matching over
//! path segments and ranked by visit count and recency.

pub mod classify;
pub mod database;
pub mod error;
pub mod matcher;
pub mod navigator;
pub mod ranker;
pub mod record;
pub mod stored;
pub mod text;
pub mod tokenizer;
pub mod weburl;

pub use classify::{classify_input, InputType};
pub use database::{Database, HistoryStore};
pub use error::HistoryError;
pub use matcher::segments_match_pattern;
pub use navigator::{App, AppBuilder, OpenError, OpenStep, ZurlConfig};
pub use record::VisitRecord;
pub use tokenizer::{extract_segments, get_last_segment};
pub use weburl::ParsedUrl;
