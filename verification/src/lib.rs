//! An in-memory, label-indexed time-series store with a selector query engine.
//!
//! The crate provides:
//! - a data model of labels, samples and time series with a sortedness
//!   invariant on samples;
//! - an in-memory storage engine keyed by a content fingerprint of each
//!   series' label set, with a secondary label index for metadata queries;
//! - a closed set of label matchers (equal, not-equal, regex, not-regex);
//! - a hand-written parser for the restricted selector grammar
//!   `metric{label="value",...}` and a query engine that projects matched
//!   series down to a time range;
//! - a resolver for relative time expressions such as `now-15m`;
//! - a fixture book that matches request shapes against canned responses.

pub mod api;
pub mod fixtures;
pub mod matchers;
pub mod query_engine;
pub mod storage;
pub mod strutil;
pub mod timeutil;

pub use fixtures::FixtureBook;
pub use query_engine::SimpleQueryEngine;
pub use matchers::{EqualMatcher, LabelMatcher, NotEqualMatcher, NotRegexMatcher, RegexMatcher};
pub use storage::{Label, MemoryStorage, Sample, Storage, TimeSeries};
