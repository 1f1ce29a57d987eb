use prom_mock::fixtures::{FixtureBook, Matcher, QueryParams, Respond, Route};
use prom_mock::matchers::LabelMatcher;
use prom_mock::query_engine::ParseError;
use prom_mock::storage::Storage;
use prom_mock::timeutil::{resolve_relative, ResolvedParam};
use prom_mock::{
    EqualMatcher, Label, MemoryStorage, Sample, SimpleQueryEngine, TimeSeries,
};

/// 2022-01-01 12:00:00 UTC as Unix seconds.
const FIXED_TIME: i64 = 1641038400;

fn json(text: &str) -> serde_json::Value {
    serde_json::from_str(text).expect("valid JSON")
}

/// Inserting the same series and sample twice yields exactly one sample at
/// that timestamp holding the second value, and the series count stays.
#[test]
fn test_insert_then_requery_idempotent() {
    let mut storage = MemoryStorage::new();

    let mut first = TimeSeries::new(vec![Label::new("__name__", "up"), Label::new("job", "api")]);
    first.add_sample(Sample::new(1000, (1.0f64).to_bits()));
    storage.add_series(first);

    let mut second = TimeSeries::new(vec![Label::new("__name__", "up"), Label::new("job", "api")]);
    second.add_sample(Sample::new(1000, (2.0f64).to_bits()));
    storage.add_series(second);

    let series = storage.query_series(&[]);
    assert_eq!(series.len(), 1); // the count did not grow
    assert_eq!(series[0].samples.len(), 1); // exactly one sample at 1000
    assert_eq!(series[0].samples[0].timestamp, 1000);
    assert_eq!(series[0].samples[0].value, (2.0f64).to_bits()); // last write wins
}

/// Label sets identical in content and order merge into one series.
#[test]
fn test_fingerprint_stability() {
    let labels = vec![Label::new("__name__", "up"), Label::new("job", "api")];
    assert_eq!(
        MemoryStorage::fingerprint(&labels),
        MemoryStorage::fingerprint(&vec![Label::new("__name__", "up"), Label::new("job", "api")])
    );

    let mut storage = MemoryStorage::new();
    let mut ts1 = TimeSeries::new(labels.clone());
    ts1.add_sample(Sample::new(1000, (1.0f64).to_bits()));
    storage.add_series(ts1);

    let mut ts2 = TimeSeries::new(labels);
    ts2.add_sample(Sample::new(2000, (2.0f64).to_bits()));
    storage.add_series(ts2);

    let series = storage.query_series(&[]);
    assert_eq!(series.len(), 1); // merged, never two entries
    assert_eq!(series[0].samples.len(), 2);
}

/// Range ends are inclusive: [t2, t2] returns exactly the middle sample, and
/// [t1, t3] returns all three.
#[test]
fn test_range_inclusivity() {
    let mut ts = TimeSeries::new(vec![Label::new("__name__", "m")]);
    ts.add_sample(Sample::new(100, (1.0f64).to_bits()));
    ts.add_sample(Sample::new(200, (2.0f64).to_bits()));
    ts.add_sample(Sample::new(300, (3.0f64).to_bits()));

    let middle = ts.samples_in_range(200, 200);
    assert_eq!(middle.len(), 1);
    assert_eq!(middle[0].timestamp, 200);

    let all = ts.samples_in_range(100, 300);
    assert_eq!(all.len(), 3);
}

/// An empty matcher list returns every series; contradictory equality
/// matchers on one name exclude series whose only value for that name is one.
#[test]
fn test_matcher_and_semantics() {
    let mut storage = MemoryStorage::new();
    storage.add_series(TimeSeries::new(vec![Label::new("a", "b")]));
    storage.add_series(TimeSeries::new(vec![Label::new("a", "c")]));

    let everything = storage.query_series(&[]);
    assert_eq!(everything.len(), 2);

    let contradictory = [
        LabelMatcher::Equal(EqualMatcher::new("a", "b")),
        LabelMatcher::Equal(EqualMatcher::new("a", "c")),
    ];
    let none = storage.query_series(&contradictory);
    assert_eq!(none.len(), 0);

    // With two occurrences of the name, the "any occurrence" semantics lets
    // both equality matchers hold at once.
    let mut storage = MemoryStorage::new();
    storage.add_series(TimeSeries::new(vec![Label::new("a", "b"), Label::new("a", "c")]));
    let contradictory = [
        LabelMatcher::Equal(EqualMatcher::new("a", "b")),
        LabelMatcher::Equal(EqualMatcher::new("a", "c")),
    ];
    let both = storage.query_series(&contradictory);
    assert_eq!(both.len(), 1);
}

/// The parser round trip: three matchers out of a metric selector, zero out
/// of empty braces, and an error for a missing closing brace.
#[test]
fn test_parser_round_trip() {
    let sel = SimpleQueryEngine::parse_selector(r#"metric{job="api",method!="POST"}"#)
        .expect("valid selector");
    assert_eq!(sel.matchers.len(), 3);
    assert_eq!(sel.matchers[0].label_name(), "__name__");
    assert!(sel.matchers[0].matches(&[Label::new("__name__", "metric")]));
    assert_eq!(sel.matchers[1].label_name(), "job");
    assert!(sel.matchers[1].matches(&[Label::new("job", "api")]));
    assert_eq!(sel.matchers[2].label_name(), "method");
    assert!(sel.matchers[2].matches(&[Label::new("method", "GET")]));
    assert!(!sel.matchers[2].matches(&[Label::new("method", "POST")]));

    let empty = SimpleQueryEngine::parse_selector("{}").expect("valid selector");
    assert_eq!(empty.matchers.len(), 0);

    assert!(SimpleQueryEngine::parse_selector(r#"metric{job="api""#).is_err());
}

/// Each rejection reports its own condition.
#[test]
fn test_parse_error_variants() {
    assert_eq!(
        SimpleQueryEngine::parse_selector(r#"metric{job="api""#).unwrap_err(),
        ParseError::InvalidLabelSyntax
    );
    assert_eq!(
        SimpleQueryEngine::parse_selector(r#"metric{job=api}"#).unwrap_err(),
        ParseError::ExpectedQuotedValue
    );
    assert_eq!(
        SimpleQueryEngine::parse_selector(r#"metric{job}"#).unwrap_err(),
        ParseError::InvalidLabelMatcher
    );
    assert_eq!(
        SimpleQueryEngine::parse_selector(r#"metric{job=~"[bad"}"#).unwrap_err(),
        ParseError::InvalidRegex
    );
}

/// Resolving `now-1h` against a fixed instant gives the same Unix seconds as
/// the matching literal timestamp; an unknown unit degrades to raw text.
#[test]
fn test_time_resolution() {
    let relative = match resolve_relative("now-1h", Some(FIXED_TIME)) {
        ResolvedParam::Relative(ts) => ts,
        _ => panic!("Expected relative timestamp"),
    };
    let absolute = match resolve_relative("1641034800", Some(FIXED_TIME)) {
        ResolvedParam::Absolute(ts) => ts,
        _ => panic!("Expected absolute timestamp"),
    };
    assert_eq!(relative, absolute); // both reduce to the same seconds string

    match resolve_relative("now-15x", Some(FIXED_TIME)) {
        ResolvedParam::Raw(raw) => assert_eq!(raw, "now-15x"),
        _ => panic!("Expected raw string for the invalid unit"),
    }
}

/// With two routes on one path, the first structurally compatible route wins:
/// a request whose query matches only the second route's filter gets the
/// second route's respond.
#[test]
fn test_fixture_precedence() {
    let book = FixtureBook {
        version: None,
        defaults: None,
        routes: vec![
            Route {
                matcher: Matcher {
                    path: "/api/v1/query".to_string(),
                    query: Some("up".to_string()),
                    start: None,
                    end: None,
                    step: None,
                },
                respond: Respond {
                    status: Some("first".to_string()),
                    data: json("{}"),
                    warnings: None,
                    error_type: None,
                    error: None,
                },
            },
            Route {
                matcher: Matcher {
                    path: "/api/v1/query".to_string(),
                    query: Some("down".to_string()),
                    start: None,
                    end: None,
                    step: None,
                },
                respond: Respond {
                    status: Some("second".to_string()),
                    data: json("{}"),
                    warnings: None,
                    error_type: None,
                    error: None,
                },
            },
        ],
    };

    let params = QueryParams { query: "down".to_string(), start: None, end: None, step: None };
    let resp = book.find_match("/api/v1/query", &params, None).expect("a route matches");
    assert_eq!(resp.status.as_ref().unwrap(), "second");

    let params = QueryParams { query: "up".to_string(), start: None, end: None, step: None };
    let resp = book.find_match("/api/v1/query", &params, None).expect("a route matches");
    assert_eq!(resp.status.as_ref().unwrap(), "first");
}

/// End to end: insert a series with two samples and query a range holding
/// only the first.
#[test]
fn test_end_to_end_scenario() {
    let mut storage = MemoryStorage::new();
    let mut ts = TimeSeries::new(vec![Label::new("__name__", "up"), Label::new("job", "api")]);
    ts.add_sample(Sample::new(1000, (1.0f64).to_bits()));
    ts.add_sample(Sample::new(2000, (0.0f64).to_bits()));
    storage.add_series(ts);

    let engine = SimpleQueryEngine::new(storage);
    let result = engine.query("up{job=\"api\"}", 0, 1500).expect("valid query");
    assert_eq!(result.series.len(), 1);
    assert_eq!(result.series[0].samples.len(), 1);
    assert_eq!(result.series[0].samples[0].timestamp, 1000);
    assert_eq!(result.series[0].samples[0].value, (1.0f64).to_bits());
}
