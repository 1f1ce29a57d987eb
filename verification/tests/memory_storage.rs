use prom_mock::matchers::LabelMatcher;
use prom_mock::storage::{MetadataStorage, Storage};
use prom_mock::{EqualMatcher, Label, MemoryStorage, NotEqualMatcher, Sample, TimeSeries};

/// Test basic storage operations: adding series, querying labels and values.
#[test]
fn test_memory_storage() {
    let mut storage = MemoryStorage::new();

    let labels = vec![
        Label::new("__name__", "http_requests_total"),
        Label::new("job", "api"),
        Label::new("method", "GET"),
    ];

    let mut ts = TimeSeries::new(labels);
    ts.add_sample(Sample::new(1000, (42.0f64).to_bits()));
    ts.add_sample(Sample::new(2000, (43.0f64).to_bits()));

    storage.add_series(ts);

    let series = storage.query_series(&[]);
    assert_eq!(series.len(), 1);

    let matcher = LabelMatcher::Equal(EqualMatcher::new("job", "api"));
    let series = storage.query_series(&[matcher]);
    assert_eq!(series.len(), 1);

    let names = storage.label_names();
    assert!(names.contains(&"__name__".to_string()));
    assert!(names.contains(&"job".to_string()));

    let values = storage.label_values("job");
    assert!(values.contains(&"api".to_string()));
}

/// Test label matcher operations for equality and inequality matching.
#[test]
fn test_label_matcher() {
    let mut storage = MemoryStorage::new();
    let labels = vec![
        Label::new("__name__", "http_requests_total"),
        Label::new("job", "api"),
        Label::new("method", "GET"),
    ];

    let ts = TimeSeries::new(labels.clone());
    storage.add_series(ts);

    let equal_matcher = LabelMatcher::Equal(EqualMatcher::new("job", "api"));
    let results = storage.query_series(&[equal_matcher]);
    assert_eq!(results.len(), 1);

    let not_equal_matcher = LabelMatcher::NotEqual(NotEqualMatcher::new("job", "web"));
    let results = storage.query_series(&[not_equal_matcher]);
    assert_eq!(results.len(), 1);

    let wrong_matcher = LabelMatcher::Equal(EqualMatcher::new("job", "web"));
    let results = storage.query_series(&[wrong_matcher]);
    assert_eq!(results.len(), 0);
}

/// The fingerprint is a deterministic function of the label sequence, and it
/// is order-sensitive: the same pairs in another order fingerprint apart.
#[test]
fn test_fingerprint_order_sensitive() {
    let a = vec![Label::new("job", "api"), Label::new("method", "GET")];
    let b = vec![Label::new("job", "api"), Label::new("method", "GET")];
    let swapped = vec![Label::new("method", "GET"), Label::new("job", "api")];

    assert_eq!(MemoryStorage::fingerprint(&a), MemoryStorage::fingerprint(&b));
    assert_ne!(MemoryStorage::fingerprint(&a), MemoryStorage::fingerprint(&swapped));
}

/// Label names come back in the order they were first indexed.
#[test]
fn test_label_names_order() {
    let mut storage = MemoryStorage::new();
    storage.add_series(TimeSeries::new(vec![Label::new("b", "1"), Label::new("a", "1")]));
    storage.add_series(TimeSeries::new(vec![Label::new("c", "1"), Label::new("a", "2")]));

    assert_eq!(storage.label_names(), vec!["b".to_string(), "a".to_string(), "c".to_string()]);
}

/// Label values come back sorted lexicographically, whatever the insertion
/// order; unknown names give an empty list.
#[test]
fn test_label_values_sorted() {
    let mut storage = MemoryStorage::new();
    storage.add_series(TimeSeries::new(vec![Label::new("job", "web")]));
    storage.add_series(TimeSeries::new(vec![Label::new("job", "api")]));
    storage.add_series(TimeSeries::new(vec![Label::new("job", "db")]));

    assert_eq!(storage.label_values("job"), vec![
        "api".to_string(),
        "db".to_string(),
        "web".to_string()
    ]);
    assert!(storage.label_values("unknown").is_empty());
}
