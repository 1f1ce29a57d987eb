use prom_mock::{Label, Sample, TimeSeries};

/// Test Label creation and comparison.
#[test]
fn test_label_operations() {
    let label1 = Label::new("job", "api");
    let label2 = Label::new("job", "api");
    let label3 = Label::new("job", "web");

    // Test equality
    assert_eq!(label1, label2);
    assert_ne!(label1, label3);

    // Test fields
    assert_eq!(label1.name, "job");
    assert_eq!(label1.value, "api");

    // Test ordering (for BTreeMap usage)
    assert!(label1 < label3); // "api" < "web"
}

/// Test Sample creation and comparison.
#[test]
fn test_sample_operations() {
    let sample1 = Sample::new(1000, (42.5f64).to_bits());
    let sample2 = Sample::new(1000, (42.5f64).to_bits());
    let sample3 = Sample::new(2000, (100.0f64).to_bits());

    // Test equality
    assert_eq!(sample1, sample2);
    assert_ne!(sample1, sample3);

    // Test fields
    assert_eq!(sample1.timestamp, 1000);
    assert_eq!(sample1.value, (42.5f64).to_bits());
    assert_eq!(sample3.timestamp, 2000);
    assert_eq!(sample3.value, (100.0f64).to_bits());
}

/// Test TimeSeries creation and sample management.
#[test]
fn test_time_series_operations() {
    let labels = vec![Label::new("__name__", "http_requests_total"), Label::new("job", "api")];
    let mut ts = TimeSeries::new(labels.clone());

    // Test initial state
    assert_eq!(ts.labels, labels);
    assert!(ts.samples.is_empty());

    // Add samples in random order
    ts.add_sample(Sample::new(3000, (30.0f64).to_bits()));
    ts.add_sample(Sample::new(1000, (10.0f64).to_bits()));
    ts.add_sample(Sample::new(2000, (20.0f64).to_bits()));

    // Should be sorted by timestamp
    assert_eq!(ts.samples.len(), 3);
    assert_eq!(ts.samples[0].timestamp, 1000);
    assert_eq!(ts.samples[1].timestamp, 2000);
    assert_eq!(ts.samples[2].timestamp, 3000);

    // Replace sample at existing timestamp
    ts.add_sample(Sample::new(2000, (25.0f64).to_bits()));
    assert_eq!(ts.samples.len(), 3); // Still 3 samples
    assert_eq!(ts.samples[1].value, (25.0f64).to_bits()); // Value updated
}

/// Test samples_in_range filtering.
#[test]
fn test_samples_in_range() {
    let mut ts = TimeSeries::new(vec![Label::new("test", "range")]);

    // Add samples at different timestamps
    ts.add_sample(Sample::new(1000, (10.0f64).to_bits()));
    ts.add_sample(Sample::new(2000, (20.0f64).to_bits()));
    ts.add_sample(Sample::new(3000, (30.0f64).to_bits()));
    ts.add_sample(Sample::new(4000, (40.0f64).to_bits()));
    ts.add_sample(Sample::new(5000, (50.0f64).to_bits()));

    // Test various ranges
    let range_1500_3500 = ts.samples_in_range(1500, 3500);
    assert_eq!(range_1500_3500.len(), 2);
    assert_eq!(range_1500_3500[0].timestamp, 2000);
    assert_eq!(range_1500_3500[1].timestamp, 3000);

    // Test exact boundaries (inclusive)
    let range_2000_4000 = ts.samples_in_range(2000, 4000);
    assert_eq!(range_2000_4000.len(), 3);
    assert_eq!(range_2000_4000[0].timestamp, 2000);
    assert_eq!(range_2000_4000[2].timestamp, 4000);

    // Test empty range
    let empty_range = ts.samples_in_range(6000, 7000);
    assert!(empty_range.is_empty());

    // Test single point range
    let single_point = ts.samples_in_range(3000, 3000);
    assert_eq!(single_point.len(), 1);
    assert_eq!(single_point[0].timestamp, 3000);
}

/// Test edge cases for TimeSeries operations.
#[test]
fn test_time_series_edge_cases() {
    let mut ts = TimeSeries::new(vec![]);

    // Empty time series
    assert!(ts.samples.is_empty());
    let empty_range = ts.samples_in_range(0, 1000);
    assert!(empty_range.is_empty());

    // Single sample
    ts.add_sample(Sample::new(500, (5.0f64).to_bits()));
    assert_eq!(ts.samples.len(), 1);

    // Range tests with single sample
    let before_range = ts.samples_in_range(0, 400);
    assert!(before_range.is_empty());

    let containing_range = ts.samples_in_range(400, 600);
    assert_eq!(containing_range.len(), 1);

    let after_range = ts.samples_in_range(600, 1000);
    assert!(after_range.is_empty());

    // Duplicate timestamps with different values
    ts.add_sample(Sample::new(500, (7.5f64).to_bits())); // Should replace
    assert_eq!(ts.samples.len(), 1);
    assert_eq!(ts.samples[0].value, (7.5f64).to_bits());
}
