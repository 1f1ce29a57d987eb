use prom_mock::fixtures::{param_equal, Defaults, FixtureBook, Matcher, QueryParams, Respond, Route};

/// 2022-01-01 12:00:00 UTC as Unix seconds.
const FIXED_TIME: i64 = 1641038400;

fn json_value(text: &str) -> serde_json::Value {
    serde_json::from_str(text).expect("valid JSON")
}

/// Test basic FixtureBook creation and default values.
#[test]
fn test_fixture_book_defaults() {
    let book = FixtureBook::default();
    assert_eq!(book.version, None);
    assert_eq!(book.defaults, None);
    assert!(book.routes.is_empty());

    // Test with defaults
    let book = FixtureBook {
        version: Some(1),
        defaults: Some(Defaults {
            status: Some("success".to_string()),
            clock_anchor: Some("now".to_string()),
        }),
        routes: vec![],
    };
    assert_eq!(book.version, Some(1));
    assert!(book.defaults.is_some());
}

/// Test finding matches for simple queries.
#[test]
fn test_find_match_simple_query() {
    let book = FixtureBook {
        version: Some(1),
        defaults: Some(Defaults { status: Some("success".to_string()), clock_anchor: None }),
        routes: vec![
            Route {
                matcher: Matcher {
                    path: "/api/v1/query".to_string(),
                    query: Some("up".to_string()),
                    start: None,
                    end: None,
                    step: None,
                },
                respond: Respond {
                    status: None,
                    data: json_value(r#"{"resultType": "vector", "result": []}"#),
                    warnings: None,
                    error_type: None,
                    error: None,
                },
            },
            Route {
                matcher: Matcher {
                    path: "/api/v1/query".to_string(),
                    query: Some("cpu_usage".to_string()),
                    start: None,
                    end: None,
                    step: None,
                },
                respond: Respond {
                    status: Some("error".to_string()),
                    data: json_value("{}"),
                    warnings: None,
                    error_type: Some("execution".to_string()),
                    error: Some("query failed".to_string()),
                },
            },
        ],
    };

    // Test matching query
    let params = QueryParams { query: "up".to_string(), start: None, end: None, step: None };
    let result = book.find_match("/api/v1/query", &params, None);
    assert!(result.is_some());
    assert_eq!(result.unwrap().data["resultType"], "vector");

    // Test different query
    let params = QueryParams { query: "cpu_usage".to_string(), start: None, end: None, step: None };
    let result = book.find_match("/api/v1/query", &params, None);
    assert!(result.is_some());
    assert_eq!(result.unwrap().status.as_ref().unwrap(), "error");

    // Test non-matching query
    let params =
        QueryParams { query: "memory_usage".to_string(), start: None, end: None, step: None };
    let result = book.find_match("/api/v1/query", &params, None);
    assert!(result.is_none());

    // Test wrong path
    let params = QueryParams { query: "up".to_string(), start: None, end: None, step: None };
    let result = book.find_match("/api/v1/query_range", &params, None);
    assert!(result.is_none());
}

/// Test finding matches for query_range requests.
#[test]
fn test_find_match_query_range() {
    let book = FixtureBook {
        version: Some(1),
        defaults: None,
        routes: vec![Route {
            matcher: Matcher {
                path: "/api/v1/query_range".to_string(),
                query: Some("up".to_string()),
                start: Some("now-1h".to_string()),
                end: Some("now".to_string()),
                step: Some("5m".to_string()),
            },
            respond: Respond {
                status: None,
                data: json_value(r#"{"resultType": "matrix", "result": []}"#),
                warnings: None,
                error_type: None,
                error: None,
            },
        }],
    };

    let fixed_time = FIXED_TIME;

    // Test matching query_range
    let params = QueryParams {
        query: "up".to_string(),
        start: Some("now-1h".to_string()),
        end: Some("now".to_string()),
        step: Some("5m".to_string()),
    };
    let result = book.find_match("/api/v1/query_range", &params, Some(fixed_time));
    assert!(result.is_some());
    assert_eq!(result.unwrap().data["resultType"], "matrix");

    // Test missing required parameters for query_range
    let params = QueryParams {
        query: "up".to_string(),
        start: None,
        end: Some("now".to_string()),
        step: Some("5m".to_string()),
    };
    let result = book.find_match("/api/v1/query_range", &params, Some(fixed_time));
    assert!(result.is_none());

    // Test different step value
    let params = QueryParams {
        query: "up".to_string(),
        start: Some("now-1h".to_string()),
        end: Some("now".to_string()),
        step: Some("1m".to_string()),
    };
    let result = book.find_match("/api/v1/query_range", &params, Some(fixed_time));
    assert!(result.is_none());
}

/// Test effective_status method with defaults.
#[test]
fn test_effective_status() {
    let book = FixtureBook {
        version: None,
        defaults: Some(Defaults { status: Some("default_success".to_string()), clock_anchor: None }),
        routes: vec![],
    };

    // Response with explicit status
    let respond = Respond {
        status: Some("custom_status".to_string()),
        data: json_value("{}"),
        warnings: None,
        error_type: None,
        error: None,
    };
    assert_eq!(book.effective_status(&respond), "custom_status");

    // Response without explicit status (should use default)
    let respond =
        Respond { status: None, data: json_value("{}"), warnings: None, error_type: None, error: None };
    assert_eq!(book.effective_status(&respond), "default_success");

    // Book without defaults
    let book_no_defaults = FixtureBook::default();
    assert_eq!(book_no_defaults.effective_status(&respond), "success");
}

/// Test param_equal function with various time formats.
#[test]
fn test_param_equal() {
    let fixed_time = FIXED_TIME;

    // Exact string matches
    assert!(param_equal("1640995200", "1640995200", None));
    assert!(!param_equal("1640995200", "1640995300", None));

    // Relative time comparisons
    assert!(param_equal("now", "now", Some(fixed_time)));
    assert!(param_equal("now-1h", "now-1h", Some(fixed_time)));
    assert!(!param_equal("now-1h", "now-2h", Some(fixed_time)));

    // Mixed absolute/relative should work if they resolve to same value
    let timestamp_1h_ago = "1641034800"; // fixed_time - 1 hour
    assert!(param_equal("now-1h", timestamp_1h_ago, Some(fixed_time)));

    // Raw vs resolved types should not match
    assert!(!param_equal("raw_string", "1640995200", Some(fixed_time)));
    assert!(!param_equal("1640995200", "raw_string", Some(fixed_time)));
}

/// On a range path, a missing request parameter disqualifies only routes
/// that filter on it: a route without time filters still matches, and the
/// step filter compares through the time resolver, not as plain text.
#[test]
fn test_find_match_range_filters() {
    let book = FixtureBook {
        version: None,
        defaults: None,
        routes: vec![
            Route {
                matcher: Matcher {
                    path: "/api/v1/query_range".to_string(),
                    query: Some("up".to_string()),
                    start: None,
                    end: None,
                    step: None,
                },
                respond: Respond {
                    status: Some("filterless".to_string()),
                    data: json_value("{}"),
                    warnings: None,
                    error_type: None,
                    error: None,
                },
            },
            Route {
                matcher: Matcher {
                    path: "/api/v1/query_range".to_string(),
                    query: Some("down".to_string()),
                    start: None,
                    end: None,
                    step: Some(" 5m ".to_string()),
                },
                respond: Respond {
                    status: Some("stepped".to_string()),
                    data: json_value("{}"),
                    warnings: None,
                    error_type: None,
                    error: None,
                },
            },
        ],
    };

    // A route without time filters matches even when the request lacks them.
    let params = QueryParams { query: "up".to_string(), start: None, end: None, step: None };
    let resp = book.find_match("/api/v1/query_range", &params, None).expect("a route matches");
    assert_eq!(resp.status.as_ref().unwrap(), "filterless");

    // A route that filters on step does not match a request without one ...
    let params = QueryParams { query: "down".to_string(), start: None, end: None, step: None };
    assert!(book.find_match("/api/v1/query_range", &params, None).is_none());

    // ... but matches a step that resolves equal even when the text differs.
    let params = QueryParams {
        query: "down".to_string(),
        start: None,
        end: None,
        step: Some("5m".to_string()),
    };
    let resp = book.find_match("/api/v1/query_range", &params, None).expect("a route matches");
    assert_eq!(resp.status.as_ref().unwrap(), "stepped");
}

/// Filling in the default status: a book without defaults gets `success`,
/// explicit defaults stay.
#[test]
fn test_apply_default_status() {
    let mut book = FixtureBook::default();
    book.apply_default_status();
    assert_eq!(book.defaults.as_ref().unwrap().status.as_ref().unwrap(), "success");

    let mut book = FixtureBook {
        version: None,
        defaults: Some(Defaults { status: Some("error".to_string()), clock_anchor: None }),
        routes: vec![],
    };
    book.apply_default_status();
    assert_eq!(book.defaults.as_ref().unwrap().status.as_ref().unwrap(), "error");

    let mut book = FixtureBook {
        version: None,
        defaults: Some(Defaults { status: None, clock_anchor: Some("now".to_string()) }),
        routes: vec![],
    };
    book.apply_default_status();
    let d = book.defaults.as_ref().unwrap();
    assert_eq!(d.status.as_ref().unwrap(), "success");
    assert_eq!(d.clock_anchor.as_ref().unwrap(), "now");
}
