use sol_rpc_router::config_text::parse_config;
use sol_rpc_router::config_text::serialize_config;

#[test]
fn test_load_config_valid() {
    let config = parse_config(
        r#"
port = 8080
redis_url = "redis://localhost"

[[backends]]
label = "b1"
url = "http://localhost:9000"
weight = 1
"#,
    )
    .unwrap();
    assert_eq!(config.port, 8080);
    assert_eq!(config.backends.len(), 1);
    assert_eq!(config.backends[0].label, "b1");
}

#[test]
fn test_load_config_invalid_toml() {
    let err = parse_config("this is not valid toml {{{{").unwrap_err();
    assert!(!err.message().is_empty());
}

#[test]
fn test_load_config_empty_redis_url() {
    let err = parse_config(
        r#"
port = 8080
redis_url = ""

[[backends]]
label = "b1"
url = "http://localhost:9000"
weight = 1
"#,
    )
    .unwrap_err();
    assert!(
        err.message().contains("Redis URL"),
        "Expected 'Redis URL' in error: {}",
        err.message()
    );
}

#[test]
fn test_load_config_no_backends() {
    let err = parse_config(
        "\nport = 8080\nredis_url = \"redis://localhost\"\nbackends = []\n",
    )
    .unwrap_err();
    assert!(
        err.message().contains("At least one backend"),
        "Expected 'At least one backend' in error: {}",
        err.message()
    );
}

#[test]
fn test_load_config_duplicate_labels() {
    let err = parse_config(
        r#"
port = 8080
redis_url = "redis://localhost"

[[backends]]
label = "same"
url = "http://localhost:9000"
weight = 1

[[backends]]
label = "same"
url = "http://localhost:9001"
weight = 1
"#,
    )
    .unwrap_err();
    assert!(
        err.message().contains("Duplicate backend labels"),
        "Expected 'Duplicate backend labels' in error: {}",
        err.message()
    );
}

#[test]
fn test_load_config_zero_weight() {
    let err = parse_config(
        r#"
port = 8080
redis_url = "redis://localhost"

[[backends]]
label = "bad-backend"
url = "http://localhost:9000"
weight = 0
"#,
    )
    .unwrap_err();
    let msg = err.message();
    assert!(msg.contains("weight 0"), "Expected 'weight 0' in error: {}", msg);
    assert!(msg.contains("bad-backend"), "Expected backend name in error: {}", msg);
}

#[test]
fn test_load_config_empty_label() {
    let err = parse_config(
        r#"
port = 8080
redis_url = "redis://localhost"

[[backends]]
label = ""
url = "http://localhost:9000"
weight = 1
"#,
    )
    .unwrap_err();
    assert!(
        err.message().contains("empty label"),
        "Expected 'empty label' in error: {}",
        err.message()
    );
}

#[test]
fn test_load_config_zero_proxy_timeout() {
    let err = parse_config(
        r#"
port = 8080
redis_url = "redis://localhost"

[[backends]]
label = "b1"
url = "http://localhost:9000"
weight = 1

[proxy]
timeout_secs = 0
"#,
    )
    .unwrap_err();
    assert!(
        err.message().contains("timeout_secs"),
        "Expected 'timeout_secs' in error: {}",
        err.message()
    );
}

#[test]
fn test_load_config_unknown_method_route() {
    let err = parse_config(
        r#"
port = 8080
redis_url = "redis://localhost"

[[backends]]
label = "b1"
url = "http://localhost:9000"
weight = 1

[method_routes]
getSlot = "nonexistent"
"#,
    )
    .unwrap_err();
    let msg = err.message();
    assert!(msg.contains("nonexistent"), "Expected 'nonexistent' in error: {}", msg);
    assert!(
        msg.contains("unknown backend label"),
        "Expected 'unknown backend label' in error: {}",
        msg
    );
}

#[test]
fn test_config_full_document_round_trip() {
    // Loading a document, re-serialising, and loading again gives an
    // equivalent configuration.
    let doc = r#"
port = 8080
metrics_port = 9100
redis_url = "redis://localhost"

# Upstreams.
[[backends]]
label = "primary"
url = "http://localhost:9000"
ws_url = "ws://localhost:9001"
weight = 3

[[backends]]
label = "secondary"
url = "http://localhost:9100"
weight = 1

[method_routes]
getBlock = "secondary"
getSlot = "primary"

[proxy]
timeout_secs = 12

[health_check]
interval_secs = 7
timeout_secs = 2
method = "getHealth"
consecutive_failures_threshold = 4
consecutive_successes_threshold = 3
"#;
    let first = parse_config(doc).unwrap();
    let text = serialize_config(&first);
    let second = parse_config(&text).unwrap();
    assert_eq!(first.port, second.port);
    assert_eq!(first.metrics_port, second.metrics_port);
    assert_eq!(first.redis_url, second.redis_url);
    assert_eq!(first.backends.len(), second.backends.len());
    for i in 0..first.backends.len() {
        assert_eq!(first.backends[i].label, second.backends[i].label);
        assert_eq!(first.backends[i].url, second.backends[i].url);
        assert_eq!(first.backends[i].ws_url, second.backends[i].ws_url);
        assert_eq!(first.backends[i].weight, second.backends[i].weight);
    }
    assert_eq!(first.method_routes.len(), second.method_routes.len());
    for i in 0..first.method_routes.len() {
        assert_eq!(first.method_routes[i].method, second.method_routes[i].method);
        assert_eq!(first.method_routes[i].label, second.method_routes[i].label);
    }
    assert_eq!(first.proxy.timeout_secs, second.proxy.timeout_secs);
    assert_eq!(first.health_check.interval_secs, second.health_check.interval_secs);
    assert_eq!(first.health_check.timeout_secs, second.health_check.timeout_secs);
    assert_eq!(first.health_check.method, second.health_check.method);
    assert_eq!(
        first.health_check.consecutive_failures_threshold,
        second.health_check.consecutive_failures_threshold
    );
    assert_eq!(
        first.health_check.consecutive_successes_threshold,
        second.health_check.consecutive_successes_threshold
    );
    // The canonical form is a fixed point: serialising the reloaded
    // configuration reproduces the same document.
    assert_eq!(text, serialize_config(&second));
}

#[test]
fn test_serialize_canonical_text() {
    let config = parse_config(
        "port = 8080\nredis_url = \"redis://localhost\"\n[[backends]]\nlabel = \"b1\"\nurl = \"http://localhost:9000\"\nweight = 1\n",
    )
    .unwrap();
    let expected = "port = 8080\nmetrics_port = 9100\nredis_url = \"redis://localhost\"\n\
[[backends]]\nlabel = \"b1\"\nurl = \"http://localhost:9000\"\nweight = 1\n\
[method_routes]\n\
[proxy]\ntimeout_secs = 30\n\
[health_check]\ninterval_secs = 10\ntimeout_secs = 5\nmethod = \"getHealth\"\n\
consecutive_failures_threshold = 3\nconsecutive_successes_threshold = 2\n";
    assert_eq!(serialize_config(&config), expected);
}

#[test]
fn test_config_defaults_applied() {
    let config = parse_config(
        "port = 8080\nredis_url = \"redis://localhost\"\n[[backends]]\nlabel = \"b1\"\nurl = \"http://x\"\nweight = 1\n",
    )
    .unwrap();
    assert_eq!(config.metrics_port, 9100);
    assert_eq!(config.proxy.timeout_secs, 30);
    assert_eq!(config.health_check.interval_secs, 10);
    assert_eq!(config.health_check.timeout_secs, 5);
    assert_eq!(config.health_check.method, "getHealth");
    assert_eq!(config.health_check.consecutive_failures_threshold, 3);
    assert_eq!(config.health_check.consecutive_successes_threshold, 2);
}

#[test]
fn test_config_backend_missing_weight_rejected() {
    let err = parse_config(
        "port = 8080\nredis_url = \"redis://x\"\n[[backends]]\nlabel = \"b1\"\nurl = \"http://x\"\n",
    )
    .unwrap_err();
    assert!(err.message().contains("weight"), "got: {}", err.message());
}
