use sol_rpc_router::config::Backend;
use sol_rpc_router::config::HealthCheckConfig;
use sol_rpc_router::config::MethodRoute;
use sol_rpc_router::handlers::AuthOutcome;
use sol_rpc_router::handlers::ForwardOutcome;
use sol_rpc_router::handlers::MAX_BODY_SIZE;
use sol_rpc_router::handlers::RoutePlan;
use sol_rpc_router::handlers::WsFrame;
use sol_rpc_router::handlers::authority_of;
use sol_rpc_router::handlers::body_within_limit;
use sol_rpc_router::handlers::build_upstream_uri;
use sol_rpc_router::handlers::classify_validation;
use sol_rpc_router::handlers::clean_query;
use sol_rpc_router::handlers::compose_path_and_query;
use sol_rpc_router::handlers::extract_rpc_method;
use sol_rpc_router::handlers::forward_response_status;
use sol_rpc_router::handlers::health_report;
use sol_rpc_router::handlers::ws_relay_action;
use sol_rpc_router::health::BackendHealthStatus;
use sol_rpc_router::health::HealthState;
use sol_rpc_router::keystore::KeyInfo;
use sol_rpc_router::routing::RouterState;
use sol_rpc_router::routing::RuntimeBackend;

fn runtime_backend(label: &str, url: &str, weight: u32, healthy: bool) -> RuntimeBackend {
    RuntimeBackend {
        config: Backend {
            label: label.to_string(),
            url: url.to_string(),
            ws_url: None,
            weight,
        },
        healthy,
    }
}

fn state_with(backends: Vec<RuntimeBackend>, routes: Vec<MethodRoute>) -> RouterState {
    RouterState {
        backends,
        method_routes: routes,
        proxy_timeout_secs: 5,
        health_check_config: HealthCheckConfig::default(),
    }
}

// --- Method extraction ---

#[test]
fn test_extract_rpc_method_valid_json() {
    let m = extract_rpc_method(r#"{"method":"getSlot"}"#);
    assert_eq!(m.unwrap(), "getSlot");
}

#[test]
fn test_extract_rpc_method_no_method_field() {
    assert!(extract_rpc_method(r#"{"id":1}"#).is_none());
}

#[test]
fn test_extract_rpc_method_invalid_json() {
    assert!(extract_rpc_method("not json at all").is_none());
}

#[test]
fn test_extract_rpc_method_full_request() {
    let m = extract_rpc_method(r#"{"jsonrpc":"2.0","method":"eth_blockNumber","params":[],"id":1}"#);
    assert_eq!(m.unwrap(), "eth_blockNumber");
}

#[test]
fn test_extract_rpc_method_spaced() {
    let m = extract_rpc_method("{ \"method\" :  \"getBlock\" , \"id\": 1 }");
    assert_eq!(m.unwrap(), "getBlock");
}

// --- Query cleaning and URI building ---

#[test]
fn test_clean_query_strips_api_key() {
    assert_eq!(clean_query("api-key=secret"), "");
    assert_eq!(clean_query("a=1&api-key=secret&b=2"), "a=1&b=2");
    assert_eq!(clean_query("api-key=s1&api-key=s2"), "");
    assert_eq!(clean_query("a=1&b=2"), "a=1&b=2");
}

#[test]
fn test_compose_path_and_query() {
    assert_eq!(compose_path_and_query("/rpc", ""), "/rpc");
    assert_eq!(compose_path_and_query("/rpc", "a=1"), "/rpc?a=1");
}

#[test]
fn test_build_upstream_uri_combinations() {
    // A bare `/` collapses to no suffix.
    assert_eq!(build_upstream_uri("http://up:1", "/"), "http://up:1");
    assert_eq!(build_upstream_uri("http://up:1/", "/"), "http://up:1/");
    // A base ending in `/` absorbs the suffix's leading `/`.
    assert_eq!(build_upstream_uri("http://up:1/", "/v1"), "http://up:1/v1");
    // Plain concatenation otherwise.
    assert_eq!(build_upstream_uri("http://up:1", "/v1"), "http://up:1/v1");
    assert_eq!(build_upstream_uri("http://up:1", "/?a=1"), "http://up:1/?a=1");
}

#[test]
fn test_authority_of() {
    assert_eq!(authority_of("http://host:8899/path").unwrap(), "host:8899");
    assert_eq!(authority_of("https://example.org").unwrap(), "example.org");
    assert_eq!(authority_of("http://h?x=1").unwrap(), "h");
    assert!(authority_of("no scheme here").is_none());
    assert!(authority_of("http://").is_none());
}

// --- Authorisation outcomes and the plan ---

#[test]
fn test_classify_validation() {
    let ok = classify_validation(Ok(Some(KeyInfo { owner: "o".to_string(), rate_limit: 1 })));
    assert!(matches!(ok, AuthOutcome::Authorized(_)));
    assert!(matches!(classify_validation(Ok(None)), AuthOutcome::Unauthorized));
    assert!(matches!(
        classify_validation(Err("Rate limit exceeded".to_string())),
        AuthOutcome::RateLimited
    ));
    assert!(matches!(
        classify_validation(Err("Redis connection failed".to_string())),
        AuthOutcome::StoreError(_)
    ));
}

#[test]
fn test_proxy_handler_success() {
    // One healthy upstream, a valid key: the request is forwarded to it,
    // with the credential stripped from the outbound query.
    let state = state_with(vec![runtime_backend("u1", "http://up:9000", 1, true)], Vec::new());
    let auth = AuthOutcome::Authorized(KeyInfo { owner: "o".to_string(), rate_limit: 100 });
    let plan = state.plan_proxy_request(true, &auth, Some("getSlot"));
    match plan {
        RoutePlan::Forward { label, url } => {
            assert_eq!(label, "u1");
            assert_eq!(url, "http://up:9000");
            let cleaned = clean_query("api-key=K");
            let path_q = compose_path_and_query("/", &cleaned);
            assert_eq!(build_upstream_uri(&url, &path_q), "http://up:9000");
        }
        RoutePlan::Reject { .. } => panic!("expected a forward"),
    }
}

#[test]
fn test_proxy_no_api_key() {
    let state = state_with(vec![runtime_backend("u1", "http://up", 1, true)], Vec::new());
    let auth = AuthOutcome::Unauthorized;
    match state.plan_proxy_request(false, &auth, None) {
        RoutePlan::Reject { status, body } => {
            assert_eq!(status, 401);
            assert_eq!(body, "Unauthorized");
        }
        RoutePlan::Forward { .. } => panic!("expected a rejection"),
    }
}

#[test]
fn test_proxy_handler_unauthorized() {
    let state = state_with(vec![runtime_backend("u1", "http://up", 1, true)], Vec::new());
    match state.plan_proxy_request(true, &AuthOutcome::Unauthorized, None) {
        RoutePlan::Reject { status, .. } => assert_eq!(status, 401),
        RoutePlan::Forward { .. } => panic!("expected a rejection"),
    }
}

#[test]
fn test_proxy_handler_rate_limited() {
    let state = state_with(vec![runtime_backend("u1", "http://up", 1, true)], Vec::new());
    match state.plan_proxy_request(true, &AuthOutcome::RateLimited, None) {
        RoutePlan::Reject { status, body } => {
            assert_eq!(status, 429);
            assert_eq!(body, "Rate limit exceeded");
        }
        RoutePlan::Forward { .. } => panic!("expected a rejection"),
    }
}

#[test]
fn test_proxy_keystore_internal_error() {
    let state = state_with(vec![runtime_backend("u1", "http://up", 1, true)], Vec::new());
    let auth = AuthOutcome::StoreError("Redis connection failed".to_string());
    match state.plan_proxy_request(true, &auth, None) {
        RoutePlan::Reject { status, .. } => assert_eq!(status, 500),
        RoutePlan::Forward { .. } => panic!("expected a rejection"),
    }
}

#[test]
fn test_proxy_no_healthy_backends() {
    // A single upstream flipped unhealthy: 503 with the documented body.
    let state = state_with(vec![runtime_backend("u1", "http://up", 1, false)], Vec::new());
    let auth = AuthOutcome::Authorized(KeyInfo { owner: "o".to_string(), rate_limit: 100 });
    match state.plan_proxy_request(true, &auth, None) {
        RoutePlan::Reject { status, body } => {
            assert_eq!(status, 503);
            assert_eq!(body, "No healthy backends available");
        }
        RoutePlan::Forward { .. } => panic!("expected a rejection"),
    }
}

#[test]
fn test_plan_method_override() {
    // getBlock is pinned to u2; other methods take the weighted draw.
    let backends = vec![
        runtime_backend("u1", "http://u1", 1, true),
        runtime_backend("u2", "http://u2", 1, true),
    ];
    let routes = vec![MethodRoute { method: "getBlock".to_string(), label: "u2".to_string() }];
    let state = state_with(backends, routes);
    let auth = AuthOutcome::Authorized(KeyInfo { owner: "o".to_string(), rate_limit: 100 });
    for _ in 0..20 {
        match state.plan_proxy_request(true, &auth, Some("getBlock")) {
            RoutePlan::Forward { label, .. } => assert_eq!(label, "u2"),
            RoutePlan::Reject { .. } => panic!("expected a forward"),
        }
    }
    let mut u1 = 0;
    let mut u2 = 0;
    for _ in 0..500 {
        match state.plan_proxy_request(true, &auth, Some("getSlot")) {
            RoutePlan::Forward { label, .. } => {
                if label == "u1" {
                    u1 += 1;
                } else {
                    u2 += 1;
                }
            }
            RoutePlan::Reject { .. } => panic!("expected a forward"),
        }
    }
    assert!(u1 > 150, "u1 selected {} times", u1);
    assert!(u2 > 150, "u2 selected {} times", u2);
}

#[test]
fn test_plan_override_fallback_on_unhealthy() {
    // As the override scenario, but u2 is unhealthy: getBlock falls back
    // to the weighted draw over the remaining healthy set.
    let backends = vec![
        runtime_backend("u1", "http://u1", 1, true),
        runtime_backend("u2", "http://u2", 1, false),
    ];
    let routes = vec![MethodRoute { method: "getBlock".to_string(), label: "u2".to_string() }];
    let state = state_with(backends, routes);
    let auth = AuthOutcome::Authorized(KeyInfo { owner: "o".to_string(), rate_limit: 100 });
    for _ in 0..50 {
        match state.plan_proxy_request(true, &auth, Some("getBlock")) {
            RoutePlan::Forward { label, .. } => assert_eq!(label, "u1"),
            RoutePlan::Reject { .. } => panic!("expected a forward"),
        }
    }
}

// --- Forward outcome mapping ---

#[test]
fn test_forward_response_status() {
    let (status, body) = forward_response_status(ForwardOutcome::Replied { status: 200 }, 5);
    assert_eq!(status, 200);
    assert!(body.is_none());

    let (status, body) = forward_response_status(
        ForwardOutcome::TransportError { detail: "connection refused".to_string() },
        5,
    );
    assert_eq!(status, 502);
    assert_eq!(body.unwrap(), "Proxy error: connection refused");

    let (status, body) = forward_response_status(ForwardOutcome::TimedOut, 5);
    assert_eq!(status, 504);
    assert_eq!(body.unwrap(), "Upstream request timed out after 5s");
}

// --- Body size boundary ---

#[test]
fn test_body_limit_boundary() {
    // Exactly 10 MiB is accepted; one byte more is not.
    assert_eq!(MAX_BODY_SIZE, 10 * 1024 * 1024);
    assert!(body_within_limit(10 * 1024 * 1024));
    assert!(!body_within_limit(10 * 1024 * 1024 + 1));
}

// --- Health report ---

#[test]
fn test_health_endpoint_all_healthy() {
    let state = state_with(
        vec![runtime_backend("a", "http://a", 1, true), runtime_backend("b", "http://b", 1, true)],
        Vec::new(),
    );
    let health = HealthState::new(vec!["a".to_string(), "b".to_string()]);
    let report = health_report(&state, &health);
    assert_eq!(report.overall_status, "healthy");
    assert_eq!(report.backends.len(), 2);
    assert!(report.backends[0].healthy);
    assert!(report.backends[1].healthy);
}

#[test]
fn test_health_endpoint_mixed() {
    let state = state_with(
        vec![runtime_backend("a", "http://a", 1, true), runtime_backend("b", "http://b", 1, true)],
        Vec::new(),
    );
    let mut health = HealthState::new(vec!["a".to_string(), "b".to_string()]);
    let mut unhealthy = BackendHealthStatus::default();
    unhealthy.healthy = false;
    health.update_status("b", unhealthy);
    let report = health_report(&state, &health);
    assert_eq!(report.overall_status, "healthy");
    let a = report.backends.iter().find(|b| b.label == "a").unwrap();
    let b = report.backends.iter().find(|b| b.label == "b").unwrap();
    assert!(a.healthy);
    assert!(!b.healthy);
}

#[test]
fn test_health_endpoint_all_unhealthy() {
    let state = state_with(
        vec![runtime_backend("a", "http://a", 1, true), runtime_backend("b", "http://b", 1, true)],
        Vec::new(),
    );
    let mut health = HealthState::new(vec!["a".to_string(), "b".to_string()]);
    for label in ["a", "b"] {
        let mut unhealthy = BackendHealthStatus::default();
        unhealthy.healthy = false;
        health.update_status(label, unhealthy);
    }
    let report = health_report(&state, &health);
    assert_eq!(report.overall_status, "unhealthy");
}

// --- The WebSocket upgrade plan ---

fn ws_backend(label: &str, ws: &str, weight: u32, healthy: bool) -> RuntimeBackend {
    RuntimeBackend {
        config: Backend {
            label: label.to_string(),
            url: format!("http://{}", label),
            ws_url: Some(ws.to_string()),
            weight,
        },
        healthy,
    }
}

#[test]
fn test_ws_plan_no_api_key() {
    let state = state_with(vec![ws_backend("w1", "ws://w1", 1, true)], Vec::new());
    match state.plan_ws_request(false, &AuthOutcome::Unauthorized) {
        RoutePlan::Reject { status, body } => {
            assert_eq!(status, 401);
            assert_eq!(body, "Unauthorized");
        }
        RoutePlan::Forward { .. } => panic!("expected a rejection"),
    }
}

#[test]
fn test_ws_plan_rate_limited() {
    let state = state_with(vec![ws_backend("w1", "ws://w1", 1, true)], Vec::new());
    match state.plan_ws_request(true, &AuthOutcome::RateLimited) {
        RoutePlan::Reject { status, body } => {
            assert_eq!(status, 429);
            assert_eq!(body, "Rate limit exceeded");
        }
        RoutePlan::Forward { .. } => panic!("expected a rejection"),
    }
}

#[test]
fn test_ws_plan_store_error() {
    let state = state_with(vec![ws_backend("w1", "ws://w1", 1, true)], Vec::new());
    let auth = AuthOutcome::StoreError("Redis connection failed".to_string());
    match state.plan_ws_request(true, &auth) {
        RoutePlan::Reject { status, .. } => assert_eq!(status, 500),
        RoutePlan::Forward { .. } => panic!("expected a rejection"),
    }
}

#[test]
fn test_ws_plan_no_eligible_backend() {
    // A healthy upstream without a WebSocket origin does not qualify.
    let state = state_with(vec![runtime_backend("u1", "http://u1", 1, true)], Vec::new());
    let auth = AuthOutcome::Authorized(KeyInfo { owner: "o".to_string(), rate_limit: 1 });
    match state.plan_ws_request(true, &auth) {
        RoutePlan::Reject { status, body } => {
            assert_eq!(status, 503);
            assert_eq!(body, "No healthy WebSocket backends available");
        }
        RoutePlan::Forward { .. } => panic!("expected a rejection"),
    }
}

#[test]
fn test_ws_plan_bridges_to_ws_origin() {
    let state = state_with(
        vec![ws_backend("w1", "ws://w1:9001", 1, false), ws_backend("w2", "ws://w2:9001", 1, true)],
        Vec::new(),
    );
    let auth = AuthOutcome::Authorized(KeyInfo { owner: "o".to_string(), rate_limit: 1 });
    for _ in 0..20 {
        match state.plan_ws_request(true, &auth) {
            RoutePlan::Forward { label, url } => {
                assert_eq!(label, "w2");
                assert_eq!(url, "ws://w2:9001");
            }
            RoutePlan::Reject { .. } => panic!("expected a bridge"),
        }
    }
}

// --- The WebSocket relay rule ---

#[test]
fn test_ws_relay_action() {
    match ws_relay_action(WsFrame::Text("hi".to_string())) {
        Some(WsFrame::Text(t)) => assert_eq!(t, "hi"),
        _ => panic!("text frames are relayed verbatim"),
    }
    match ws_relay_action(WsFrame::Binary(vec![1, 2, 3])) {
        Some(WsFrame::Binary(b)) => assert_eq!(b, vec![1, 2, 3]),
        _ => panic!("binary frames are relayed verbatim"),
    }
    match ws_relay_action(WsFrame::Ping(vec![9])) {
        Some(WsFrame::Ping(b)) => assert_eq!(b, vec![9]),
        _ => panic!("ping frames are relayed verbatim"),
    }
    match ws_relay_action(WsFrame::Pong(Vec::new())) {
        Some(WsFrame::Pong(b)) => assert!(b.is_empty()),
        _ => panic!("pong frames are relayed verbatim"),
    }
    assert!(ws_relay_action(WsFrame::Close).is_none());
}
