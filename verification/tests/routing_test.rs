use sol_rpc_router::config::Backend;
use sol_rpc_router::config::HealthCheckConfig;
use sol_rpc_router::config::MethodRoute;
use sol_rpc_router::routing::RouterState;
use sol_rpc_router::routing::RuntimeBackend;

fn runtime_backend(label: &str, url: &str, ws_url: Option<&str>, weight: u32) -> RuntimeBackend {
    RuntimeBackend {
        config: Backend {
            label: label.to_string(),
            url: url.to_string(),
            ws_url: ws_url.map(|u| u.to_string()),
            weight,
        },
        healthy: true,
    }
}

fn create_test_state() -> RouterState {
    RouterState {
        backends: vec![
            runtime_backend("primary", "http://primary", None, 100),
            runtime_backend("secondary", "http://secondary", None, 0),
        ],
        method_routes: Vec::new(),
        proxy_timeout_secs: 10,
        health_check_config: HealthCheckConfig::default(),
    }
}

#[test]
fn test_select_backend_weighted() {
    let mut state = create_test_state();
    state.backends[0].config.weight = 1;
    state.backends[1].config.weight = 1;

    let iterations = 1000;
    let mut primary_count = 0;
    let mut secondary_count = 0;

    for _ in 0..iterations {
        let (label, _) = state.select_backend(None).unwrap();
        if label == "primary" {
            primary_count += 1;
        } else {
            secondary_count += 1;
        }
    }

    // Both should be selected roughly 50%
    assert!(primary_count > 400);
    assert!(secondary_count > 400);
}

#[test]
fn test_select_backend_method_override() {
    let mut state = create_test_state();
    state.method_routes.push(MethodRoute {
        method: "eth_call".to_string(),
        label: "secondary".to_string(),
    });

    let (label, _) = state.select_backend(Some("eth_call")).unwrap();
    assert_eq!(label, "secondary");

    let (label, _) = state.select_backend(Some("eth_blockNumber")).unwrap();
    let label_str = label.to_string();

    // With weight 0 for secondary in create_test_state, it should be primary
    assert_eq!(label_str, "primary");
}

#[test]
fn test_select_backend_unhealthy_fallback() {
    let mut state = create_test_state();
    state.backends[0].healthy = false;

    let (label, _) = state.select_backend(None).unwrap();
    assert_eq!(label, "secondary");
}

#[test]
fn test_select_backend_all_unhealthy() {
    let mut state = create_test_state();
    for backend in state.backends.iter_mut() {
        backend.healthy = false;
    }

    assert!(state.select_backend(None).is_none());
}

// --- WebSocket backend selection tests ---

fn create_ws_test_state() -> RouterState {
    RouterState {
        backends: vec![
            runtime_backend("ws-a", "http://ws-a", Some("ws://ws-a"), 1),
            runtime_backend("ws-b", "http://ws-b", Some("ws://ws-b"), 1),
        ],
        method_routes: Vec::new(),
        proxy_timeout_secs: 10,
        health_check_config: HealthCheckConfig::default(),
    }
}

#[test]
fn test_select_ws_backend_weighted() {
    let state = create_ws_test_state();
    let mut a_count = 0;
    let mut b_count = 0;

    for _ in 0..1000 {
        let (label, url) = state.select_ws_backend().unwrap();
        assert!(url.starts_with("ws://"));
        if label == "ws-a" {
            a_count += 1;
        } else {
            b_count += 1;
        }
    }

    assert!(a_count > 400, "ws-a selected {} times", a_count);
    assert!(b_count > 400, "ws-b selected {} times", b_count);
}

#[test]
fn test_select_ws_backend_no_ws_urls() {
    let state = create_test_state(); // backends have no ws_url
    assert!(state.select_ws_backend().is_none());
}

#[test]
fn test_select_ws_backend_unhealthy_excluded() {
    let mut state = create_ws_test_state();
    state.backends[0].healthy = false;

    for _ in 0..100 {
        let (label, _) = state.select_ws_backend().unwrap();
        assert_eq!(label, "ws-b");
    }
}

#[test]
fn test_select_backend_override_to_unhealthy_falls_back() {
    // A method pinned to an unhealthy upstream falls back to the weighted
    // draw over the healthy set.
    let mut state = create_test_state();
    state.backends[1].config.weight = 5;
    state.method_routes.push(MethodRoute {
        method: "getBlock".to_string(),
        label: "secondary".to_string(),
    });
    state.backends[1].healthy = false;

    for _ in 0..50 {
        let (label, _) = state.select_backend(Some("getBlock")).unwrap();
        assert_eq!(label, "primary");
    }
}

#[test]
fn test_select_backend_zero_total_weight_picks_first_healthy() {
    let mut state = create_test_state();
    state.backends[0].config.weight = 0;
    state.backends[1].config.weight = 0;
    state.backends[0].healthy = false;

    let (label, _) = state.select_backend(None).unwrap();
    assert_eq!(label, "secondary");
}

#[test]
fn test_select_backend_weighted_ratio() {
    // Weighted draws converge towards the configured ratios: with weights
    // 3:1 the first upstream should take roughly three quarters.
    let mut state = create_test_state();
    state.backends[0].config.weight = 3;
    state.backends[1].config.weight = 1;

    let mut primary_count = 0;
    for _ in 0..2000 {
        let (label, _) = state.select_backend(None).unwrap();
        if label == "primary" {
            primary_count += 1;
        }
    }
    assert!(primary_count > 1350, "primary selected {} times", primary_count);
    assert!(primary_count < 1650, "primary selected {} times", primary_count);
}
