use sol_rpc_router::config_text::parse_config;
use sol_rpc_router::health::BackendHealthStatus;
use sol_rpc_router::health::HealthState;
use sol_rpc_router::health::ProbeTransport;
use sol_rpc_router::health::apply_probe_result;
use sol_rpc_router::health::classify_probe_response;
use sol_rpc_router::health::probe_request_body;
use sol_rpc_router::reload::apply_reload;
use sol_rpc_router::reload::build_router_state;

#[test]
fn test_status_starts_optimistic() {
    let st = BackendHealthStatus::default();
    assert!(st.healthy);
    assert_eq!(st.consecutive_failures, 0);
    assert_eq!(st.consecutive_successes, 0);
    assert!(st.last_check_time.is_none());
    assert!(st.last_error.is_none());
}

#[test]
fn test_hysteresis_no_single_probe_flip() {
    // With both thresholds at 2, one failing probe does not trip a
    // healthy upstream, and one passing probe does not recover an
    // unhealthy one.
    let healthy = BackendHealthStatus::default();
    let after = apply_probe_result(&healthy, Err("boom".to_string()), 2, 2, 100);
    assert!(after.healthy);
    assert_eq!(after.consecutive_failures, 1);
    assert_eq!(after.last_error.as_deref(), Some("boom"));
    assert_eq!(after.last_check_time, Some(100));

    let mut sick = BackendHealthStatus::default();
    sick.healthy = false;
    let after = apply_probe_result(&sick, Ok(()), 2, 2, 100);
    assert!(!after.healthy);
    assert_eq!(after.consecutive_successes, 1);
}

#[test]
fn test_failure_threshold_trips() {
    let mut st = BackendHealthStatus::default();
    st = apply_probe_result(&st, Err("e1".to_string()), 3, 2, 1);
    assert!(st.healthy);
    st = apply_probe_result(&st, Err("e2".to_string()), 3, 2, 2);
    assert!(st.healthy);
    st = apply_probe_result(&st, Err("e3".to_string()), 3, 2, 3);
    assert!(!st.healthy);
    assert_eq!(st.consecutive_failures, 3);
}

#[test]
fn test_success_threshold_recovers() {
    let mut st = BackendHealthStatus::default();
    for i in 0..3 {
        st = apply_probe_result(&st, Err("down".to_string()), 3, 2, i);
    }
    assert!(!st.healthy);
    st = apply_probe_result(&st, Ok(()), 3, 2, 10);
    assert!(!st.healthy);
    assert_eq!(st.consecutive_failures, 0);
    st = apply_probe_result(&st, Ok(()), 3, 2, 11);
    assert!(st.healthy);
    assert_eq!(st.consecutive_successes, 2);
    assert!(st.last_error.is_none());
}

#[test]
fn test_interleaved_probes_reset_streaks() {
    // A success in the middle of a failure streak resets it: with a
    // threshold of 2 the upstream never trips.
    let mut st = BackendHealthStatus::default();
    st = apply_probe_result(&st, Err("a".to_string()), 2, 2, 1);
    st = apply_probe_result(&st, Ok(()), 2, 2, 2);
    st = apply_probe_result(&st, Err("b".to_string()), 2, 2, 3);
    assert!(st.healthy);
    assert_eq!(st.consecutive_failures, 1);
}

#[test]
fn test_classify_probe_response() {
    assert!(classify_probe_response(ProbeTransport::Replied { status: 200 }, 5).is_ok());
    assert!(classify_probe_response(ProbeTransport::Replied { status: 299 }, 5).is_ok());
    let err = classify_probe_response(ProbeTransport::Replied { status: 500 }, 5).unwrap_err();
    assert_eq!(err, "Health check returned status: 500");
    let err = classify_probe_response(
        ProbeTransport::Failed { detail: "refused".to_string() },
        5,
    )
    .unwrap_err();
    assert_eq!(err, "Health check request failed: refused");
    let err = classify_probe_response(ProbeTransport::TimedOut, 7).unwrap_err();
    assert_eq!(err, "Health check timed out after 7s");
}

#[test]
fn test_probe_request_body() {
    assert_eq!(
        probe_request_body("getHealth"),
        "{\"jsonrpc\":\"2.0\",\"id\":1,\"method\":\"getHealth\",\"params\":[]}"
    );
}

#[test]
fn test_health_state_lookup_and_update() {
    let mut h = HealthState::new(vec!["a".to_string(), "b".to_string()]);
    assert!(h.get_status("a").unwrap().healthy);
    assert!(h.get_status("missing").is_none());

    let mut st = BackendHealthStatus::default();
    st.healthy = false;
    st.consecutive_failures = 4;
    h.update_status("a", st);
    let got = h.get_status("a").unwrap();
    assert!(!got.healthy);
    assert_eq!(got.consecutive_failures, 4);

    // An update under an unknown label changes nothing.
    let mut other = BackendHealthStatus::default();
    other.healthy = false;
    h.update_status("missing", other);
    assert!(h.get_status("missing").is_none());
    assert!(h.get_status("b").unwrap().healthy);

    assert_eq!(h.get_all_statuses().len(), 2);
}

fn two_backend_config_text() -> &'static str {
    "port = 8080\nredis_url = \"redis://localhost\"\n[[backends]]\nlabel = \"u1\"\nurl = \"http://u1\"\nweight = 1\n[[backends]]\nlabel = \"u2\"\nurl = \"http://u2\"\nweight = 2\n"
}

#[test]
fn test_hot_reload_preserves_history() {
    // u1 is unhealthy with 5 consecutive failures; a reload keeping the
    // label carries the record over, and the rebuilt table publishes the
    // carried health bit.
    let config = parse_config(two_backend_config_text()).unwrap();
    let initial = HealthState::new(vec!["u1".to_string(), "u2".to_string()]);
    let (_table, mut health) = build_router_state(&config, &initial);

    let mut st = BackendHealthStatus::default();
    st.healthy = false;
    st.consecutive_failures = 5;
    health.update_status("u1", st);

    let reparsed = parse_config(two_backend_config_text());
    let (table2, health2) = apply_reload(_table, health, reparsed);

    let carried = health2.get_status("u1").unwrap();
    assert!(!carried.healthy);
    assert_eq!(carried.consecutive_failures, 5);
    assert!(!table2.backends[0].healthy);
    assert!(table2.backends[1].healthy);
    assert_eq!(table2.backends[0].config.label, "u1");
    assert_eq!(table2.backends[1].config.label, "u2");
}

#[test]
fn test_reload_with_invalid_file_keeps_table() {
    // A reload whose document fails to parse leaves the previous table
    // and its health records untouched.
    let config = parse_config(two_backend_config_text()).unwrap();
    let initial = HealthState::new(vec!["u1".to_string(), "u2".to_string()]);
    let (table, mut health) = build_router_state(&config, &initial);
    let mut st = BackendHealthStatus::default();
    st.healthy = false;
    health.update_status("u2", st);

    let bad = parse_config("this is not valid toml {{{{");
    let (table2, health2) = apply_reload(table, health, bad);
    assert_eq!(table2.backends.len(), 2);
    assert_eq!(table2.backends[0].config.label, "u1");
    assert!(!health2.get_status("u2").unwrap().healthy);
}

#[test]
fn test_reload_drops_unknown_and_adds_fresh() {
    // A label that disappears loses its record; a new label starts
    // optimistic.
    let config = parse_config(two_backend_config_text()).unwrap();
    let initial = HealthState::new(vec!["u1".to_string(), "u2".to_string()]);
    let (_table, mut health) = build_router_state(&config, &initial);
    let mut st = BackendHealthStatus::default();
    st.healthy = false;
    health.update_status("u1", st);

    let next = parse_config(
        "port = 8080\nredis_url = \"redis://localhost\"\n[[backends]]\nlabel = \"u2\"\nurl = \"http://u2\"\nweight = 1\n[[backends]]\nlabel = \"u3\"\nurl = \"http://u3\"\nweight = 1\n",
    );
    let (table2, health2) = apply_reload(_table, health, next);
    assert!(health2.get_status("u1").is_none());
    assert!(health2.get_status("u2").unwrap().healthy);
    assert!(health2.get_status("u3").unwrap().healthy);
    assert_eq!(table2.backends.len(), 2);
}
