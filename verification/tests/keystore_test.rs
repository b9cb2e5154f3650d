use sol_rpc_router::keystore::KeyStore;
use sol_rpc_router::keystore::finish_validation;
use sol_rpc_router::keystore::interpret_key_record;
use sol_rpc_router::keystore::needs_rate_limit_counter;
use sol_rpc_router::keystore::rate_limit_allows;
use sol_rpc_router::mock::MockKeyStore;

#[test]
fn test_validate_key_valid() {
    let mut store = MockKeyStore::new();
    store.add_key("valid-key", "owner1", 100);

    let result = store.validate_key("valid-key");
    assert!(result.is_ok());
    let info = result.unwrap().unwrap();
    assert_eq!(info.owner, "owner1");
    assert_eq!(info.rate_limit, 100);
}

#[test]
fn test_validate_key_invalid() {
    let mut store = MockKeyStore::new();
    let result = store.validate_key("invalid-key");
    assert!(result.is_ok()); // Returns Ok(None)
    assert!(result.unwrap().is_none());
}

#[test]
fn test_validate_key_inactive() {
    let mut store = MockKeyStore::new();
    store.add_key("inactive-key", "owner2", 100);
    store.set_inactive("inactive-key");

    let result = store.validate_key("inactive-key");
    assert!(result.is_ok());
    assert!(result.unwrap().is_none());
}

#[test]
fn test_validate_key_rate_limit() {
    let mut store = MockKeyStore::new();
    store.add_key("limited-key", "owner3", 10);

    store.rate_limited_keys.push("limited-key".to_string());

    let result = store.validate_key("limited-key");
    assert!(result.is_err());
    assert_eq!(result.err().unwrap(), "Rate limit exceeded");
}

#[test]
fn test_validate_key_error_injection() {
    let mut store = MockKeyStore::new();
    store.add_key("err-key", "tester", 100);
    store.set_error("err-key", "Redis connection failed");

    let result = store.validate_key("err-key");
    assert_eq!(result.err().unwrap(), "Redis connection failed");
}

#[test]
fn test_validate_key_counts_calls() {
    let mut store = MockKeyStore::new();
    store.add_key("k", "o", 1);
    assert_eq!(store.get_call_count("k"), 0);
    let _ = store.validate_key("k");
    let _ = store.validate_key("k");
    let _ = store.validate_key("missing");
    assert_eq!(store.get_call_count("k"), 2);
    assert_eq!(store.get_call_count("missing"), 1);
}

#[test]
fn test_interpret_key_record() {
    // A missing record or an explicitly inactive one blocks the key.
    assert!(interpret_key_record(false, "true", "o".to_string(), 5).is_none());
    assert!(interpret_key_record(true, "false", "o".to_string(), 5).is_none());
    let info = interpret_key_record(true, "true", "o".to_string(), 5).unwrap();
    assert_eq!(info.owner, "o");
    assert_eq!(info.rate_limit, 5);
}

#[test]
fn test_rate_limit_trip_sequence() {
    // A limit of 2: the first two requests within the window pass, the
    // third is refused; after the 1-second counter expires the next
    // request passes again.
    let limit = 2;
    assert!(needs_rate_limit_counter(limit));
    assert!(rate_limit_allows(limit, 1));
    assert!(rate_limit_allows(limit, 2));
    assert!(!rate_limit_allows(limit, 3));
    // Counter expired and recreated: the next increment yields 1.
    assert!(rate_limit_allows(limit, 1));
}

#[test]
fn test_rate_limit_zero_is_unlimited() {
    assert!(!needs_rate_limit_counter(0));
}

#[test]
fn test_finish_validation() {
    let info = interpret_key_record(true, "true", "o".to_string(), 2);
    let ok = finish_validation(info.clone(), true);
    assert_eq!(ok.unwrap().unwrap().owner, "o");
    let limited = finish_validation(info, false);
    assert_eq!(limited.err().unwrap(), "Rate limit exceeded");
    let missing = finish_validation(None, true);
    assert!(missing.unwrap().is_none());
}
