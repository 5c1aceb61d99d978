use plugin_host::store::{decode_service_pid, load_persisted_state, load_service_pid, reconcile_version};

#[test]
fn stored_version_wins_and_is_not_rewritten() {
    let (version, write_back) = reconcile_version(Some("1.2.0".to_string()), "2.0.0".to_string());
    assert_eq!(version, "1.2.0".to_string());
    assert!(!write_back);
}

#[test]
fn missing_version_defaults_and_is_written_once() {
    let (version, write_back) = reconcile_version(None, "2.0.0".to_string());
    assert_eq!(version, "2.0.0".to_string());
    assert!(write_back);
}

#[test]
fn decode_accepts_a_pid_that_fits() {
    assert_eq!(decode_service_pid(Some(7)), Some(7));
    assert_eq!(decode_service_pid(Some(u32::MAX as u64)), Some(u32::MAX));
}

#[test]
fn decode_rejects_out_of_range_and_missing_pids() {
    assert_eq!(decode_service_pid(Some(u32::MAX as u64 + 1)), None);
    assert_eq!(decode_service_pid(Some(u64::MAX)), None);
    assert_eq!(decode_service_pid(None), None);
}

#[test]
fn load_reads_an_integer_store_value() {
    // Through the real serde_json value: a stored integer comes back as the
    // pid it encodes.
    let v = serde_json::Value::from(7u64);
    assert_eq!(load_service_pid(Some(v)), Some(7));
}

#[test]
fn load_rejects_non_integer_store_values() {
    assert_eq!(load_service_pid(Some(serde_json::Value::from("7"))), None);
    assert_eq!(load_service_pid(Some(serde_json::Value::from(-3i64))), None);
    assert_eq!(load_service_pid(Some(serde_json::Value::Null)), None);
    assert_eq!(load_service_pid(None), None);
}

#[test]
fn load_rejects_integers_too_large_for_a_pid() {
    let v = serde_json::Value::from(u32::MAX as u64 + 1);
    assert_eq!(load_service_pid(Some(v)), None);
}

#[test]
fn typed_state_is_loaded_with_explicit_defaulting() {
    let (state, write_back) =
        load_persisted_state(None, "2.0.0".to_string(), Some(41));
    assert_eq!(state.schema_version, "2.0.0".to_string());
    assert_eq!(state.service_pid, Some(41));
    assert!(write_back);

    let (state, write_back) =
        load_persisted_state(Some("1.0.0".to_string()), "2.0.0".to_string(), None);
    assert_eq!(state.schema_version, "1.0.0".to_string());
    assert_eq!(state.service_pid, None);
    assert!(!write_back);
}
