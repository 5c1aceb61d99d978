use plugin_host::supervisor::{ProcessTable, ServiceHandle};

fn pids_named(table: &ProcessTable, name: &str) -> Vec<u32> {
    table
        .procs
        .iter()
        .filter(|r| r.name == name)
        .map(|r| r.pid)
        .collect()
}

fn has_pid(table: &ProcessTable, pid: u32) -> bool {
    table.procs.iter().any(|r| r.pid == pid)
}

#[test]
fn terminate_by_name_with_no_match_returns_normally() {
    let mut table = ProcessTable::new();
    table.record(10, &"editor".to_string());
    table.record(11, &"browser".to_string());
    let killed = table.terminate_by_name(&"caddy".to_string());
    // No error, nothing signaled, nothing lost.
    assert!(killed.is_empty());
    assert_eq!(table.procs.len(), 2);
    assert!(has_pid(&table, 10));
    assert!(has_pid(&table, 11));
}

#[test]
fn terminate_by_name_removes_every_match() {
    let mut table = ProcessTable::new();
    table.record(10, &"caddy".to_string());
    table.record(11, &"editor".to_string());
    table.record(12, &"caddy".to_string());
    let killed = table.terminate_by_name(&"caddy".to_string());
    assert_eq!(killed, vec![10, 12]);
    assert!(pids_named(&table, "caddy").is_empty());
    assert!(has_pid(&table, 11));
}

#[test]
fn reconcile_without_persisted_identity_starts_fresh() {
    let mut table = ProcessTable::new();
    table.record(11, &"editor".to_string());
    let name = "caddy".to_string();
    let h = table.reconcile_and_start(&None, 100, &name);
    assert_eq!(h.pid, 100);
    assert_eq!(h.name, name);
    assert_eq!(pids_named(&table, "caddy"), vec![100]);
}

#[test]
fn reconcile_twice_leaves_exactly_one_instance() {
    // Two startups in a row without a proper shutdown: the second reconcile
    // terminates the survivor of the first and exactly one instance is live,
    // the one the persisted identity then names.
    let mut table = ProcessTable::new();
    let name = "caddy".to_string();
    let first = table.reconcile_and_start(&None, 100, &name);
    assert_eq!(pids_named(&table, "caddy"), vec![100]);
    let persisted = Some(first);
    let second = table.reconcile_and_start(&persisted, 200, &name);
    assert_eq!(pids_named(&table, "caddy"), vec![200]);
    assert_eq!(second.pid, 200);
    assert!(!has_pid(&table, 100));
}

#[test]
fn persisted_identity_round_trip_replaces_the_stale_process() {
    // A handle persisted by an earlier run is read back at the next startup:
    // the stale process is terminated before the fresh one is recorded. The
    // identity goes through the real store encoding, as an integer value.
    let stored = serde_json::Value::from(77u64);
    let read_back = plugin_host::store::load_service_pid(Some(stored));
    assert_eq!(read_back, Some(77));
    let mut table = ProcessTable::new();
    table.record(77, &"caddy".to_string());
    table.record(11, &"editor".to_string());
    let persisted = read_back.map(|pid| ServiceHandle { pid, name: "caddy".to_string() });
    let h = table.reconcile_and_start(&persisted, 200, &"caddy".to_string());
    assert!(!has_pid(&table, 77));
    assert!(has_pid(&table, 200));
    assert_eq!(pids_named(&table, "caddy"), vec![200]);
    assert_eq!(h.pid, 200);
}

#[test]
fn reconcile_when_the_persisted_process_already_died() {
    // The stale survivor died on its own: reconciliation still leaves exactly
    // one live instance.
    let mut table = ProcessTable::new();
    let persisted = Some(ServiceHandle { pid: 77, name: "caddy".to_string() });
    let h = table.reconcile_and_start(&persisted, 200, &"caddy".to_string());
    assert_eq!(pids_named(&table, "caddy"), vec![200]);
    assert_eq!(h.pid, 200);
}

#[test]
fn stop_terminates_the_handled_instance() {
    let mut table = ProcessTable::new();
    let name = "caddy".to_string();
    let h = table.reconcile_and_start(&None, 100, &name);
    table.stop(&h);
    assert!(pids_named(&table, "caddy").is_empty());
    assert!(!has_pid(&table, 100));
}
