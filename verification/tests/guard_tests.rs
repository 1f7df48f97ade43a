use memguard::coupling::{coupled_target, find_port_8000_process};
use memguard::guard::{get_process_info, scan_violators, violation_message, ProcessRecord};
use memguard::portscan::parse_port_pids;

fn record(pid: u32, uid: Option<&str>, name: &str, memory: u64) -> ProcessRecord {
    ProcessRecord { pid, uid: uid.map(String::from), name: String::from(name), memory }
}

#[test]
fn process_info_requires_resolvable_owner() {
    let r = record(3, Some("1000"), "worker", 42);
    let info = get_process_info(&r).unwrap();
    assert_eq!(info.pid, 3);
    assert_eq!(info.uid, "1000");
    assert_eq!(info.name, "worker");
    assert!(get_process_info(&record(4, None, "ghost", 42)).is_none());
}

#[test]
fn scan_keeps_records_within_ceiling() {
    let ceiling: u64 = 100;
    let snapshot = vec![
        record(1, Some("u1"), "small", 100),
        record(2, Some("u1"), "exact", 99),
        record(3, Some("u1"), "zero", 0),
    ];
    let v = scan_violators(&snapshot, ceiling);
    assert!(v.is_empty());
}

#[test]
fn scan_reports_each_violator_once_in_order() {
    let ceiling: u64 = 100;
    let snapshot = vec![
        record(1, Some("u1"), "big", 101),
        record(2, Some("u2"), "ok", 50),
        record(3, Some("u3"), "huge", 5000),
    ];
    let v = scan_violators(&snapshot, ceiling);
    assert_eq!(v.len(), 2);
    assert_eq!(v[0].info.pid, 1);
    assert_eq!(v[0].memory, 101);
    assert_eq!(v[1].info.pid, 3);
    assert_eq!(v[1].memory, 5000);
}

#[test]
fn scan_skips_violators_without_owner() {
    let ceiling: u64 = 100;
    let snapshot = vec![
        record(1, None, "anon", 5000),
        record(2, Some("u1"), "big", 200),
    ];
    let v = scan_violators(&snapshot, ceiling);
    assert_eq!(v.len(), 1);
    assert_eq!(v[0].info.pid, 2);
}

#[test]
fn coupling_returns_first_matching_pid() {
    let pids: Vec<u32> = vec![20, 21, 22, 23];
    let owners = vec![
        Some(String::from("other")),
        None,
        Some(String::from("u1")),
        Some(String::from("u1")),
    ];
    assert_eq!(find_port_8000_process(&pids, &owners, "u1"), Some(22));
}

#[test]
fn coupling_none_when_no_owner_matches() {
    let pids: Vec<u32> = vec![20, 21];
    let owners = vec![Some(String::from("other")), None];
    assert_eq!(find_port_8000_process(&pids, &owners, "u1"), None);
}

#[test]
fn coupling_none_when_lookup_failed() {
    // non-zero exit of the port lookup: no candidates at all
    let out: Vec<u8> = b"20\n21\n".to_vec();
    let pids = parse_port_pids(false, &out);
    let owners: Vec<Option<String>> = Vec::new();
    assert_eq!(find_port_8000_process(&pids, &owners, "u1"), None);
}

#[test]
fn coupled_target_discards_the_violator_itself() {
    assert_eq!(coupled_target(Some(11), 10), Some(11));
    assert_eq!(coupled_target(Some(10), 10), None);
    assert_eq!(coupled_target(None, 10), None);
}

#[test]
fn violation_warning_line() {
    let snapshot = vec![record(7, Some("u9"), "hog", 2 * 1024 * 1024 * 1024)];
    let v = scan_violators(&snapshot, 1024 * 1024 * 1024);
    let line = violation_message(&v[0], 1024 * 1024 * 1024);
    assert_eq!(
        line,
        "Process 'hog' (PID: 7, UID: u9) killed by memguard: \
         Memory usage 2.00 GB exceeds limit 1.00 GB"
    );
}

#[test]
fn end_to_end_coupled_kill() {
    // ceiling 100 MB; pid 10 uses 200 MB, pid 11 uses 50 MB
    let ceiling: u64 = 100 * 1024 * 1024;
    let snapshot = vec![
        record(10, Some("u1"), "offender", 200 * 1024 * 1024),
        record(11, Some("u1"), "coupled", 50 * 1024 * 1024),
    ];
    let violations = scan_violators(&snapshot, ceiling);
    // pid 11 is never a direct violator
    assert_eq!(violations.len(), 1);
    assert_eq!(violations[0].info.pid, 10);

    let mut terminated: Vec<u32> = Vec::new();
    for v in violations.iter() {
        terminated.push(v.info.pid);
        // port-8000 lookup emits "11"; its owner lookup yields "u1"
        let candidates = parse_port_pids(true, &b"11\n".to_vec());
        assert_eq!(candidates, vec![11]);
        let owners = vec![Some(String::from("u1"))];
        let found = find_port_8000_process(&candidates, &owners, v.info.uid.as_str());
        if let Some(coupled) = coupled_target(found, v.info.pid) {
            terminated.push(coupled);
        }
    }
    assert_eq!(terminated, vec![10, 11]);
}
