use memguard::memparse::parse_memory;
use memguard::portscan::parse_port_pids;

#[test]
fn parse_memory_gb_is_decimal() {
    // byte_unit treats "GB" as a decimal unit: 16 GB = 16 * 1000^3 bytes
    assert_eq!(parse_memory("16GB"), Ok(16_000_000_000));
}

#[test]
fn parse_memory_mb_is_decimal() {
    assert_eq!(parse_memory("1000MB"), Ok(1_000_000_000));
}

#[test]
fn parse_memory_gib_is_binary() {
    assert_eq!(parse_memory("16GiB"), Ok(16 * 1024 * 1024 * 1024));
}

#[test]
fn parse_memory_plain_number_is_bytes() {
    assert_eq!(parse_memory("8"), Ok(8));
    assert_eq!(parse_memory("8 B"), Ok(8));
}

#[test]
fn parse_memory_rejects_garbage_with_parser_detail() {
    let r = parse_memory("not-a-size");
    assert_eq!(
        r,
        Err(String::from(
            "Failed to parse memory size: The character 'n' is not a number."
        ))
    );
}

#[test]
fn parse_memory_rejects_empty() {
    let e = parse_memory("").unwrap_err();
    assert!(e.starts_with("Failed to parse memory size: "));
    assert_eq!(e, "Failed to parse memory size: No value.");
}

#[test]
fn port_pids_failure_yields_nothing() {
    let out: Vec<u8> = b"123\n456\n".to_vec();
    let pids = parse_port_pids(false, &out);
    assert!(pids.is_empty());
}

#[test]
fn port_pids_one_per_line() {
    let out: Vec<u8> = b"123\n456\n".to_vec();
    assert_eq!(parse_port_pids(true, &out), vec![123, 456]);
}

#[test]
fn port_pids_no_trailing_newline() {
    let out: Vec<u8> = b"123\n456".to_vec();
    assert_eq!(parse_port_pids(true, &out), vec![123, 456]);
}

#[test]
fn port_pids_lines_are_trimmed() {
    let out: Vec<u8> = b" 789 \r\n\t42\n".to_vec();
    assert_eq!(parse_port_pids(true, &out), vec![789, 42]);
}

#[test]
fn port_pids_accept_leading_plus() {
    let out: Vec<u8> = b"+31\n".to_vec();
    assert_eq!(parse_port_pids(true, &out), vec![31]);
}

#[test]
fn port_pids_skip_unparseable_lines() {
    let out: Vec<u8> = b"abc\n12x\n\n77\n+\n-5\n".to_vec();
    assert_eq!(parse_port_pids(true, &out), vec![77]);
}

#[test]
fn port_pids_skip_values_beyond_u32() {
    let out: Vec<u8> = b"4294967295\n4294967296\n99999999999999999999\n".to_vec();
    assert_eq!(parse_port_pids(true, &out), vec![4294967295]);
}

#[test]
fn port_pids_empty_output() {
    let out: Vec<u8> = Vec::new();
    assert!(parse_port_pids(true, &out).is_empty());
}
