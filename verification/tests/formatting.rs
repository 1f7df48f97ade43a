use memguard::digits::u64_to_string;
use memguard::units::format_bytes;

#[test]
fn u64_to_string_renders_decimal() {
    assert_eq!(u64_to_string(0), "0");
    assert_eq!(u64_to_string(7), "7");
    assert_eq!(u64_to_string(1024), "1024");
    assert_eq!(u64_to_string(18446744073709551615), "18446744073709551615");
}

#[test]
fn format_bytes_zero_is_plain_bytes() {
    assert_eq!(format_bytes(0), "0 B");
}

#[test]
fn format_bytes_below_one_kib_is_plain_bytes() {
    assert_eq!(format_bytes(1), "1 B");
    assert_eq!(format_bytes(1023), "1023 B");
}

#[test]
fn format_bytes_one_kib() {
    assert_eq!(format_bytes(1024), "1.00 KB");
}

#[test]
fn format_bytes_one_gib() {
    assert_eq!(format_bytes(1024 * 1024 * 1024), "1.00 GB");
}

#[test]
fn format_bytes_one_mib() {
    assert_eq!(format_bytes(1024 * 1024), "1.00 MB");
}

#[test]
fn format_bytes_fractions_round_half_up() {
    assert_eq!(format_bytes(1536), "1.50 KB");
    // 1030/1024 is 1.00585...: rounds up to 1.01
    assert_eq!(format_bytes(1030), "1.01 KB");
    // 1029/1024 is 1.00488...: stays at 1.00
    assert_eq!(format_bytes(1029), "1.00 KB");
    assert_eq!(format_bytes(200 * 1024 * 1024), "200.00 MB");
}

#[test]
fn format_bytes_unit_choice_is_monotonic_on_samples() {
    // the unit rank never drops as the byte count grows
    let samples: [u64; 8] = [
        0,
        1023,
        1024,
        1024 * 1024 - 1,
        1024 * 1024,
        1024 * 1024 * 1024 - 1,
        1024 * 1024 * 1024,
        u64::MAX,
    ];
    let rank = |s: &str| {
        if s.ends_with(" GB") {
            3
        } else if s.ends_with(" MB") {
            2
        } else if s.ends_with(" KB") {
            1
        } else {
            0
        }
    };
    let mut last = 0;
    for s in samples.iter() {
        let r = rank(&format_bytes(*s));
        assert!(r >= last);
        last = r;
    }
}
