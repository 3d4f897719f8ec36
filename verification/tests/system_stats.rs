use hypercalibrate::system_stats::{
    parse_hex_u32_in, parse_meminfo_kb, parse_memory_info, parse_millidegrees, parse_throttled, ThrottleStatus,
};

#[test]
fn test_parse_meminfo_kb() {
    assert_eq!(parse_meminfo_kb("MemTotal:        4028416 kB"), 4028416);
    assert_eq!(parse_meminfo_kb("MemAvailable:    3700000 kB"), 3700000);
    assert_eq!(parse_meminfo_kb("Invalid line"), 0);
}

#[test]
fn meminfo_edge_cases() {
    assert_eq!(parse_meminfo_kb(""), 0);
    assert_eq!(parse_meminfo_kb("   "), 0);
    assert_eq!(parse_meminfo_kb("MemTotal:"), 0);
    assert_eq!(parse_meminfo_kb("MemTotal: 12"), 12);
    assert_eq!(parse_meminfo_kb("  MemTotal:\t12\n"), 12);
    assert_eq!(parse_meminfo_kb("a +12 b"), 12);
    assert_eq!(parse_meminfo_kb("a + b"), 0);
    assert_eq!(parse_meminfo_kb("a -12 b"), 0);
    assert_eq!(parse_meminfo_kb("a 12kB"), 0);
    assert_eq!(parse_meminfo_kb("a 0012"), 12);
    assert_eq!(parse_meminfo_kb("a 18446744073709551615"), u64::MAX);
    assert_eq!(parse_meminfo_kb("a 18446744073709551616"), 0);
    assert_eq!(parse_meminfo_kb("a 99999999999999999999999"), 0);
    assert_eq!(parse_meminfo_kb("a 1844674407370955161x"), 0);
    assert_eq!(parse_meminfo_kb("a\u{a0}7"), 7);
    assert_eq!(parse_meminfo_kb("a\u{3000}7\u{2003}x"), 7);
    assert_eq!(parse_meminfo_kb("é 42"), 42);
}

#[test]
fn meminfo_agrees_with_the_standard_library() {
    for line in [
        "MemTotal:        4028416 kB",
        "x 1",
        "x +5",
        "x ++5",
        "x 5+",
        "x\t\t77\tkB",
        "one",
        "x 18446744073709551615 y",
        "x 18446744073709551616 y",
        "x ٣",
    ] {
        let expected: u64 = line.split_whitespace().nth(1).and_then(|s| s.parse().ok()).unwrap_or(0);
        assert_eq!(parse_meminfo_kb(line), expected, "{:?}", line);
    }
}

#[test]
fn throttle_flags() {
    let clear = ThrottleStatus::from_flags(0);
    assert!(!clear.under_voltage && !clear.freq_capped && !clear.throttled && !clear.soft_temp_limit);
    assert!(!clear.under_voltage_occurred && !clear.throttled_occurred);

    let s = ThrottleStatus::from_flags(0x50005);
    assert!(s.under_voltage && !s.freq_capped && s.throttled && !s.soft_temp_limit);
    assert!(s.under_voltage_occurred && !s.freq_capped_occurred && s.throttled_occurred);
    assert!(!s.soft_temp_limit_occurred);

    let all = ThrottleStatus::from_flags(u32::MAX);
    assert!(all.freq_capped && all.soft_temp_limit && all.freq_capped_occurred && all.soft_temp_limit_occurred);

    // bits between the two groups mean nothing
    assert_eq!(ThrottleStatus::from_flags(0xfff0), clear);
}

#[test]
fn memory_report() {
    let report = "MemTotal:        4028416 kB\nMemFree:          123456 kB\nMemAvailable:    3700000 kB\nBuffers: 1 kB\n";
    assert_eq!(parse_memory_info(report), (4028416 * 1024, 3700000 * 1024));
    assert_eq!(parse_memory_info(""), (0, 0));
    assert_eq!(parse_memory_info("\n\n"), (0, 0));
    assert_eq!(parse_memory_info("MemTotal: 5 kB"), (5120, 0));
    assert_eq!(parse_memory_info("MemAvailable: 5 kB\r\nMemTotal: 7 kB\r\n"), (7168, 5120));
    // reading stops once both figures are there
    assert_eq!(parse_memory_info("MemTotal: 1 kB\nMemAvailable: 2 kB\nMemTotal: 3 kB\n"), (1024, 2048));
    // a figure of zero is read again
    assert_eq!(parse_memory_info("MemTotal: 0 kB\nMemAvailable: 2 kB\nMemTotal: 3 kB\n"), (3072, 2048));
    // the name must start the line
    assert_eq!(parse_memory_info(" MemTotal: 1 kB\nxMemAvailable: 2 kB"), (0, 0));
    // a figure too large to hold
    assert_eq!(parse_memory_info("MemTotal: 18446744073709551615 kB"), (u64::MAX, 0));
}

#[test]
fn memory_report_agrees_with_reading_line_by_line() {
    for report in [
        "MemTotal:        4028416 kB\nMemAvailable:    3700000 kB\n",
        "MemAvailable: 9\nSwap: 1\nMemTotal: 8",
        "MemTotal:\nMemAvailable: 4 kB",
        "MemTotal: x\nMemTotal: 2\nMemAvailable: +3",
        "MemTotal: 1 kB\r\nMemAvailable: 2 kB\r\n",
    ] {
        let mut total = 0u64;
        let mut available = 0u64;
        for line in report.lines() {
            if line.starts_with("MemTotal:") {
                total = parse_meminfo_kb(line) * 1024;
            } else if line.starts_with("MemAvailable:") {
                available = parse_meminfo_kb(line) * 1024;
            }
            if total > 0 && available > 0 {
                break;
            }
        }
        assert_eq!(parse_memory_info(report), (total, available), "{:?}", report);
    }
}

#[test]
fn temperatures() {
    assert_eq!(parse_millidegrees("42000\n"), Some(42000));
    assert_eq!(parse_millidegrees("  -5000  "), Some(-5000));
    assert_eq!(parse_millidegrees("+1"), Some(1));
    assert_eq!(parse_millidegrees("2147483647"), Some(i32::MAX));
    assert_eq!(parse_millidegrees("-2147483648"), Some(i32::MIN));
    assert_eq!(parse_millidegrees("2147483648"), None);
    assert_eq!(parse_millidegrees("-2147483649"), None);
    assert_eq!(parse_millidegrees(""), None);
    assert_eq!(parse_millidegrees("   "), None);
    assert_eq!(parse_millidegrees("42 000"), None);
    assert_eq!(parse_millidegrees("42.0"), None);
    for text in ["42000\n", " 7", "x", "", "\t-1\u{a0}", "99999999999", "1\n2"] {
        assert_eq!(parse_millidegrees(text), text.trim().parse::<i32>().ok(), "{:?}", text);
    }
}

#[test]
fn hexadecimal_numbers() {
    assert_eq!(parse_hex_u32_in("0", 0, 1), Some(0));
    assert_eq!(parse_hex_u32_in("50005", 0, 5), Some(0x50005));
    assert_eq!(parse_hex_u32_in("xxdeadBEEFxx", 2, 10), Some(0xdeadbeef));
    assert_eq!(parse_hex_u32_in("ffffffff", 0, 8), Some(u32::MAX));
    assert_eq!(parse_hex_u32_in("100000000", 0, 9), None);
    assert_eq!(parse_hex_u32_in("0000000000001", 0, 13), Some(1));
    assert_eq!(parse_hex_u32_in("+ff", 0, 3), Some(255));
    assert_eq!(parse_hex_u32_in("+", 0, 1), None);
    assert_eq!(parse_hex_u32_in("-1", 0, 2), None);
    assert_eq!(parse_hex_u32_in("g", 0, 1), None);
    assert_eq!(parse_hex_u32_in("", 0, 0), None);
    for text in ["0", "7f", "FFFFFFFF", "100000000", "+a", "++a", "0x1", " 1", "", "fffffffff", "G"] {
        let len = text.chars().count();
        assert_eq!(parse_hex_u32_in(text, 0, len), u32::from_str_radix(text, 16).ok(), "{:?}", text);
    }
}

#[test]
fn throttling_answers() {
    assert_eq!(parse_throttled("throttled=0x0\n"), Some(ThrottleStatus::from_flags(0)));
    assert_eq!(parse_throttled("throttled=0x50005\n"), Some(ThrottleStatus::from_flags(0x50005)));
    assert_eq!(parse_throttled("  throttled=0xF  "), Some(ThrottleStatus::from_flags(15)));
    assert_eq!(parse_throttled("throttled=0x"), None);
    assert_eq!(parse_throttled("throttled=0"), None);
    assert_eq!(parse_throttled("throttled=0x1 2"), None);
    assert_eq!(parse_throttled("Throttled=0x1"), None);
    assert_eq!(parse_throttled("throttled=0x100000000"), None);
    assert_eq!(parse_throttled(""), None);
    assert!(parse_throttled("throttled=0x4").unwrap().throttled);
}
