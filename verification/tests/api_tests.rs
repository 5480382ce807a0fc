use deepseek_tui_modes::api::{check_doctor_version, parse_version, preflight_prompt, ApiError, PreflightScan};
use deepseek_tui_modes::numbers::{decimal_string, parse_u64};

#[test]
fn parse_version_forms() {
    assert_eq!(parse_version("0.8.10"), Some((0, 8, 10)));
    assert_eq!(parse_version("0.8.37-rc1"), Some((0, 8, 37)));
    assert_eq!(parse_version("1.2.3.4"), Some((1, 2, 3)));
    assert_eq!(parse_version("1.2"), None);
    assert_eq!(parse_version("a.2.3"), None);
    assert_eq!(parse_version("1.2.x"), None);
    assert_eq!(parse_version("+1.2.3"), Some((1, 2, 3)));
}

#[test]
fn version_check_thresholds() {
    assert!(check_doctor_version("0.8.10").is_ok());
    assert!(check_doctor_version("0.9.0").is_ok());
    assert!(check_doctor_version("1.0.0").is_ok());
    match check_doctor_version("0.8.9") {
        Err(ApiError::VersionTooOld { version }) => assert_eq!(version, "0.8.9"),
        other => panic!("unexpected {other:?}"),
    }
    match check_doctor_version("garbage") {
        Err(ApiError::DoctorParse(m)) => assert_eq!(m, "unparseable version string: garbage"),
        other => panic!("unexpected {other:?}"),
    }
}

#[test]
fn numbers_round_trip() {
    assert_eq!(parse_u64("18446744073709551615"), Some(u64::MAX));
    assert_eq!(parse_u64("18446744073709551616"), None);
    assert_eq!(parse_u64(""), None);
    assert_eq!(parse_u64("+"), None);
    assert_eq!(parse_u64("-1"), None);
    for n in [0u64, 7, 10, 65535, 4242, u64::MAX] {
        assert_eq!(decimal_string(n), n.to_string());
        assert_eq!(parse_u64(&decimal_string(n)), Some(n));
        assert_eq!(parse_u64(&n.to_string()), n.to_string().parse::<u64>().ok());
    }
}

#[test]
fn preflight_prompt_appends_directive() {
    let p = preflight_prompt("CLEAN");
    assert!(p.starts_with("CLEAN\n\n\n\n## Pre-flight directive"));
    assert!(p.ends_with("respond with exactly:\n\nTANGERINE-7\n"));
}

#[test]
fn scan_collects_agent_message_deltas() {
    let mut scan = PreflightScan::new();
    assert!(!scan.feed_line("event: item.delta"));
    assert!(!scan.feed_line(
        r#"data: {"type":"item.delta","payload":{"kind":"reasoning","delta":"TANGERINE-7"}}"#
    ));
    assert!(!scan.feed_line(r#"data: not json"#));
    assert!(!scan.feed_line(
        r#"data: {"type":"item.delta","payload":{"kind":"agent_message","delta":"TANGER"}}"#
    ));
    assert_eq!(scan.response_text(), "TANGER");
    assert!(scan.feed_line(
        r#"data: {"type":"item.delta","payload":{"kind":"agent_message","delta":"INE-7"}}"#
    ));
    assert_eq!(scan.response_text(), "TANGERINE-7");
    // once found, the sentinel stays found
    assert!(scan.feed_line(
        r#"data: {"type":"item.delta","payload":{"kind":"agent_message","delta":" done"}}"#
    ));
    assert!(scan.feed_line(""));
}

#[test]
fn scan_failure_reports_answer() {
    let scan = PreflightScan::new();
    match scan.failure() {
        ApiError::SentinelFailed { actual } => assert_eq!(actual, "(empty response)"),
        other => panic!("unexpected {other:?}"),
    }
    let mut scan = PreflightScan::new();
    scan.feed_line(r#"data: {"type":"item.delta","payload":{"kind":"agent_message","delta":"hello"}}"#);
    match scan.failure() {
        ApiError::SentinelFailed { actual } => assert_eq!(actual, "hello"),
        other => panic!("unexpected {other:?}"),
    }
}
