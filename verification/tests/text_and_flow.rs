use mineping::error::ApiError;
use mineping::minecraft::common::{PlayersInfo, ServerInfo, VersionInfo};
use mineping::minecraft::{
    after_host_lookup, after_legacy, after_modern_success, after_srv, after_system, after_target,
    start_resolution, HostLookup, LegacyOutcome, ModernFailure, ResolveStep, LEGACY_TIMEOUT_MS,
    MODERN_TIMEOUT_MS,
};
use mineping::text::{
    contains_chars, decimal_chars, hex_chars, parse_i32, parse_u32, split_chars, starts_with,
    trim_end_chars,
};
use mineping::tui::format_duration;

fn chars(s: &str) -> Vec<char> {
    s.chars().collect()
}

pub fn sample_info(protocol: &str) -> ServerInfo {
    ServerInfo {
        online: true,
        host: "1.2.3.4".to_string(),
        port: 25565,
        resolved_from: "direct".to_string(),
        version: Some(VersionInfo { name: "1.20".to_string(), protocol: 765 }),
        players: Some(PlayersInfo { online: 1, max: 10, sample: None }),
        description: Some("motd".to_string()),
        favicon: None,
        latency_ms: Some(5),
        query_enabled: false,
        protocol_used: protocol.to_string(),
    }
}

#[test]
fn integers_parse_as_str_parse_does() {
    assert_eq!(parse_i32(&chars("42")), Some(42));
    assert_eq!(parse_i32(&chars("+42")), Some(42));
    assert_eq!(parse_i32(&chars("-42")), Some(-42));
    assert_eq!(parse_i32(&chars("2147483647")), Some(i32::MAX));
    assert_eq!(parse_i32(&chars("-2147483648")), Some(i32::MIN));
    assert_eq!(parse_i32(&chars("2147483648")), None);
    assert_eq!(parse_i32(&chars("-2147483649")), None);
    assert_eq!(parse_i32(&chars("")), None);
    assert_eq!(parse_i32(&chars("-")), None);
    assert_eq!(parse_i32(&chars("+")), None);
    assert_eq!(parse_i32(&chars("1 ")), None);
    assert_eq!(parse_i32(&chars("0007")), Some(7));
    assert_eq!(parse_u32(&chars("4294967295")), Some(u32::MAX));
    assert_eq!(parse_u32(&chars("4294967296")), None);
    assert_eq!(parse_u32(&chars("-1")), None);
    assert_eq!(parse_u32(&chars("-0")), None);
    assert_eq!(parse_u32(&chars("+25565")), Some(25565));
    for s in ["0", "17", "99999999999", "x", "-5", "+0"] {
        assert_eq!(parse_i32(&chars(s)), s.parse::<i32>().ok());
        assert_eq!(parse_u32(&chars(s)), s.parse::<u32>().ok());
    }
}

#[test]
fn numbers_render_as_display_and_hex() {
    assert_eq!(decimal_chars(0), chars("0"));
    assert_eq!(decimal_chars(25565), chars("25565"));
    assert_eq!(decimal_chars(u64::MAX), chars(&u64::MAX.to_string()));
    assert_eq!(hex_chars(0xab, 2), chars("ab"));
    assert_eq!(hex_chars(5, 2), chars("05"));
    assert_eq!(hex_chars(0xdeadbeef, 16), chars("00000000deadbeef"));
}

#[test]
fn splitting_and_searching() {
    let parts = split_chars(&chars("a§§b§"), '§');
    assert_eq!(parts, vec![chars("a"), chars(""), chars("b"), chars("")]);
    assert_eq!(split_chars(&chars(""), ','), vec![chars("")]);
    assert!(starts_with(&chars("§1\0x"), &chars("§1\0")));
    assert!(!starts_with(&chars("§"), &chars("§1")));
    assert!(contains_chars(&chars("Connection timeout"), &chars("timeout")));
    assert!(!contains_chars(&chars("Timeou"), &chars("timeout")));
    assert!(contains_chars(&chars("abc"), &chars("")));
    assert_eq!(trim_end_chars(&chars("mc.example.com.."), '.'), chars("mc.example.com"));
    assert_eq!(trim_end_chars(&chars("..."), '.'), chars(""));
}

#[test]
fn durations() {
    assert_eq!(format_duration(0), "0s");
    assert_eq!(format_duration(59), "59s");
    assert_eq!(format_duration(60), "1m 0s");
    assert_eq!(format_duration(125), "2m 5s");
    assert_eq!(format_duration(3600), "1h 0m 0s");
    assert_eq!(format_duration(90061), "25h 1m 1s");
}

#[test]
fn error_responses() {
    assert_eq!(ApiError::InvalidPort.into_status_and_message(), (400, "Invalid port number".to_string()));
    assert_eq!(ApiError::InvalidHost("bad".to_string()).into_status_and_message(), (400, "bad".to_string()));
    assert_eq!(ApiError::ConnectionFailed("down".to_string()).into_status_and_message(), (503, "down".to_string()));
}

#[test]
fn resolution_of_ip_literals_and_srv() {
    match start_resolution("10.0.0.1", 25565, true) {
        ResolveStep::Done(Ok(r)) => {
            assert_eq!((r.host.as_str(), r.port, r.resolved_from.as_str(), r.hostname.as_str()), ("10.0.0.1", 25565, "direct", "10.0.0.1"));
        }
        other => panic!("unexpected {:?}", other),
    }
    match start_resolution("mc.example.com", 25565, false) {
        ResolveStep::LookupSrv(d) => assert_eq!(d, "_minecraft._tcp.mc.example.com"),
        other => panic!("unexpected {:?}", other),
    }
    match after_srv(Some(("play.example.com.".to_string(), 25570))) {
        ResolveStep::LookupTarget { target, port } => {
            assert_eq!(target, "play.example.com");
            assert_eq!(port, 25570);
        }
        other => panic!("unexpected {:?}", other),
    }
    assert!(matches!(after_srv(None), ResolveStep::LookupHost));
    match after_target("play.example.com", 25570, Some("5.6.7.8".to_string())) {
        ResolveStep::Done(Ok(r)) => {
            assert_eq!((r.host.as_str(), r.port, r.resolved_from.as_str(), r.hostname.as_str()), ("5.6.7.8", 25570, "srv", "play.example.com"));
        }
        other => panic!("unexpected {:?}", other),
    }
    assert!(matches!(after_target("t", 1, None), ResolveStep::LookupHost));
}

#[test]
fn resolution_fallbacks() {
    match after_host_lookup("mc.example.com", 25565, HostLookup::Found("9.9.9.9".to_string())) {
        ResolveStep::Done(Ok(r)) => assert_eq!((r.host.as_str(), r.resolved_from.as_str()), ("9.9.9.9", "dns")),
        other => panic!("unexpected {:?}", other),
    }
    match after_host_lookup("mc.example.com", 25565, HostLookup::NoAddress) {
        ResolveStep::Done(Err(e)) => assert_eq!(e, "No IP addresses found for mc.example.com"),
        other => panic!("unexpected {:?}", other),
    }
    assert!(matches!(after_host_lookup("h", 1, HostLookup::Failed), ResolveStep::AskSystem));
    let r = after_system("h", 7, Some(Some("1.1.1.1".to_string()))).unwrap();
    assert_eq!((r.host.as_str(), r.port, r.resolved_from.as_str(), r.hostname.as_str()), ("1.1.1.1", 7, "system", "h"));
    assert_eq!(after_system("h", 7, Some(None)).unwrap_err(), "Could not resolve h");
    assert_eq!(after_system("h", 7, None).unwrap_err(), "Failed to resolve h: timeout or error");
}

#[test]
fn protocol_fallback_decisions() {
    let r = after_modern_success(sample_info("modern_slp"), "srv".to_string(), true);
    assert_eq!(r.resolved_from, "srv");
    assert!(r.query_enabled);
    let r = after_modern_success(sample_info("modern_slp"), "dns".to_string(), false);
    assert!(!r.query_enabled);

    assert_eq!(MODERN_TIMEOUT_MS, 5000);
    assert_eq!(LEGACY_TIMEOUT_MS, 5000);

    let ok = after_legacy(ModernFailure::TimedOut, LegacyOutcome::Succeeded(sample_info("legacy_slp")), "dns".to_string()).unwrap();
    assert_eq!(ok.resolved_from, "dns");
    assert_eq!(ok.protocol_used, "legacy_slp");
    assert_eq!(
        after_legacy(ModernFailure::Failed("bad json".to_string()), LegacyOutcome::Failed("no answer".to_string()), String::new()).unwrap_err(),
        "All protocols failed. Modern: bad json. Legacy: no answer"
    );
    assert_eq!(after_legacy(ModernFailure::Failed("x".to_string()), LegacyOutcome::TimedOut, String::new()).unwrap_err(), "Legacy protocol timeout");
    assert_eq!(after_legacy(ModernFailure::TimedOut, LegacyOutcome::Failed("refused".to_string()), String::new()).unwrap_err(), "Timeout then legacy failed: refused");
    assert_eq!(after_legacy(ModernFailure::TimedOut, LegacyOutcome::TimedOut, String::new()).unwrap_err(), "All protocols timed out");
}
