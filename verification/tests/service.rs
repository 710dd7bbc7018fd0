use std::collections::hash_map::DefaultHasher;
use std::hash::{Hash, Hasher};
use mineping::api::{
    classify_ping_error, generate_ticket_id, ticket_id_for_minute, PingParams, PingService,
    TicketStatus, WorkItem,
};
use mineping::error::ApiError;
use mineping::minecraft::common::{PlayersInfo, ServerInfo, VersionInfo};

const T0: u64 = 1_700_000_000_000;

fn info(protocol: &str, query: bool) -> ServerInfo {
    ServerInfo {
        online: true,
        host: "1.2.3.4".to_string(),
        port: 25565,
        resolved_from: "dns".to_string(),
        version: Some(VersionInfo { name: "1.20".to_string(), protocol: 765 }),
        players: Some(PlayersInfo { online: 1, max: 10, sample: Some(vec!["Steve".to_string()]) }),
        description: Some("motd".to_string()),
        favicon: None,
        latency_ms: Some(5),
        query_enabled: query,
        protocol_used: protocol.to_string(),
    }
}

fn queued(service: &mut PingService, host: &str, fresh: bool, now: u64) -> WorkItem {
    let accepted = service.request_ping(host.to_string(), "25565", fresh, now).unwrap();
    accepted.work.expect("queued")
}

#[test]
fn ping_params_default_to_cached_answers() {
    assert!(!PingParams::default().fresh);
}

#[test]
fn ticket_ids_are_sixteen_hex_digits_and_stable_within_a_minute() {
    let a = ticket_id_for_minute("mc.example.com", 25565, false, 28_333_333);
    let b = ticket_id_for_minute("mc.example.com", 25565, false, 28_333_333);
    let c = ticket_id_for_minute("mc.example.com", 25565, true, 28_333_333);
    assert_eq!(a, b);
    assert_ne!(a, c);
    assert_eq!(a.len(), 16);
    assert!(a.chars().all(|ch| ch.is_ascii_hexdigit() && !ch.is_ascii_uppercase()));
    assert_eq!(generate_ticket_id("h", 1, false).unwrap().len(), 16);
}

#[test]
fn invalid_requests_are_refused() {
    let mut s = PingService::new(T0);
    for port in ["0", "65536", "abc", "", "-1", "99999999999"] {
        assert!(matches!(s.request_ping("mc.example.com".to_string(), port, false, T0), Err(ApiError::InvalidPort)));
    }
    match s.request_ping(String::new(), "25565", false, T0) {
        Err(ApiError::InvalidHost(m)) => assert_eq!(m, "Invalid hostname"),
        other => panic!("unexpected {:?}", other),
    }
    assert!(matches!(s.request_ping("a".repeat(254), "25565", false, T0), Err(ApiError::InvalidHost(_))));
    assert!(s.request_ping("a".repeat(253), "25565", false, T0).is_ok());
    assert!(s.request_ping("mc.example.com".to_string(), "+80", false, T0).is_ok());
}

#[test]
fn a_request_is_queued_then_found_pending() {
    let mut s = PingService::new(T0);
    let accepted = s.request_ping("mc.example.com".to_string(), "25565", false, T0 + 1500).unwrap();
    let id = accepted.response.ticket_id.clone();
    assert_eq!(accepted.response.check_url, format!("/status/{}", id));
    let work = accepted.work.unwrap();
    assert_eq!((work.ticket_id.as_str(), work.host.as_str(), work.port), (id.as_str(), "mc.example.com", 25565));
    assert_eq!(s.queue_stats(), (1, 0, 1));

    let r = s.check_status(&id, T0 + 4700).unwrap();
    assert_eq!(r.ticket_id, id);
    assert!(matches!(r.status, TicketStatus::Pending { position: 1 }));
    assert_eq!(r.created_at, (T0 + 1500) / 1000);
    assert_eq!(r.age_seconds, 3);
}

#[test]
fn a_live_ticket_is_answered_again_without_new_work() {
    let mut s = PingService::new(T0);
    let first = s.request_ping("mc.example.com".to_string(), "25565", false, T0).unwrap();
    let again = s.request_ping("mc.example.com".to_string(), "25565", false, T0 + 10).unwrap();
    assert_eq!(first.response.ticket_id, again.response.ticket_id);
    assert!(again.work.is_none());
    assert_eq!(s.queue_stats(), (1, 0, 1));
}

#[test]
fn default_port_requests_use_25565() {
    let mut s = PingService::new(T0);
    let a = s.request_ping_on_default_port("mc.example.com".to_string(), false, T0).unwrap();
    assert_eq!(a.work.unwrap().port, 25565);
}

#[test]
fn queue_positions_follow_the_queue() {
    let mut s = PingService::new(T0);
    let w1 = queued(&mut s, "a.example", false, T0);
    let w2 = queued(&mut s, "b.example", false, T0);
    let w3 = queued(&mut s, "c.example", false, T0);
    assert!(matches!(s.check_status(&w3.ticket_id, T0).unwrap().status, TicketStatus::Pending { position: 3 }));
    s.start_work(&w1.ticket_id);
    assert!(matches!(s.check_status(&w1.ticket_id, T0).unwrap().status, TicketStatus::Processing));
    assert!(matches!(s.check_status(&w3.ticket_id, T0).unwrap().status, TicketStatus::Pending { position: 2 }));
    assert!(matches!(s.check_status(&w2.ticket_id, T0).unwrap().status, TicketStatus::Pending { position: 1 }));
    assert_eq!(s.queue_stats(), (2, 1, 3));
}

#[test]
fn a_finished_ping_is_ready_cached_and_counted() {
    let mut s = PingService::new(T0);
    let w = queued(&mut s, "mc.example.com", false, T0);
    s.start_work(&w.ticket_id);
    s.finish_work(&w, Ok(info("modern_slp", true)), T0 + 2000);
    match s.check_status(&w.ticket_id, T0 + 2000).unwrap().status {
        TicketStatus::Ready { result } => {
            assert_eq!(result.protocol_used, "modern_slp");
            assert_eq!(result.players.unwrap().sample, Some(vec!["Steve".to_string()]));
        }
        other => panic!("unexpected {:?}", other),
    }
    assert_eq!(s.queue_stats(), (0, 0, 1));
    let c = s.stats_counts(T0 + 10_000);
    assert_eq!(c.uptime_seconds, 10);
    assert_eq!((c.total_requests, c.successful_requests, c.failed_requests), (1, 1, 0));
    assert_eq!((c.modern_slp, c.legacy_slp, c.query_enabled), (1, 0, 1));

    // A minute later the ticket of that minute differs; the cached result answers at once.
    let next = s.request_ping("mc.example.com".to_string(), "25565", false, T0 + 60_000).unwrap();
    assert!(next.work.is_none());
    assert_ne!(next.response.ticket_id, w.ticket_id);
    assert!(matches!(s.check_status(&next.response.ticket_id, T0 + 60_000).unwrap().status, TicketStatus::Ready { .. }));

    // A fresh request bypasses the cache.
    let fresh = s.request_ping("mc.example.com".to_string(), "25565", true, T0 + 60_000).unwrap();
    assert!(fresh.work.is_some());
}

#[test]
fn a_stale_cache_entry_is_not_used() {
    let mut s = PingService::new(T0);
    let w = queued(&mut s, "mc.example.com", false, T0);
    s.start_work(&w.ticket_id);
    s.finish_work(&w, Ok(info("legacy_slp_beta", false)), T0);
    let later = s.request_ping("mc.example.com".to_string(), "25565", false, T0 + 120_000).unwrap();
    assert!(later.work.is_some());
    assert_eq!(s.stats_counts(T0).legacy_slp, 1);
}

#[test]
fn a_failed_ping_reports_a_message() {
    let mut s = PingService::new(T0);
    let w = queued(&mut s, "mc.example.com", false, T0);
    s.start_work(&w.ticket_id);
    s.finish_work(&w, Err("Connection failed: Connection refused".to_string()), T0);
    match s.check_status(&w.ticket_id, T0).unwrap().status {
        TicketStatus::Error { message } => assert_eq!(message, "Cannot reach mc.example.com"),
        other => panic!("unexpected {:?}", other),
    }
    let c = s.stats_counts(T0);
    assert_eq!((c.total_requests, c.successful_requests, c.failed_requests), (1, 0, 1));
}

#[test]
fn results_for_vanished_tickets_change_only_the_processing_count() {
    let mut s = PingService::new(T0);
    let w = queued(&mut s, "mc.example.com", false, T0);
    s.start_work(&w.ticket_id);
    s.cleanup_expired(T0 + 301_000);
    s.finish_work(&w, Ok(info("modern_slp", false)), T0 + 301_000);
    assert_eq!(s.stats_counts(T0).total_requests, 0);
    assert_eq!(s.queue_stats(), (0, 0, 1));
}

#[test]
fn error_messages_for_users() {
    assert_eq!(classify_ping_error("Connection timeout", "h"), "Request timed out");
    assert_eq!(classify_ping_error("Legacy protocol Timeout", "h"), "Request timed out");
    assert_eq!(classify_ping_error("Connection failed: x", "h"), "Cannot reach h");
    assert_eq!(classify_ping_error("os error: Connection refused", "h"), "Cannot reach h");
    assert_eq!(classify_ping_error("could not resolve", "h"), "Cannot reach h");
    assert_eq!(classify_ping_error("All protocols failed. Modern: a. Legacy: b", "h"), "h does not appear to be a Minecraft server");
    assert_eq!(classify_ping_error("Failed to resolve h: timeout or error", "h"), "Request timed out");
    assert_eq!(classify_ping_error("No IP addresses found for h", "h"), "Unable to communicate with server");
}

#[test]
fn tickets_expire_after_five_minutes() {
    let mut s = PingService::new(T0);
    let w = queued(&mut s, "mc.example.com", false, T0);
    s.cleanup_expired(T0 + 300_999);
    assert!(s.check_status(&w.ticket_id, T0 + 300_999).is_ok());
    assert_eq!(s.queue_stats().0, 1);
    s.cleanup_expired(T0 + 301_000);
    match s.check_status(&w.ticket_id, T0 + 301_000) {
        Err(ApiError::InvalidHost(m)) => assert_eq!(m, "Ticket not found or expired"),
        other => panic!("unexpected {:?}", other),
    }
    assert_eq!(s.queue_stats().0, 0);
}

#[test]
fn an_expired_ticket_is_refused_before_any_cleanup() {
    let mut s = PingService::new(T0);
    let w = queued(&mut s, "mc.example.com", false, T0);
    assert!(s.check_status(&w.ticket_id, T0 + 300_999).is_ok());
    match s.check_status(&w.ticket_id, T0 + 301_000) {
        Err(ApiError::InvalidHost(m)) => assert_eq!(m, "Ticket not found or expired"),
        other => panic!("unexpected {:?}", other),
    }
}

#[test]
fn an_unknown_ticket_is_not_found() {
    let s = PingService::new(T0);
    assert!(matches!(s.check_status(&"0000000000000000".to_string(), T0), Err(ApiError::InvalidHost(_))));
}

#[test]
fn withdrawing_a_ticket_when_no_worker_takes_it() {
    let mut s = PingService::new(T0);
    let w1 = queued(&mut s, "a.example", false, T0);
    let w2 = queued(&mut s, "b.example", false, T0);
    match s.cancel_queued(&w1.ticket_id) {
        ApiError::ConnectionFailed(m) => assert_eq!(m, "Service temporarily unavailable"),
        other => panic!("unexpected {:?}", other),
    }
    assert!(s.check_status(&w1.ticket_id, T0).is_err());
    assert!(matches!(s.check_status(&w2.ticket_id, T0).unwrap().status, TicketStatus::Pending { position: 1 }));
    assert_eq!(s.queue_stats(), (1, 0, 2));
}

#[test]
fn ticket_ids_hash_host_port_fresh_and_minute_in_turn() {
    let mut hasher = DefaultHasher::new();
    "mc.example.com".hash(&mut hasher);
    25565u16.hash(&mut hasher);
    true.hash(&mut hasher);
    28_333_333u64.hash(&mut hasher);
    let expected = format!("{:016x}", hasher.finish());
    assert_eq!(ticket_id_for_minute("mc.example.com", 25565, true, 28_333_333), expected);
}

#[test]
fn protocol_counts_stay_within_successes() {
    let mut s = PingService::new(T0);
    let modern = "modern_slp".to_string();
    let beta = "legacy_slp_beta".to_string();
    let other = "something_else".to_string();
    s.stats.record_request(true, Some(&modern), true);
    s.stats.record_request(true, Some(&beta), false);
    s.stats.record_request(true, Some(&other), true);
    s.stats.record_request(true, None, true);
    s.stats.record_request(false, None, false);
    let p = &s.stats.protocol_counts;
    assert_eq!((p.modern_slp, p.legacy_slp, p.query_enabled), (1, 1, 2));
    assert_eq!(s.stats.successful_requests, 4);
    assert_eq!(s.stats.total_requests, 5);
    assert!(p.modern_slp + p.legacy_slp <= s.stats.successful_requests);
    assert!(p.query_enabled <= s.stats.successful_requests);
}
