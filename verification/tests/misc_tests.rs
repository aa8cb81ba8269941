use cfnat::config::Config;
use cfnat::forward::{forward_target, is_tls};
use cfnat::httping::{colo_matches, extract_colo, PingConfig, PingTally};
use cfnat::hyper::{parse_url, ConnectorService, EmptyBody};
use cfnat::log::{console_line, format_time, ConsoleStream, LogBuffer, LogEntry, LogItem};
use cfnat::net::{IpAddr, SocketAddr};
use cfnat::pool::{init_global_limiter, ConcurrencyLimiter};
use cfnat::session::{
    lcg_random, select_power_of_two, select_round_robin, PickPair, SessionCache, LCG_A, LCG_C,
    SESSION_CACHE_SIZE,
};

#[test]
fn clock_text() {
    assert_eq!(format_time(0), "00:00:00");
    assert_eq!(format_time(3661), "01:01:01");
    assert_eq!(format_time(59), "00:00:59");
    assert_eq!(format_time(360_000), "100:00:00");
    assert_eq!(format_time(86_399), "23:59:59");
}

#[test]
fn log_buffer_keeps_the_last_entries() {
    let mut b = LogBuffer::new();
    for i in 0..501u32 {
        b.push(format_time(i as u64), "INFO", &format!("m{}", i));
    }
    let all = b.get_all();
    assert_eq!(all.len(), 500);
    assert_eq!(all[0].message, "m1");
    assert_eq!(all[499].message, "m500");
    assert_eq!(all[499].timestamp, "00:08:20");
    let recent = b.get_recent(2);
    assert_eq!(recent.len(), 2);
    assert_eq!(recent[0].message, "m499");
    assert_eq!(b.get_recent(1000).len(), 500);
    b.clear();
    assert!(b.get_all().is_empty());
}

#[test]
fn log_items_and_console_lines() {
    let e = LogEntry { timestamp: "00:00:01".to_string(), level: "WARN".to_string(), message: "m".to_string() };
    let c = e.copy();
    let item = LogItem::from(e);
    assert_eq!(item.level, "WARN");
    assert_eq!(item.message, c.message);
    match console_line("WARN", "slow") {
        Some((ConsoleStream::Stdout, l)) => assert_eq!(l, "[警告] slow"),
        _ => panic!("expected standard output"),
    }
    match console_line("ERROR", "bad") {
        Some((ConsoleStream::Stderr, l)) => assert_eq!(l, "[错误] bad"),
        _ => panic!("expected standard error"),
    }
    assert!(console_line("DEBUG", "x").is_none());
    match console_line("OTHER", "y") {
        Some((ConsoleStream::Stdout, l)) => assert_eq!(l, "y"),
        _ => panic!("expected standard output"),
    }
}

#[test]
fn tls_detection_and_target() {
    assert!(is_tls(&[0x16, 0x03, 0x01]));
    assert!(!is_tls(&[b'G']));
    assert!(!is_tls(&[]));
    let b = SocketAddr { ip: IpAddr::V6(9), port: 1, scope_id: 4 };
    assert_eq!(forward_target(b, &[0x16], 443, 80), SocketAddr { ip: IpAddr::V6(9), port: 443, scope_id: 0 });
    assert_eq!(forward_target(b, b"GET", 443, 80), SocketAddr { ip: IpAddr::V6(9), port: 80, scope_id: 0 });
}

#[test]
fn limiter_permits() {
    let l = ConcurrencyLimiter::new(4);
    assert_eq!(l.max_concurrent(), 4);
    assert_eq!(l.semaphore.available_permits(), 4);
    assert_eq!(init_global_limiter(16).semaphore.available_permits(), 16);
}

#[test]
fn generator_steps() {
    assert_eq!(lcg_random(0), LCG_C);
    assert_eq!(lcg_random(1), LCG_A.wrapping_add(LCG_C));
    assert_eq!(lcg_random(u64::MAX), 0u64.wrapping_sub(LCG_A).wrapping_add(LCG_C));
}

#[test]
fn session_cache_remembers_for_a_while() {
    let mut c = SessionCache::new();
    let client = IpAddr::V4(1);
    let a = SocketAddr { ip: IpAddr::V4(100), port: 443, scope_id: 0 };
    let b = SocketAddr { ip: IpAddr::V4(101), port: 443, scope_id: 0 };
    assert_eq!(c.get(client, 0), None);
    c.put(client, a, 1_000);
    assert_eq!(c.get(client, 1_000), Some(a));
    assert_eq!(c.get(client, 30_000_000_999), Some(a));
    assert_eq!(c.get(client, 30_000_001_000), None);
    c.put(client, b, 2_000);
    assert_eq!(c.entries.len(), 1);
    assert_eq!(c.get(client, 2_000), Some(b));
    assert_eq!(c.get(IpAddr::V4(2), 2_000), None);
}

#[test]
fn full_session_cache_overwrites_in_turn() {
    let mut c = SessionCache::new();
    let a = SocketAddr { ip: IpAddr::V4(100), port: 443, scope_id: 0 };
    for i in 0..(SESSION_CACHE_SIZE as u32 + 2) {
        c.put(IpAddr::V4(1000 + i), a, 5);
    }
    assert_eq!(c.entries.len(), SESSION_CACHE_SIZE);
    assert_eq!(c.cursor, 2);
    assert_eq!(c.get(IpAddr::V4(1000), 5), None);
    assert_eq!(c.get(IpAddr::V4(1000 + SESSION_CACHE_SIZE as u32), 5), Some(a));
    assert_eq!(c.entries[1].client, IpAddr::V4(1000 + SESSION_CACHE_SIZE as u32 + 1));
}

#[test]
fn cyclic_and_random_picks() {
    let removed = vec![true, false, true, false];
    assert_eq!(select_round_robin(&removed, 0), Some(1));
    assert_eq!(select_round_robin(&removed, 2), Some(3));
    assert_eq!(select_round_robin(&removed, usize::MAX), Some(3));
    assert_eq!(select_round_robin(&vec![true, true], 0), None);
    assert_eq!(select_round_robin(&vec![], 5), None);
    assert_eq!(select_power_of_two(&vec![], 1, 2), None);
    assert!(matches!(select_power_of_two(&removed, 0, 2), Some(PickPair::Two(1, 3))));
    assert!(matches!(select_power_of_two(&vec![false, true, true, true, true], 0, 1), Some(PickPair::One(0))));
    assert!(matches!(
        select_power_of_two(&vec![true, true, true, true, false], 0, 0),
        Some(PickPair::Fallback(Some(4)))
    ));
    assert!(matches!(select_power_of_two(&vec![true; 5], 0, 0), Some(PickPair::Fallback(None))));
}

#[test]
fn probe_urls() {
    let (_, host, scheme, path) = parse_url("https://speed.cloudflare.com/__down?bytes=0").unwrap();
    assert_eq!(host, "speed.cloudflare.com");
    assert_eq!(scheme, "https");
    assert_eq!(path, "/__down");
    let (_, host, scheme, path) = parse_url("http://1.2.3.4").unwrap();
    assert_eq!(host, "1.2.3.4");
    assert_eq!(scheme, "http");
    assert_eq!(path, "/");
    let (_, _, scheme, _) = parse_url("ftp://h/x").unwrap();
    assert_eq!(scheme, "http");
    assert!(parse_url("example.com").is_none());
    assert!(parse_url("not a url").is_none());
    assert_eq!(ConnectorService::new(1800).timeout_ms, 1800);
    assert!(EmptyBody.is_end_stream());
}

#[test]
fn data_centers() {
    assert_eq!(extract_colo(Some("8a2b3c4d5e6f7a8b-HKG")), Some("HKG".to_string()));
    assert_eq!(extract_colo(Some("plain")), Some("plain".to_string()));
    assert_eq!(extract_colo(Some("a-")), Some("".to_string()));
    assert_eq!(extract_colo(None), None);
    let filter = vec!["hkg".to_string(), "LAX".to_string()];
    assert!(colo_matches(&filter, "HKG"));
    assert!(colo_matches(&filter, "lax"));
    assert!(!colo_matches(&filter, "SJC"));
}

#[test]
fn probe_tally() {
    let filter = Some(vec!["LAX".to_string()]);
    let mut t = PingTally::new();
    assert!(!t.record_success(Some("HKG".to_string()), &filter));
    assert!(t.colo_mismatch);
    assert!(!t.record_success(Some("LAX".to_string()), &filter));
    assert_eq!(t.success_count, 2);
    let mut u = PingTally::new();
    assert!(u.record_success(Some("lax".to_string()), &filter));
    assert_eq!(u.colo, Some("lax".to_string()));
    let mut v = PingTally::new();
    assert!(!v.record_success(None, &filter));
    let mut w = PingTally::new();
    assert!(w.record_success(None, &None));
}

#[test]
fn probe_ports() {
    let mut p = PingConfig {
        tls_port: 443,
        http_port: 80,
        host: "h".to_string(),
        scheme: "https".to_string(),
        path: "/".to_string(),
        timeout_ms: 1,
        colo_filter: None,
    };
    assert_eq!(p.port(), 443);
    p.scheme = "http".to_string();
    assert_eq!(p.port(), 80);
}

#[test]
fn tuning_constants() {
    let c = Config::new();
    assert_eq!(c.sample_window, 50);
    assert_eq!(c.evict_threshold, 20);
    assert_eq!(c.health_check_interval_ms, 25_000);
    assert_eq!(c.max_sticky_slots, 5);
}
