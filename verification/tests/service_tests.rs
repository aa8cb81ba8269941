use cfnat::api::{
    asset_request, build_overrides, get_mime_type, ApiConfig, AssetRequest, ServerConfig, StartRequest,
};
use cfnat::balancer::LoadBalancer;
use cfnat::ip::IpPool;
use cfnat::net::{IpAddr, SocketAddr};
use cfnat::service::{
    gather_ip_lines, require_addresses, ApiResponse, ConfigOverrides, ServiceConfig, ServiceState,
    StatusResponse, DEFAULT_TLR_BITS,
};

fn strings(v: &[&str]) -> Vec<String> {
    v.iter().map(|s| s.to_string()).collect()
}

#[test]
fn default_settings() {
    let c = ServiceConfig::default();
    assert_eq!(c.ip_file, "ip.txt");
    assert_eq!(c.http, "http://cp.cloudflare.com/cdn-cgi/trace");
    assert_eq!(c.delay_limit, 500);
    assert_eq!(f64::from_bits(c.tlr_bits), 0.1);
    assert_eq!(c.tlr_bits, DEFAULT_TLR_BITS);
    assert_eq!((c.ips, c.threads, c.tls_port, c.http_port, c.max_sticky_slots), (10, 16, 443, 80, 5));
    assert_eq!(c.colo, None);
    assert_eq!(c.listen_addr, SocketAddr { ip: IpAddr::V4(0x7f06_0606), port: 1234, scope_id: 0 });
    assert_eq!(c.api_addr, SocketAddr { ip: IpAddr::V4(0x7f00_0001), port: 0, scope_id: 0 });
    assert_eq!(ApiConfig::default().api_addr, c.api_addr);
}

fn no_overrides() -> ConfigOverrides {
    ConfigOverrides {
        ip_file: None,
        ip_content: None,
        http: None,
        delay_limit: None,
        tlr_bits: None,
        ips: None,
        threads: None,
        tls_port: None,
        http_port: None,
        colo: None,
        listen_addr: None,
        max_sticky_slots: None,
    }
}

#[test]
fn overrides_replace_only_what_they_give() {
    let mut c = ServiceConfig::default();
    c.apply_overrides(&no_overrides());
    assert_eq!(c.ips, 10);
    let o = ConfigOverrides {
        ips: Some(3),
        colo: Some(strings(&["HKG"])),
        http: Some("http://x/".to_string()),
        ip_content: Some(strings(&["1.1.1.1"])),
        ..no_overrides()
    };
    c.apply_overrides(&o);
    assert_eq!(c.ips, 3);
    assert_eq!(c.colo, Some(strings(&["HKG"])));
    assert_eq!(c.http, "http://x/");
    assert_eq!(c.ip_file, "ip.txt");
    assert_eq!(c.threads, 16);
}

#[test]
fn address_lines_of_a_start() {
    let all = gather_ip_lines(Some(strings(&[" 1.1.1.1 ", "", "\t"])), Some(strings(&[" 2.2.2.2"])));
    assert_eq!(all, strings(&["1.1.1.1", " 2.2.2.2"]));
    assert!(gather_ip_lines(None, None).is_empty());
}

#[test]
fn start_and_stop_rules() {
    let mut s = ServiceState::new();
    assert!(!s.is_running());
    assert_eq!(s.get_uptime_secs(5000), 0);
    assert_eq!(s.stop(), Err("服务未运行".to_string()));
    assert_eq!(s.check_can_start(), Ok(()));
    s.mark_started(1000);
    assert!(s.is_running());
    assert_eq!(s.check_can_start(), Err("服务已在运行".to_string()));
    assert_eq!(s.get_uptime_secs(62_500), 61);
    assert_eq!(s.get_uptime_secs(500), 0);
    assert_eq!(s.stop(), Ok(()));
    assert!(!s.is_running());
    assert_eq!(s.get_uptime_secs(62_500), 0);
    let mut c = s.get_config();
    c.ips = 7;
    s.update_config(c);
    assert_eq!(s.get_config().ips, 7);
}

#[test]
fn pools_without_addresses_are_refused() {
    assert_eq!(require_addresses(&IpPool::new(&strings(&["x"]))), Err("未找到有效的 IP".to_string()));
    assert_eq!(require_addresses(&IpPool::new(&strings(&["1.2.3.4"]))), Ok(()));
}

#[test]
fn probe_host_of_the_url() {
    let c = ServiceConfig::default();
    assert_eq!(c.probe_host(), Ok("cp.cloudflare.com".to_string()));
    let mut d = ServiceConfig::default();
    d.http = "/no/host".to_string();
    assert_eq!(d.probe_host(), Err("URL 解析失败".to_string()));
    d.http = "http://a b".to_string();
    assert_eq!(d.probe_host(), Err("URL 解析失败".to_string()));
}

#[test]
fn balancer_of_a_start() {
    let mut c = ServiceConfig::default();
    c.colo = Some(strings(&["LAX"]));
    c.tls_port = 2053;
    let lb = c.build_balancer(7, 9, 77);
    assert_eq!(lb.primary_target, 10);
    assert_eq!(lb.backup_target, 5);
    assert_eq!(lb.delay_threshold_bits, 7);
    assert_eq!(lb.loss_threshold_bits, 9);
    assert_eq!(lb.tls_port, 2053);
    assert_eq!(lb.http_port, 80);
    assert_eq!(lb.timeout_ms, 1800);
    assert_eq!(lb.health_check_url, c.http);
    assert_eq!(lb.colo_filter, Some(strings(&["LAX"])));
    assert_eq!(lb.max_sticky_slots, 5);
    assert_eq!(lb.next_health_check_ms, 77);
}

#[test]
fn status_reports() {
    let e = StatusResponse::empty(false, 0);
    assert_eq!(e.health_check_interval, 25);
    assert!(e.primary_ips.is_empty());
    let mut lb = LoadBalancer::new(1, 0);
    lb.try_add_backend(SocketAddr { ip: IpAddr::V4(5), port: 1, scope_id: 0 }, 42, Some("SJC".to_string()), 0);
    lb.try_add_backend(SocketAddr { ip: IpAddr::V4(6), port: 1, scope_id: 0 }, 43, None, 0);
    lb.set_next_health_check_ms(10_500);
    let s = StatusResponse::from_loadbalancer(&lb, true, 12, 1000);
    assert!(s.running);
    assert_eq!(s.uptime_secs, 12);
    assert_eq!(s.next_health_check, 9);
    assert_eq!((s.primary_count, s.primary_target, s.backup_count, s.backup_target), (1, 1, 1, 2));
    assert_eq!(s.primary_ips[0].ip, IpAddr::V4(5));
    assert_eq!(s.primary_ips[0].delay_bits, 42);
    assert_eq!(s.primary_ips[0].colo, Some("SJC".to_string()));
    assert_eq!(s.backup_ips[0].ip, IpAddr::V4(6));
}

#[test]
fn api_answers() {
    let a = ApiResponse::from_result(Ok(()), "服务已启动");
    assert!(a.success);
    assert_eq!(a.message, "服务已启动");
    let b = ApiResponse::from_result(Err("服务未运行".to_string()), "x");
    assert!(!b.success);
    assert_eq!(b.message, "服务未运行");
}

#[test]
fn content_types() {
    assert_eq!(get_mime_type("main.dart.js"), "application/javascript");
    assert_eq!(get_mime_type("assets/a.wasm"), "application/wasm");
    assert_eq!(get_mime_type("index.html"), "application/octet-stream");
    assert_eq!(get_mime_type("js"), "application/javascript");
    assert_eq!(get_mime_type("x.JS"), "application/octet-stream");
}

#[test]
fn asset_paths() {
    assert!(matches!(asset_request("/"), AssetRequest::Index));
    assert!(matches!(asset_request(""), AssetRequest::Index));
    assert!(matches!(asset_request("//index.html"), AssetRequest::Index));
    match asset_request("//assets/x.js") {
        AssetRequest::File(f) => assert_eq!(f, "assets/x.js"),
        AssetRequest::Index => panic!("not the index"),
    }
}

#[test]
fn start_request_overrides() {
    let req = StartRequest {
        ip_file: None,
        ip_content: Some(strings(&["1.1.1.1"])),
        http: None,
        delay_limit: Some(250),
        tlr_bits: Some(0.5f64.to_bits()),
        ips: Some(4),
        threads: None,
        tls_port: None,
        http_port: Some(8080),
        colo: None,
        listen_addr: None,
        max_sticky_slots: None,
    };
    let o = ConfigOverrides::from_request(&req);
    assert_eq!(o.delay_limit, Some(250));
    assert_eq!(o.tlr_bits, Some(0.5f64.to_bits()));
    assert_eq!(o.ips, Some(4));
    assert_eq!(o.http_port, Some(8080));
    assert_eq!(o.ip_content, Some(strings(&["1.1.1.1"])));
    let sc = ServerConfig::from_config(ServiceConfig::default());
    assert_eq!(sc.addr, SocketAddr { ip: IpAddr::V4(0x7f06_0606), port: 1234, scope_id: 0 });
    assert_eq!(sc.ip_file, "ip.txt");
}

#[test]
fn binding_overrides_cast_and_parse() {
    let o = build_overrides(
        None,
        None,
        None,
        None,
        None,
        Some(-1),
        Some(8),
        Some(70_000),
        None,
        Some(2),
        Some("127.0.0.1:99".to_string()),
        None,
    );
    assert_eq!(o.ips, Some(usize::MAX));
    assert_eq!(o.threads, Some(8));
    assert_eq!(o.tls_port, Some(70_000u32 as u16));
    assert_eq!(o.max_sticky_slots, Some(2));
    assert_eq!(o.listen_addr, Some(SocketAddr { ip: IpAddr::V4(0x7f00_0001), port: 99, scope_id: 0 }));
    let p = build_overrides(None, None, None, None, None, None, None, None, None, None, Some("bad".to_string()), None);
    assert_eq!(p.listen_addr, None);
}
