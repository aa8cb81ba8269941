//! The service's settings, the overrides that a start request brings, the
//! running state with its start and stop rules, and the status report.
//!
//! The loss limit is a real number; the settings hold its bit pattern.
use vstd::prelude::*;

use crate::backend::opt_view;
use crate::balancer::{backup_target_for, LoadBalancer};
use crate::hyper::{parse_url, uri_components};
use crate::ip::IpPool;
use crate::config::HEALTH_CHECK_INTERVAL_MS;
use crate::net::{IpAddr, SocketAddr};
use crate::text::{chars_of, string_of, trim, trim_chars};

verus! {

broadcast use vstd::seq_lib::group_seq_properties;

/// The bit pattern of the default loss limit, 0.1.
pub const DEFAULT_TLR_BITS: u64 = 0x3fb9_9999_9999_999a;

/// The service's settings.
pub struct ServiceConfig {
    pub ip_file: String,
    pub http: String,
    pub delay_limit: u64,
    pub tlr_bits: u64,
    pub ips: usize,
    pub threads: usize,
    pub tls_port: u16,
    pub http_port: u16,
    pub colo: Option<Vec<String>>,
    pub listen_addr: SocketAddr,
    pub api_addr: SocketAddr,
    pub max_sticky_slots: usize,
}

/// The settings as values.
pub struct ConfigView {
    pub ip_file: Seq<char>,
    pub http: Seq<char>,
    pub delay_limit: u64,
    pub tlr_bits: u64,
    pub ips: usize,
    pub threads: usize,
    pub tls_port: u16,
    pub http_port: u16,
    pub colo: Option<Seq<Seq<char>>>,
    pub listen_addr: SocketAddr,
    pub api_addr: SocketAddr,
    pub max_sticky_slots: usize,
}

/// The views of a list of strings.
pub open spec fn strings_view(v: Seq<String>) -> Seq<Seq<char>> {
    v.map_values(|s: String| s@)
}

/// The view of an optional list of strings.
pub open spec fn opt_strings_view(v: Option<Vec<String>>) -> Option<Seq<Seq<char>>> {
    match v {
        Some(l) => Some(strings_view(l@)),
        None => None,
    }
}

/// A copy of a list of strings.
pub fn clone_strings(v: &Vec<String>) -> (r: Vec<String>)
    ensures
        strings_view(r@) == strings_view(v@),
{
    let mut r: Vec<String> = Vec::new();
    let mut i: usize = 0;
    while i < v.len()
        invariant
            i <= v.len(),
            strings_view(r@) =~= strings_view(v@.take(i as int)),
        decreases v.len() - i,
    {
        let ghost r0 = r@;
        let c = v[i].clone();
        r.push(c);
        i = i + 1;
        proof {
            assert(r@ =~= r0.push(c));
            assert(v@.take(i as int) =~= v@.take(i - 1).push(v@[i - 1]));
            assert(strings_view(r@) =~= strings_view(r0).push(c@));
            assert(strings_view(v@.take(i as int)) =~= strings_view(v@.take(i - 1)).push(v@[i - 1]@));
        }
    }
    proof {
        assert(v@.take(v.len() as int) =~= v@);
    }
    r
}

/// A copy of an optional list of strings.
pub fn clone_opt_strings(v: &Option<Vec<String>>) -> (r: Option<Vec<String>>)
    ensures
        opt_strings_view(r) == opt_strings_view(*v),
{
    match v {
        Some(l) => Some(clone_strings(l)),
        None => None,
    }
}

/// `127.6.6.6:1234`.
pub open spec fn default_listen_addr() -> SocketAddr {
    SocketAddr { ip: IpAddr::V4(0x7f06_0606), port: 1234, scope_id: 0 }
}

/// `127.0.0.1:0`.
pub open spec fn default_api_addr() -> SocketAddr {
    SocketAddr { ip: IpAddr::V4(0x7f00_0001), port: 0, scope_id: 0 }
}

/// The default settings as values.
pub open spec fn default_config_view() -> ConfigView {
    ConfigView {
        ip_file: "ip.txt"@,
        http: "http://cp.cloudflare.com/cdn-cgi/trace"@,
        delay_limit: 500,
        tlr_bits: DEFAULT_TLR_BITS,
        ips: 10,
        threads: 16,
        tls_port: 443,
        http_port: 80,
        colo: None,
        listen_addr: default_listen_addr(),
        api_addr: default_api_addr(),
        max_sticky_slots: 5,
    }
}

impl ServiceConfig {
    pub open spec fn view(&self) -> ConfigView {
        ConfigView {
            ip_file: self.ip_file@,
            http: self.http@,
            delay_limit: self.delay_limit,
            tlr_bits: self.tlr_bits,
            ips: self.ips,
            threads: self.threads,
            tls_port: self.tls_port,
            http_port: self.http_port,
            colo: opt_strings_view(self.colo),
            listen_addr: self.listen_addr,
            api_addr: self.api_addr,
            max_sticky_slots: self.max_sticky_slots,
        }
    }

    /// The default settings: `ip.txt`, the Cloudflare trace URL, 500 ms, loss
    /// 0.1, 10 addresses, 16 probes at once, ports 443 and 80, no filter,
    /// listening on `127.6.6.6:1234`, the API on `127.0.0.1:0`, 5 sticky slots.
    pub fn default() -> (r: ServiceConfig)
        ensures
            r.view() == default_config_view(),
    {
        ServiceConfig {
            ip_file: String::from_str("ip.txt"),
            http: String::from_str("http://cp.cloudflare.com/cdn-cgi/trace"),
            delay_limit: 500,
            tlr_bits: DEFAULT_TLR_BITS,
            ips: 10,
            threads: 16,
            tls_port: 443,
            http_port: 80,
            colo: None,
            listen_addr: SocketAddr { ip: IpAddr::V4(0x7f06_0606), port: 1234, scope_id: 0 },
            api_addr: SocketAddr { ip: IpAddr::V4(0x7f00_0001), port: 0, scope_id: 0 },
            max_sticky_slots: 5,
        }
    }

    /// A copy of the settings.
    pub fn clone_config(&self) -> (r: ServiceConfig)
        ensures
            r.view() == self.view(),
    {
        ServiceConfig {
            ip_file: self.ip_file.clone(),
            http: self.http.clone(),
            delay_limit: self.delay_limit,
            tlr_bits: self.tlr_bits,
            ips: self.ips,
            threads: self.threads,
            tls_port: self.tls_port,
            http_port: self.http_port,
            colo: clone_opt_strings(&self.colo),
            listen_addr: self.listen_addr,
            api_addr: self.api_addr,
            max_sticky_slots: self.max_sticky_slots,
        }
    }

    /// Takes every setting that the overrides give; the address list content is
    /// not a setting.
    pub fn apply_overrides(&mut self, o: &ConfigOverrides)
        ensures
            final(self).view() == apply_overrides_view(old(self).view(), o.view()),
    {
        match &o.ip_file {
            Some(v) => {
                self.ip_file = v.clone();
            },
            None => {},
        }
        match &o.http {
            Some(v) => {
                self.http = v.clone();
            },
            None => {},
        }
        match o.delay_limit {
            Some(v) => {
                self.delay_limit = v;
            },
            None => {},
        }
        match o.tlr_bits {
            Some(v) => {
                self.tlr_bits = v;
            },
            None => {},
        }
        match o.ips {
            Some(v) => {
                self.ips = v;
            },
            None => {},
        }
        match o.threads {
            Some(v) => {
                self.threads = v;
            },
            None => {},
        }
        match o.tls_port {
            Some(v) => {
                self.tls_port = v;
            },
            None => {},
        }
        match o.http_port {
            Some(v) => {
                self.http_port = v;
            },
            None => {},
        }
        match &o.colo {
            Some(v) => {
                self.colo = Some(clone_strings(v));
            },
            None => {},
        }
        match o.listen_addr {
            Some(v) => {
                self.listen_addr = v;
            },
            None => {},
        }
        match o.max_sticky_slots {
            Some(v) => {
                self.max_sticky_slots = v;
            },
            None => {},
        }
    }
}

/// The settings that a start request overrides, and the address list it
/// may bring.
pub struct ConfigOverrides {
    pub ip_file: Option<String>,
    pub ip_content: Option<Vec<String>>,
    pub http: Option<String>,
    pub delay_limit: Option<u64>,
    pub tlr_bits: Option<u64>,
    pub ips: Option<usize>,
    pub threads: Option<usize>,
    pub tls_port: Option<u16>,
    pub http_port: Option<u16>,
    pub colo: Option<Vec<String>>,
    pub listen_addr: Option<SocketAddr>,
    pub max_sticky_slots: Option<usize>,
}

/// The overrides as values.
pub struct OverridesView {
    pub ip_file: Option<Seq<char>>,
    pub http: Option<Seq<char>>,
    pub delay_limit: Option<u64>,
    pub tlr_bits: Option<u64>,
    pub ips: Option<usize>,
    pub threads: Option<usize>,
    pub tls_port: Option<u16>,
    pub http_port: Option<u16>,
    pub colo: Option<Seq<Seq<char>>>,
    pub listen_addr: Option<SocketAddr>,
    pub max_sticky_slots: Option<usize>,
}

impl ConfigOverrides {
    pub open spec fn view(&self) -> OverridesView {
        OverridesView {
            ip_file: opt_view(self.ip_file),
            http: opt_view(self.http),
            delay_limit: self.delay_limit,
            tlr_bits: self.tlr_bits,
            ips: self.ips,
            threads: self.threads,
            tls_port: self.tls_port,
            http_port: self.http_port,
            colo: opt_strings_view(self.colo),
            listen_addr: self.listen_addr,
            max_sticky_slots: self.max_sticky_slots,
        }
    }
}

/// `o` when given, else `d`.
pub open spec fn or_keep<T>(o: Option<T>, d: T) -> T {
    match o {
        Some(v) => v,
        None => d,
    }
}

/// The settings after the overrides.
pub open spec fn apply_overrides_view(c: ConfigView, o: OverridesView) -> ConfigView {
    ConfigView {
        ip_file: or_keep(o.ip_file, c.ip_file),
        http: or_keep(o.http, c.http),
        delay_limit: or_keep(o.delay_limit, c.delay_limit),
        tlr_bits: or_keep(o.tlr_bits, c.tlr_bits),
        ips: or_keep(o.ips, c.ips),
        threads: or_keep(o.threads, c.threads),
        tls_port: or_keep(o.tls_port, c.tls_port),
        http_port: or_keep(o.http_port, c.http_port),
        colo: match o.colo {
            Some(v) => Some(v),
            None => c.colo,
        },
        listen_addr: or_keep(o.listen_addr, c.listen_addr),
        api_addr: c.api_addr,
        max_sticky_slots: or_keep(o.max_sticky_slots, c.max_sticky_slots),
    }
}

/// No override keeps the settings as they are.
pub proof fn law_no_overrides_keep(c: ConfigView)
    ensures
        apply_overrides_view(
            c,
            OverridesView {
                ip_file: None,
                http: None,
                delay_limit: None,
                tlr_bits: None,
                ips: None,
                threads: None,
                tls_port: None,
                http_port: None,
                colo: None,
                listen_addr: None,
                max_sticky_slots: None,
            },
        ) == c,
{
}

/// The lines of an address list read from a file: each line trimmed, blank
/// ones dropped.
pub open spec fn file_lines_view(lines: Seq<String>) -> Seq<Seq<char>>
    decreases lines.len(),
{
    if lines.len() == 0 {
        Seq::empty()
    } else {
        let rest = file_lines_view(lines.drop_last());
        let t = trim(lines.last()@);
        if t.len() == 0 {
            rest
        } else {
            rest.push(t)
        }
    }
}

/// The address list of a start request: the file's lines, trimmed and
/// without blank ones, then the request's own lines as they are.
pub fn gather_ip_lines(file_lines: Option<Vec<String>>, content: Option<Vec<String>>) -> (r: Vec<String>)
    ensures
        strings_view(r@) == (match file_lines {
            Some(l) => file_lines_view(l@),
            None => Seq::empty(),
        }) + (match content {
            Some(c) => strings_view(c@),
            None => Seq::empty(),
        }),
{
    let mut all: Vec<String> = Vec::new();
    let ghost head: Seq<Seq<char>> = Seq::empty();
    match &file_lines {
        Some(lines) => {
            let mut i: usize = 0;
            while i < lines.len()
                invariant
                    i <= lines.len(),
                    strings_view(all@) =~= file_lines_view(lines@.take(i as int)),
                decreases lines.len() - i,
            {
                let cs = chars_of(lines[i].as_str());
                let t = trim_chars(&cs);
                proof {
                    assert(lines@.take(i + 1).drop_last() =~= lines@.take(i as int));
                }
                if t.len() > 0 {
                    all.push(string_of(&t));
                }
                i = i + 1;
            }
            proof {
                assert(lines@.take(lines.len() as int) =~= lines@);
                head = file_lines_view(lines@);
            }
        },
        None => {},
    }
    match &content {
        Some(c) => {
            let ghost a0 = all@;
            let mut j: usize = 0;
            while j < c.len()
                invariant
                    j <= c.len(),
                    strings_view(all@) =~= head + strings_view(c@.take(j as int)),
                decreases c.len() - j,
            {
                let ghost a1 = all@;
                let x = c[j].clone();
                all.push(x);
                j = j + 1;
                proof {
                    assert(all@ =~= a1.push(x));
                    assert(c@.take(j as int) =~= c@.take(j - 1).push(c@[j - 1]));
                    assert(strings_view(all@) =~= strings_view(a1).push(x@));
                    assert(strings_view(c@.take(j as int)) =~= strings_view(c@.take(j - 1)).push(c@[j - 1]@));
                }
            }
            proof {
                assert(c@.take(c.len() as int) =~= c@);
            }
        },
        None => {},
    }
    all
}

/// The running state: whether the service runs, its settings, and when it
/// started (monotonic clock, ms).
pub struct ServiceState {
    pub running: bool,
    pub config: ServiceConfig,
    pub start_time_ms: Option<u64>,
}

/// The refusal of a start while running.
pub open spec fn already_running_msg() -> Seq<char> {
    "服务已在运行"@
}

/// The refusal of a start without addresses.
pub open spec fn no_ips_msg() -> Seq<char> {
    "未找到有效的 IP"@
}

/// The refusal of a start with a URL that does not parse.
pub open spec fn bad_url_msg() -> Seq<char> {
    "URL 解析失败"@
}

/// The refusal of a stop while stopped.
pub open spec fn not_running_msg() -> Seq<char> {
    "服务未运行"@
}

impl ServiceState {
    /// Stopped, with the default settings.
    pub fn new() -> (r: ServiceState)
        ensures
            !r.running,
            r.config.view() == default_config_view(),
            r.start_time_ms is None,
    {
        ServiceState { running: false, config: ServiceConfig::default(), start_time_ms: None }
    }

    /// Whether the service runs.
    pub fn is_running(&self) -> (r: bool)
        ensures
            r == self.running,
    {
        self.running
    }

    /// A copy of the settings.
    pub fn get_config(&self) -> (r: ServiceConfig)
        ensures
            r.view() == self.config.view(),
    {
        self.config.clone_config()
    }

    /// Replaces the settings.
    pub fn update_config(&mut self, new_config: ServiceConfig)
        ensures
            final(self).config == new_config,
            final(self).running == old(self).running,
            final(self).start_time_ms == old(self).start_time_ms,
    {
        self.config = new_config;
    }

    /// Whole seconds since the start, 0 when stopped.
    pub fn get_uptime_secs(&self, now_ms: u64) -> (r: u64)
        ensures
            r == (match self.start_time_ms {
                Some(t) => if now_ms >= t {
                    ((now_ms - t) / 1000) as u64
                } else {
                    0
                },
                None => 0,
            }),
    {
        match self.start_time_ms {
            Some(t) => now_ms.saturating_sub(t) / 1000,
            None => 0,
        }
    }

    /// Whether a start may begin: not while running.
    pub fn check_can_start(&self) -> (r: Result<(), String>)
        ensures
            self.running ==> (r matches Err(e) && e@ == already_running_msg()),
            !self.running ==> r is Ok,
    {
        if self.running {
            return Err(String::from_str("服务已在运行"));
        }
        Ok(())
    }

    /// Records a start at `now_ms`, once everything is set up.
    pub fn mark_started(&mut self, now_ms: u64)
        ensures
            final(self).running,
            final(self).start_time_ms == Some(now_ms),
            final(self).config == old(self).config,
    {
        self.running = true;
        self.start_time_ms = Some(now_ms);
    }

    /// Stops the service: refused when stopped.
    pub fn stop(&mut self) -> (r: Result<(), String>)
        ensures
            old(self).running ==> r is Ok && !final(self).running && final(self).start_time_ms is None,
            !old(self).running ==> (r matches Err(e) && e@ == not_running_msg() && final(self).running == old(self).running)
                && final(self).start_time_ms == old(self).start_time_ms,
            final(self).config == old(self).config,
    {
        if !self.running {
            return Err(String::from_str("服务未运行"));
        }
        self.running = false;
        self.start_time_ms = None;
        Ok(())
    }
}

/// A queued address with its measurements, for the status report. The
/// delay and loss are the bit patterns of the backend's means.
pub struct IpInfo {
    pub ip: IpAddr,
    pub delay_bits: u32,
    pub loss_bits: u32,
    pub samples: usize,
    pub colo: Option<String>,
}

/// The status report.
pub struct StatusResponse {
    pub running: bool,
    pub uptime_secs: u64,
    pub next_health_check: u64,
    pub health_check_interval: u64,
    pub primary_count: usize,
    pub primary_target: usize,
    pub backup_count: usize,
    pub backup_target: usize,
    pub sticky_ips: Vec<IpAddr>,
    pub primary_ips: Vec<IpInfo>,
    pub backup_ips: Vec<IpInfo>,
}

/// Whether `infos` describes the backends `q`, in order.
pub open spec fn describes(infos: Seq<IpInfo>, q: Seq<usize>, lb: LoadBalancer) -> bool {
    &&& infos.len() == q.len()
    &&& forall|i: int| 0 <= i < q.len() ==> {
        let b = lb.backends@[q[i] as int];
        &&& (#[trigger] infos[i]).ip == b.addr.ip
        &&& infos[i].delay_bits == b.avg_delay_bits
        &&& infos[i].loss_bits == b.avg_loss_bits
        &&& infos[i].samples == b.sample_count
        &&& opt_view(infos[i].colo) == opt_view(b.colo)
    }
}

fn infos_of(lb: &LoadBalancer, primary: bool) -> (r: Vec<IpInfo>)
    requires
        lb.wf(),
    ensures
        describes(r@, if primary { lb.primary@ } else { lb.backup@ }, *lb),
{
    let q = if primary {
        &lb.primary
    } else {
        &lb.backup
    };
    let mut r: Vec<IpInfo> = Vec::new();
    let mut i: usize = 0;
    while i < q.len()
        invariant
            lb.wf(),
            q@ == (if primary { lb.primary@ } else { lb.backup@ }),
            i <= q.len(),
            r@.len() == i,
            forall|k: int| 0 <= k < i ==> {
                let b = lb.backends@[q@[k] as int];
                &&& (#[trigger] r@[k]).ip == b.addr.ip
                &&& r@[k].delay_bits == b.avg_delay_bits
                &&& r@[k].loss_bits == b.avg_loss_bits
                &&& r@[k].samples == b.sample_count
                &&& opt_view(r@[k].colo) == opt_view(b.colo)
            },
        decreases q.len() - i,
    {
        let id = q[i];
        proof {
            assert(lb.queued(id));
        }
        let b = &lb.backends[id];
        r.push(IpInfo {
            ip: b.addr.ip,
            delay_bits: b.avg_delay_bits,
            loss_bits: b.avg_loss_bits,
            samples: b.sample_count,
            colo: crate::backend::clone_opt_string(&b.colo),
        });
        i = i + 1;
    }
    r
}

impl StatusResponse {
    /// The report of a stopped service, or one without a balancer.
    pub fn empty(running: bool, uptime_secs: u64) -> (r: StatusResponse)
        ensures
            r.running == running,
            r.uptime_secs == uptime_secs,
            r.next_health_check == 0,
            r.health_check_interval == HEALTH_CHECK_INTERVAL_MS / 1000,
            r.primary_count == 0 && r.primary_target == 0,
            r.backup_count == 0 && r.backup_target == 0,
            r.sticky_ips@.len() == 0 && r.primary_ips@.len() == 0 && r.backup_ips@.len() == 0,
    {
        StatusResponse {
            running,
            uptime_secs,
            next_health_check: 0,
            health_check_interval: HEALTH_CHECK_INTERVAL_MS / 1000,
            primary_count: 0,
            primary_target: 0,
            backup_count: 0,
            backup_target: 0,
            sticky_ips: Vec::new(),
            primary_ips: Vec::new(),
            backup_ips: Vec::new(),
        }
    }

    /// The report of a balancer, with the running flag and the uptime.
    pub fn from_loadbalancer(lb: &LoadBalancer, running: bool, uptime_secs: u64, now_ms: u64) -> (r: StatusResponse)
        requires
            lb.wf(),
        ensures
            r.running == running,
            r.uptime_secs == uptime_secs,
            r.next_health_check == (if lb.next_health_check_ms > now_ms {
                ((lb.next_health_check_ms - now_ms) / 1000) as u64
            } else {
                0
            }),
            r.health_check_interval == HEALTH_CHECK_INTERVAL_MS / 1000,
            r.primary_count == lb.primary.len(),
            r.primary_target == lb.primary_target,
            r.backup_count == lb.backup.len(),
            r.backup_target == lb.backup_target,
            r.sticky_ips@.len() == lb.sticky_slots@.len(),
            forall|k: int| 0 <= k < r.sticky_ips@.len() ==> r.sticky_ips@[k] == lb.backends@[lb.sticky_slots@[k].backend as int].addr.ip,
            describes(r.primary_ips@, lb.primary@, *lb),
            describes(r.backup_ips@, lb.backup@, *lb),
    {
        StatusResponse {
            running,
            uptime_secs,
            next_health_check: lb.get_next_health_check_secs(now_ms),
            health_check_interval: HEALTH_CHECK_INTERVAL_MS / 1000,
            primary_count: lb.get_primary_count(),
            primary_target: lb.get_primary_target(),
            backup_count: lb.get_backup_count(),
            backup_target: lb.get_backup_target(),
            sticky_ips: lb.get_sticky_ips(),
            primary_ips: infos_of(lb, true),
            backup_ips: infos_of(lb, false),
        }
    }
}

/// The answer of an API call: whether it succeeded, and a message.
pub struct ApiResponse {
    pub success: bool,
    pub message: String,
}

impl ApiResponse {
    /// The answer to an outcome: success with `ok_message`, or failure with
    /// the error's message.
    pub fn from_result(r: Result<(), String>, ok_message: &str) -> (a: ApiResponse)
        ensures
            match r {
                Ok(()) => a.success && a.message@ == ok_message@,
                Err(e) => !a.success && a.message@ == e@,
            },
    {
        match r {
            Ok(()) => ApiResponse { success: true, message: String::from_str(ok_message) },
            Err(e) => ApiResponse { success: false, message: e },
        }
    }
}

impl ServiceConfig {
    /// The host that probes name, the first thing a start needs: refused
    /// when the probe URL gives no host and scheme.
    pub fn probe_host(&self) -> (r: Result<String, String>)
        ensures
            match r {
                Ok(h) => uri_components(self.http@) matches Some((Some(hh), Some(_), _)) && h@ == hh,
                Err(e) => !(uri_components(self.http@) matches Some((Some(_), Some(_), _)))
                    && e@ == bad_url_msg(),
            },
    {
        match parse_url(self.http.as_str()) {
            Some((_, host, _, _)) => Ok(host),
            None => Err(String::from_str("URL 解析失败")),
        }
    }

    /// The balancer that a start sets up from these settings: empty queues
    /// for `ips` backends, the
    /// probe URL, the ports, a 1800 ms probe timeout, the data-center filter
    /// and the sticky-slot limit. `delay_bits` and `loss_bits` are the bit
    /// patterns of the delay limit and the loss limit as 32-bit reals.
    pub fn build_balancer(&self, delay_bits: u32, loss_bits: u32, now_ms: u64) -> (r: LoadBalancer)
        ensures
            r.wf(),
            r.backends@.len() == 0,
            r.primary@.len() == 0,
            r.backup@.len() == 0,
            r.sticky_slots@.len() == 0,
            r.primary_target == self.ips,
            r.backup_target == backup_target_for(self.ips),
            r.min_active_target == self.ips / 2 + self.ips % 2,
            r.delay_threshold_bits == delay_bits,
            r.loss_threshold_bits == loss_bits,
            r.health_check_url@ == self.http@,
            r.tls_port == self.tls_port,
            r.http_port == self.http_port,
            r.timeout_ms == 1800,
            opt_strings_view(r.colo_filter) == opt_strings_view(self.colo),
            r.max_sticky_slots == self.max_sticky_slots,
            r.next_health_check_ms == now_ms,
            r.next_primary_health_check_ms == now_ms,
            r.last_expand_ms == now_ms,
    {
        LoadBalancer::new(self.ips, now_ms)
            .with_delay_threshold(delay_bits)
            .with_loss_threshold(loss_bits)
            .with_health_check_url(self.http.clone())
            .with_ports(self.tls_port, self.http_port)
            .with_timeout(1800)
            .with_colo_filter(clone_opt_strings(&self.colo))
            .with_max_sticky_slots(self.max_sticky_slots)
    }
}

/// Refuses an address pool that yields nothing, as a start from the
/// settings' address file does.
pub fn require_addresses(pool: &IpPool) -> (r: Result<(), String>)
    ensures
        r is Ok <==> pool.total_count > 0,
        r matches Err(e) ==> e@ == no_ips_msg(),
{
    if pool.total_count() == 0 {
        return Err(String::from_str("未找到有效的 IP"));
    }
    Ok(())
}

} // verus!
