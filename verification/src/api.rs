//! The control API's values: where it listens, the start request and the
//! overrides it brings, the settings it reports, and which embedded file a
//! path asks for.
use vstd::prelude::*;

use crate::backend::{clone_opt_string, opt_view};
use crate::net::{parse_socket_addr, spec_parse_socket_addr, SocketAddr};
use crate::service::{
    clone_opt_strings, default_api_addr, opt_strings_view, ConfigOverrides, OverridesView,
    ServiceConfig,
};
use crate::text::{after_last, chars_of, rfind_char, strip_leading, strip_leading_chars, string_of, sub_chars};

verus! {

/// Where the API listens.
pub struct ApiConfig {
    pub api_addr: SocketAddr,
}

impl Default for ApiConfig {
    /// `127.0.0.1:0`, a port that the system picks.
    fn default() -> (r: ApiConfig)
        ensures
            r.api_addr == default_api_addr(),
    {
        ApiConfig { api_addr: SocketAddr { ip: crate::net::IpAddr::V4(0x7f00_0001), port: 0, scope_id: 0 } }
    }
}

/// The content type of an embedded file, by the text after its last `.`.
pub open spec fn mime_of(path: Seq<char>) -> Seq<char> {
    let ext = after_last(path, '.');
    if ext == "js"@ {
        "application/javascript"@
    } else if ext == "wasm"@ {
        "application/wasm"@
    } else {
        "application/octet-stream"@
    }
}

/// The content type of an embedded file, as `mime_of` says.
pub fn get_mime_type(path: &str) -> (r: &'static str)
    ensures
        r@ == mime_of(path@),
{
    let cs = chars_of(path);
    let ext = match rfind_char(&cs, '.') {
        Some(k) => sub_chars(&cs, k + 1, cs.len()),
        None => cs,
    };
    if crate::hyper::eq_chars(&ext, &chars_of("js")) {
        "application/javascript"
    } else if crate::hyper::eq_chars(&ext, &chars_of("wasm")) {
        "application/wasm"
    } else {
        "application/octet-stream"
    }
}

/// What a request path asks of the embedded web files.
pub enum AssetRequest {
    /// The index page.
    Index,
    /// The file at this path.
    File(String),
}

/// The path of a request without its leading `/`s.
pub open spec fn asset_path(uri_path: Seq<char>) -> Seq<char> {
    strip_leading(uri_path, '/')
}

/// Whether a request path asks for the index page: nothing, or
/// `index.html`, after the leading `/`s.
pub open spec fn asks_index(uri_path: Seq<char>) -> bool {
    asset_path(uri_path).len() == 0 || asset_path(uri_path) == "index.html"@
}

/// What a request path asks of the embedded web files.
pub fn asset_request(uri_path: &str) -> (r: AssetRequest)
    ensures
        match r {
            AssetRequest::Index => asks_index(uri_path@),
            AssetRequest::File(f) => !asks_index(uri_path@) && f@ == asset_path(uri_path@),
        },
{
    let p = strip_leading_chars(&chars_of(uri_path), '/');
    if p.len() == 0 || crate::hyper::eq_chars(&p, &chars_of("index.html")) {
        AssetRequest::Index
    } else {
        AssetRequest::File(string_of(&p))
    }
}

/// A start request. The loss limit is the bit pattern of a real number.
pub struct StartRequest {
    pub ip_file: Option<String>,
    pub ip_content: Option<Vec<String>>,
    pub http: Option<String>,
    pub delay_limit: Option<u64>,
    pub tlr_bits: Option<u64>,
    pub ips: Option<usize>,
    pub threads: Option<usize>,
    pub tls_port: Option<u16>,
    pub http_port: Option<u16>,
    pub colo: Option<Vec<String>>,
    pub listen_addr: Option<SocketAddr>,
    pub max_sticky_slots: Option<usize>,
}

impl StartRequest {
    /// The settings that the request overrides, as values.
    pub open spec fn overrides_view(&self) -> OverridesView {
        OverridesView {
            ip_file: opt_view(self.ip_file),
            http: opt_view(self.http),
            delay_limit: self.delay_limit,
            tlr_bits: self.tlr_bits,
            ips: self.ips,
            threads: self.threads,
            tls_port: self.tls_port,
            http_port: self.http_port,
            colo: opt_strings_view(self.colo),
            listen_addr: self.listen_addr,
            max_sticky_slots: self.max_sticky_slots,
        }
    }
}

impl ConfigOverrides {
    /// The overrides that a start request brings, field by field.
    pub fn from_request(req: &StartRequest) -> (r: ConfigOverrides)
        ensures
            r.view() == req.overrides_view(),
            opt_strings_view(r.ip_content) == opt_strings_view(req.ip_content),
    {
        ConfigOverrides {
            ip_file: clone_opt_string(&req.ip_file),
            ip_content: clone_opt_strings(&req.ip_content),
            http: clone_opt_string(&req.http),
            delay_limit: req.delay_limit,
            tlr_bits: req.tlr_bits,
            ips: req.ips,
            threads: req.threads,
            tls_port: req.tls_port,
            http_port: req.http_port,
            colo: clone_opt_strings(&req.colo),
            listen_addr: req.listen_addr,
            max_sticky_slots: req.max_sticky_slots,
        }
    }
}

/// The settings as the API reports them. The loss limit is the bit pattern
/// of a real number.
pub struct ServerConfig {
    pub addr: SocketAddr,
    pub delay_limit: u64,
    pub tlr_bits: u64,
    pub ips: usize,
    pub threads: usize,
    pub tls_port: u16,
    pub http_port: u16,
    pub colo: Option<Vec<String>>,
    pub http: String,
    pub ip_file: String,
    pub max_sticky_slots: usize,
}

impl ServerConfig {
    /// The report of the settings `c`, field by field.
    pub fn from_config(c: ServiceConfig) -> (r: ServerConfig)
        ensures
            r.addr == c.listen_addr,
            r.delay_limit == c.delay_limit,
            r.tlr_bits == c.tlr_bits,
            r.ips == c.ips,
            r.threads == c.threads,
            r.tls_port == c.tls_port,
            r.http_port == c.http_port,
            r.colo == c.colo,
            r.http == c.http,
            r.ip_file == c.ip_file,
            r.max_sticky_slots == c.max_sticky_slots,
    {
        ServerConfig {
            addr: c.listen_addr,
            delay_limit: c.delay_limit,
            tlr_bits: c.tlr_bits,
            ips: c.ips,
            threads: c.threads,
            tls_port: c.tls_port,
            http_port: c.http_port,
            colo: c.colo,
            http: c.http,
            ip_file: c.ip_file,
            max_sticky_slots: c.max_sticky_slots,
        }
    }
}

/// `Some(v as usize)` of `Some(v)`.
pub open spec fn opt_as_usize(v: Option<i32>) -> Option<usize> {
    match v {
        Some(x) => Some(x as usize),
        None => None,
    }
}

/// `Some(v as u16)` of `Some(v)`.
pub open spec fn opt_as_u16(v: Option<i32>) -> Option<u16> {
    match v {
        Some(x) => Some(x as u16),
        None => None,
    }
}

fn map_usize(v: Option<i32>) -> (r: Option<usize>)
    ensures
        r == opt_as_usize(v),
{
    match v {
        Some(x) => Some(x as usize),
        None => None,
    }
}

fn map_u16(v: Option<i32>) -> (r: Option<u16>)
    ensures
        r == opt_as_u16(v),
{
    match v {
        Some(x) => Some(x as u16),
        None => None,
    }
}

/// The overrides of a start from the app's binding: its 32-bit numbers cast as
/// they are, its address read as a socket address and dropped when it does not
/// read.
pub fn build_overrides(
    ip_file: Option<String>,
    ip_content: Option<Vec<String>>,
    http: Option<String>,
    delay_limit: Option<u64>,
    tlr_bits: Option<u64>,
    ips: Option<i32>,
    threads: Option<i32>,
    tls_port: Option<i32>,
    http_port: Option<i32>,
    max_sticky_slots: Option<i32>,
    addr: Option<String>,
    colo: Option<Vec<String>>,
) -> (r: ConfigOverrides)
    ensures
        r.ip_file == ip_file,
        r.ip_content == ip_content,
        r.http == http,
        r.delay_limit == delay_limit,
        r.tlr_bits == tlr_bits,
        r.ips == opt_as_usize(ips),
        r.threads == opt_as_usize(threads),
        r.tls_port == opt_as_u16(tls_port),
        r.http_port == opt_as_u16(http_port),
        r.colo == colo,
        r.listen_addr == (match addr {
            Some(a) => spec_parse_socket_addr(a@),
            None => None,
        }),
        r.max_sticky_slots == opt_as_usize(max_sticky_slots),
{
    let listen_addr = match &addr {
        Some(a) => parse_socket_addr(a.as_str()),
        None => None,
    };
    ConfigOverrides {
        ip_file,
        ip_content,
        http,
        delay_limit,
        tlr_bits,
        ips: map_usize(ips),
        threads: map_usize(threads),
        tls_port: map_u16(tls_port),
        http_port: map_u16(http_port),
        colo,
        listen_addr,
        max_sticky_slots: map_usize(max_sticky_slots),
    }
}

} // verus!
