//! The forwarder's choice of where a client's connection goes: a TLS
//! handshake to the TLS port, anything else to the HTTP port.
use vstd::prelude::*;

use crate::net::SocketAddr;

verus! {

/// Whether the first bytes of a connection open a TLS handshake: a
/// handshake record begins with `0x16`.
pub open spec fn tls_first(buf: Seq<u8>) -> bool {
    buf.len() > 0 && buf[0] == 0x16
}

/// Whether the first bytes open a TLS handshake, as `tls_first` says.
pub fn is_tls(buf: &[u8]) -> (r: bool)
    ensures
        r == tls_first(buf@),
{
    buf.len() > 0 && buf[0] == 0x16
}

/// The port that a connection goes to on its backend.
pub open spec fn forward_port(buf: Seq<u8>, tls_port: u16, http_port: u16) -> u16 {
    if tls_first(buf) {
        tls_port
    } else {
        http_port
    }
}

/// Where a connection that began with `first` goes: the backend's address
/// at the TLS or the HTTP port.
pub fn forward_target(backend: SocketAddr, first: &[u8], tls_port: u16, http_port: u16) -> (r: SocketAddr)
    ensures
        r == (SocketAddr { ip: backend.ip, port: forward_port(first@, tls_port, http_port), scope_id: 0 }),
{
    let port = if is_tls(first) {
        tls_port
    } else {
        http_port
    };
    SocketAddr::new(backend.ip, port)
}

} // verus!
