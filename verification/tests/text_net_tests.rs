use cfnat::net::{parse_ip_addr, parse_socket_addr, IpAddr, SocketAddr};
use cfnat::text::{chars_of, parse_unsigned_chars, trim_chars};

#[test]
fn ipv4_addresses() {
    assert_eq!(parse_ip_addr("192.168.1.1"), Some(IpAddr::V4(0xc0a8_0101)));
    assert_eq!(parse_ip_addr("0.0.0.0"), Some(IpAddr::V4(0)));
    assert_eq!(parse_ip_addr("255.255.255.255"), Some(IpAddr::V4(0xffff_ffff)));
    assert_eq!(parse_ip_addr("1.2.3"), None);
    assert_eq!(parse_ip_addr("1.2.3.4.5"), None);
    assert_eq!(parse_ip_addr("01.2.3.4"), None);
    assert_eq!(parse_ip_addr("256.1.1.1"), None);
    assert_eq!(parse_ip_addr(" 1.2.3.4"), None);
}

#[test]
fn ipv6_addresses() {
    assert_eq!(parse_ip_addr("::1"), Some(IpAddr::V6(1)));
    assert_eq!(parse_ip_addr("::"), Some(IpAddr::V6(0)));
    assert_eq!(parse_ip_addr("2606:4700::"), Some(IpAddr::V6(0x2606_4700u128 << 96)));
    assert_eq!(parse_ip_addr("::ffff:1.2.3.4"), Some(IpAddr::V6(0xffff_0102_0304)));
    assert_eq!(parse_ip_addr("1:2:3:4:5:6:7:8"), Some(IpAddr::V6(0x0001_0002_0003_0004_0005_0006_0007_0008)));
    assert_eq!(parse_ip_addr("1::2::3"), None);
    assert_eq!(parse_ip_addr("12345::"), None);
}

#[test]
fn socket_addresses() {
    assert_eq!(
        parse_socket_addr("127.0.0.1:8080"),
        Some(SocketAddr { ip: IpAddr::V4(0x7f00_0001), port: 8080, scope_id: 0 })
    );
    assert_eq!(parse_socket_addr("[::1]:443"), Some(SocketAddr { ip: IpAddr::V6(1), port: 443, scope_id: 0 }));
    assert_eq!(
        parse_socket_addr("[fe80::1%2]:80"),
        Some(SocketAddr { ip: IpAddr::V6(0xfe80u128 << 112 | 1), port: 80, scope_id: 2 })
    );
    assert_eq!(parse_socket_addr("1.2.3.4"), None);
    assert_eq!(parse_socket_addr("1.2.3.4:65536"), None);
    assert_eq!(parse_socket_addr("::1:80"), None);
}

#[test]
fn unsigned_numbers() {
    assert_eq!(parse_unsigned_chars(&chars_of("42"), 100), Some(42));
    assert_eq!(parse_unsigned_chars(&chars_of("+42"), 100), Some(42));
    assert_eq!(parse_unsigned_chars(&chars_of("101"), 100), None);
    assert_eq!(parse_unsigned_chars(&chars_of("+"), 100), None);
    assert_eq!(parse_unsigned_chars(&chars_of(""), 100), None);
    assert_eq!(parse_unsigned_chars(&chars_of("-1"), 100), None);
    assert_eq!(parse_unsigned_chars(&chars_of("1 "), 100), None);
}

#[test]
fn trimming_unicode_whitespace() {
    assert_eq!(trim_chars(&chars_of("\u{3000} a b\t\n")), chars_of("a b"));
    assert_eq!(trim_chars(&chars_of("   ")), Vec::<char>::new());
}

#[test]
fn leading_zeros_where_the_grammar_allows_them() {
    assert_eq!(parse_socket_addr("1.2.3.4:080"), Some(SocketAddr { ip: IpAddr::V4(0x0102_0304), port: 80, scope_id: 0 }));
    assert_eq!(parse_socket_addr("[::1]:0443"), Some(SocketAddr { ip: IpAddr::V6(1), port: 443, scope_id: 0 }));
    assert_eq!(parse_socket_addr("[::1%01]:1"), Some(SocketAddr { ip: IpAddr::V6(1), port: 1, scope_id: 1 }));
    assert_eq!(parse_ip_addr("0001::"), Some(IpAddr::V6(1u128 << 112)));
    assert_eq!(parse_ip_addr("00001::"), None);
    assert_eq!(parse_ip_addr("1.02.3.4"), None);
    assert_eq!(parse_ip_addr("1.0.3.4"), Some(IpAddr::V4(0x0100_0304)));
    assert_eq!(parse_ip_addr("::1.2.3.4"), Some(IpAddr::V6(0x0102_0304)));
    assert_eq!(parse_ip_addr("1:2:3:4:5:6:1.2.3.4"), Some(IpAddr::V6(0x0001_0002_0003_0004_0005_0006_0102_0304)));
    assert_eq!(parse_ip_addr("1:2:3:4:5:6:7::"), Some(IpAddr::V6(0x0001_0002_0003_0004_0005_0006_0007_0000)));
    assert_eq!(parse_ip_addr("1:2:3:4:5:6:7:8:9"), None);
    assert_eq!(parse_ip_addr("::1::"), None);
    assert_eq!(parse_ip_addr(":1"), None);
}
