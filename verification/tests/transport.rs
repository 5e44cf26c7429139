use dog::transport::{bind_order, parse_socket_addr, resolve_socket_addr, SocketAddrParts, SocketFamily, UdpTransport};

fn v4(p: Option<SocketAddrParts>) -> Option<(Vec<u8>, u16)> {
    match p {
        Some(SocketAddrParts::V4 { octets, port }) => Some((octets, port)),
        _ => None,
    }
}

fn v6(p: Option<SocketAddrParts>) -> Option<(Vec<u16>, u16, u32)> {
    match p {
        Some(SocketAddrParts::V6 { segments, port, scope_id }) => Some((segments, port, scope_id)),
        _ => None,
    }
}

#[test]
fn transport_keeps_address() {
    let t = UdpTransport::new("1.1.1.1".to_string());
    assert_eq!(t.addr(), "1.1.1.1");
}

#[test]
fn full_socket_addresses() {
    assert_eq!(v4(parse_socket_addr("1.2.3.4:53")), Some((vec![1, 2, 3, 4], 53)));
    assert_eq!(v4(parse_socket_addr("1.2.3.4:0053")), Some((vec![1, 2, 3, 4], 53)));
    assert_eq!(v6(parse_socket_addr("[::1]:853")), Some((vec![0, 0, 0, 0, 0, 0, 0, 1], 853, 0)));
    assert_eq!(v6(parse_socket_addr("[fe80::1%3]:53")), Some((vec![0xfe80, 0, 0, 0, 0, 0, 0, 1], 53, 3)));
    assert!(parse_socket_addr("1.2.3.4:65536").is_none());
    assert!(parse_socket_addr("1.2.3.4").is_none());
    assert!(parse_socket_addr("[::1]").is_none());
    assert!(parse_socket_addr("[::1]:").is_none());
    assert!(parse_socket_addr("::1:53").is_none());
    assert!(parse_socket_addr("[fe80::1%eth0]:53").is_none());
}

#[test]
fn resolve_uses_the_default_port() {
    assert_eq!(v4(resolve_socket_addr("1.2.3.4", 53)), Some((vec![1, 2, 3, 4], 53)));
    assert_eq!(v4(resolve_socket_addr("1.2.3.4:5353", 53)), Some((vec![1, 2, 3, 4], 5353)));
    assert_eq!(v6(resolve_socket_addr("fd12::1", 53)), Some((vec![0xfd12, 0, 0, 0, 0, 0, 0, 1], 53, 0)));
    assert_eq!(v6(resolve_socket_addr("[::1]:54", 53)), Some((vec![0, 0, 0, 0, 0, 0, 0, 1], 54, 0)));
    assert!(resolve_socket_addr("dns.example", 53).is_none());
    assert!(resolve_socket_addr("", 53).is_none());
}

#[test]
fn canonical_nameservers_are_socket_addresses() {
    for ns in ["1.1.1.1", "::1", "fe80::1", "::ffff:1.2.3.4", "2001:db8::ff00:42:8329"] {
        assert!(resolve_socket_addr(ns, 53).is_some(), "{}", ns);
    }
    assert_eq!(v6(resolve_socket_addr("::ffff:1.2.3.4", 53)), Some((vec![0, 0, 0, 0, 0, 0xffff, 0x0102, 0x0304], 53, 0)));
}

#[test]
fn bind_order_follows_target_family() {
    let v4 = SocketAddrParts::V4 { octets: vec![1, 1, 1, 1], port: 53 };
    assert_eq!(bind_order(&v4), (SocketFamily::V4, SocketFamily::V6));
    let v6 = SocketAddrParts::V6 { segments: vec![0xfe80, 0, 0, 0, 0, 0, 0, 1], port: 53, scope_id: 0 };
    assert_eq!(bind_order(&v6), (SocketFamily::V6, SocketFamily::V4));
}

#[test]
fn any_ip_text_gets_the_default_port() {
    assert_eq!(
        v6(resolve_socket_addr("2001:0DB8:0:0::1", 53)),
        Some((vec![0x2001, 0xdb8, 0, 0, 0, 0, 0, 1], 53, 0))
    );
    assert_eq!(
        v6(resolve_socket_addr("::ffff:192.0.2.1", 853)),
        Some((vec![0, 0, 0, 0, 0, 0xffff, 0xc000, 0x0201], 853, 0))
    );
    assert_eq!(v4(resolve_socket_addr("192.0.2.10", 5353)), Some((vec![192, 0, 2, 10], 5353)));
}
