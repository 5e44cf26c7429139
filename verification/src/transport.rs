//! The UDP transport's address handling: which nameserver address text
//! stands for which socket address.

use vstd::prelude::*;

use crate::ip::{
    ip_text, ipv4_char, ipv4_octets, ipv6_char, ipv6_segments, lemma_ipv4_octets_chars, lemma_ipv6_segments_chars,
    parse_ipv4, parse_ipv6,
};
use crate::text::{
    all_digits, chars_of, count_until, decimal, decimal_value, lemma_count_until, push_decimal, push_str,
    slice_chars,
};

verus! {

/// The **UDP transport**, which sends DNS wire data inside a UDP datagram.
pub struct UdpTransport {
    addr: String,
}

impl View for UdpTransport {
    type V = Seq<char>;

    /// The address of the host to connect to.
    closed spec fn view(&self) -> Seq<char> {
        self.addr@
    }
}

impl UdpTransport {
    /// Creates a new UDP transport that connects to the given host.
    pub fn new(addr: String) -> (t: Self)
        ensures
            t@ == addr@,
    {
        Self { addr }
    }

    /// The address of the host this transport connects to.
    pub fn addr(&self) -> (r: &str)
        ensures
            r@ == self@,
    {
        self.addr.as_str()
    }
}

/// The value of a decimal number as a port or scope identifier is read: one
/// digit or more, leading zeros allowed, at most `limit`.
pub open spec fn bounded_number(t: Seq<char>, limit: int) -> Option<int> {
    if t.len() >= 1 && all_digits(t) && decimal_value(t) <= limit {
        Some(decimal_value(t))
    } else {
        None
    }
}

/// A longer run of digits never denotes less.
proof fn lemma_decimal_value_grows(t: Seq<char>, i: int)
    requires
        0 <= i <= t.len(),
        all_digits(t),
    ensures
        decimal_value(t.take(i)) <= decimal_value(t),
    decreases t.len() - i,
{
    if i < t.len() {
        lemma_decimal_value_grows(t, i + 1);
        assert(t.take(i + 1).drop_last() =~= t.take(i));
        assert(t.take(i + 1).last() == t[i]);
        assert('0' <= t[i] <= '9');
        assert(all_digits(t.take(i))) by {
            assert forall|k: int| 0 <= k < t.take(i).len() implies '0' <= #[trigger] t.take(i)[k] <= '9' by {
                assert(t.take(i)[k] == t[k]);
            }
        }
        crate::text::lemma_decimal_value_nonneg(t.take(i));
    } else {
        assert(t.take(i) =~= t);
    }
}

/// Reads a decimal number of any length that must not exceed `limit`.
pub fn parse_bounded_number(t: &Vec<char>, limit: u64) -> (r: Option<u64>)
    requires
        limit < 0x1_0000_0000,
    ensures
        match r {
            Some(v) => bounded_number(t@, limit as int) == Some(v as int),
            None => bounded_number(t@, limit as int) is None,
        },
{
    if t.len() == 0 {
        return None;
    }
    let mut v: u64 = 0;
    let mut i: usize = 0;
    while i < t.len()
        invariant
            i <= t.len(),
            limit < 0x1_0000_0000,
            all_digits(t@.take(i as int)),
            v == decimal_value(t@.take(i as int)),
            v <= limit,
        decreases t.len() - i,
    {
        let c = t[i];
        if !('0' <= c && c <= '9') {
            assert(!all_digits(t@));
            return None;
        }
        let d: u64 = (c as u64) - 48;
        assert(t@.take(i + 1).drop_last() =~= t@.take(i as int));
        assert(all_digits(t@.take(i + 1)));
        let next = v * 10 + d;
        if next > limit {
            proof {
                if all_digits(t@) {
                    lemma_decimal_value_grows(t@, i + 1);
                }
            }
            return None;
        }
        v = next;
        i += 1;
    }
    assert(t@.take(t.len() as int) =~= t@);
    Some(v)
}

/// The parts of a socket address, as `SocketAddr` holds them.
pub enum SocketAddrParts {
    /// An IPv4 address and a port.
    V4 { octets: Vec<u8>, port: u16 },
    /// An IPv6 address, a port and a scope identifier.
    V6 { segments: Vec<u16>, port: u16, scope_id: u32 },
}

/// The plain-value model of `SocketAddrParts`.
pub enum SocketAddrModel {
    V4(Seq<u8>, u16),
    V6(Seq<u16>, u16, u32),
}

impl SocketAddrParts {
    /// The plain-value model of these parts.
    pub open spec fn model(&self) -> SocketAddrModel {
        match self {
            SocketAddrParts::V4 { octets, port } => SocketAddrModel::V4(octets@, *port),
            SocketAddrParts::V6 { segments, port, scope_id } => SocketAddrModel::V6(segments@, *port, *scope_id),
        }
    }
}

/// The address family of a socket: IPv4 or IPv6.
#[derive(Clone, Copy, Debug, PartialEq, Eq, Structural)]
pub enum SocketFamily {
    V4,
    V6,
}

/// The family that a socket address belongs to.
pub open spec fn family_of(a: SocketAddrModel) -> SocketFamily {
    match a {
        SocketAddrModel::V4(..) => SocketFamily::V4,
        SocketAddrModel::V6(..) => SocketFamily::V6,
    }
}

/// The order in which the UDP transport binds a local socket to reach
/// `target`: first in the target's own family, and, should that bind fail, in
/// the other one.
pub fn bind_order(target: &SocketAddrParts) -> (r: (SocketFamily, SocketFamily))
    ensures
        r.0 == family_of(target.model()),
        r.1 != r.0,
{
    match target {
        SocketAddrParts::V4 { .. } => (SocketFamily::V4, SocketFamily::V6),
        SocketAddrParts::V6 { .. } => (SocketFamily::V6, SocketFamily::V4),
    }
}

/// The model of an optional socket address.
pub open spec fn opt_model(o: Option<SocketAddrParts>) -> Option<SocketAddrModel> {
    match o {
        Some(p) => Some(p.model()),
        None => None,
    }
}

/// The socket address that `s` denotes, as `SocketAddr` reads it: an IPv4
/// address, `:` and a port; or `[`, an IPv6 address, optionally `%` and a scope
/// identifier, `]`, `:` and a port.
pub open spec fn socket_addr_of(s: Seq<char>) -> Option<SocketAddrModel> {
    if s.len() > 0 && s[0] == '[' {
        let inner = s.skip(1);
        let close = count_until(inner, ']');
        let bracketed = inner.take(close as int);
        let after = inner.skip((close + 1) as int);
        let pct = count_until(bracketed, '%');
        let ip = bracketed.take(pct as int);
        let scope = if pct < bracketed.len() {
            bounded_number(bracketed.skip((pct + 1) as int), 0xffff_ffff)
        } else {
            Some(0)
        };
        if close < inner.len() && after.len() >= 1 && after[0] == ':' && ipv6_segments(ip) is Some
            && scope is Some && bounded_number(after.skip(1), 0xffff) is Some {
            Some(SocketAddrModel::V6(ipv6_segments(ip)->0, bounded_number(after.skip(1), 0xffff)->0 as u16, scope->0 as u32))
        } else {
            None
        }
    } else {
        let colon = count_until(s, ':');
        let ip = s.take(colon as int);
        if colon < s.len() && ipv4_octets(ip) is Some && bounded_number(s.skip((colon + 1) as int), 0xffff) is Some {
            Some(SocketAddrModel::V4(ipv4_octets(ip)->0, bounded_number(s.skip((colon + 1) as int), 0xffff)->0 as u16))
        } else {
            None
        }
    }
}

/// Reads a socket address.
pub fn parse_socket_addr(s: &str) -> (r: Option<SocketAddrParts>)
    ensures
        opt_model(r) == socket_addr_of(s@),
{
    let cs = chars_of(s);
    if cs.len() > 0 && cs[0] == '[' {
        let inner = slice_chars(&cs, 1, cs.len());
        assert(inner@ =~= s@.skip(1));
        assert(inner@.skip(0) =~= inner@);
        let close = crate::text::count_until_from(&inner, 0, ']');
        if close >= inner.len() {
            return None;
        }
        let bracketed = slice_chars(&inner, 0, close);
        let after = slice_chars(&inner, close + 1, inner.len());
        assert(bracketed@ =~= inner@.take(close as int));
        assert(after@ =~= inner@.skip(close + 1));
        assert(bracketed@.skip(0) =~= bracketed@);
        let pct = crate::text::count_until_from(&bracketed, 0, '%');
        let ip = slice_chars(&bracketed, 0, pct);
        assert(ip@ =~= bracketed@.take(pct as int));
        let scope = if pct < bracketed.len() {
            let digits = slice_chars(&bracketed, pct + 1, bracketed.len());
            assert(digits@ =~= bracketed@.skip(pct + 1));
            parse_bounded_number(&digits, 0xffff_ffff)
        } else {
            Some(0)
        };
        if after.len() >= 1 && after[0] == ':' {
            let port_digits = slice_chars(&after, 1, after.len());
            assert(port_digits@ =~= after@.skip(1));
            match (parse_ipv6(&ip), scope, parse_bounded_number(&port_digits, 0xffff)) {
                (Some(g), Some(sc), Some(p)) => Some(SocketAddrParts::V6 { segments: g, port: p as u16, scope_id: sc as u32 }),
                _ => None,
            }
        } else {
            None
        }
    } else {
        assert(cs@.skip(0) =~= cs@);
        let colon = crate::text::count_until_from(&cs, 0, ':');
        if colon >= cs.len() {
            return None;
        }
        let ip = slice_chars(&cs, 0, colon);
        let port_digits = slice_chars(&cs, colon + 1, cs.len());
        assert(ip@ =~= s@.take(colon as int));
        assert(port_digits@ =~= s@.skip(colon + 1));
        match (parse_ipv4(&ip), parse_bounded_number(&port_digits, 0xffff)) {
            (Some(o), Some(p)) => Some(SocketAddrParts::V4 { octets: o, port: p as u16 }),
            _ => None,
        }
    }
}

/// The address with brackets and the port, as an IPv6 address without
/// brackets must be written to name a socket.
pub open spec fn bracketed_candidate(addr: Seq<char>, port: u16) -> Seq<char> {
    seq!['['] + addr + seq![']', ':'] + decimal(port as nat)
}

/// The address followed by `:` and the port.
pub open spec fn with_port_candidate(addr: Seq<char>, port: u16) -> Seq<char> {
    addr + seq![':'] + decimal(port as nat)
}

/// The socket address that a nameserver address written as text stands for,
/// without asking the system to resolve a host name: the text itself when it
/// is a socket address; else, when it holds a `:`, the text in brackets with
/// the default port; else the text with the default port.
pub open spec fn literal_socket_addr(addr: Seq<char>, port: u16) -> Option<SocketAddrModel> {
    match socket_addr_of(addr) {
        Some(a) => Some(a),
        None => match (if addr.contains(':') {
            socket_addr_of(bracketed_candidate(addr, port))
        } else {
            None
        }) {
            Some(a) => Some(a),
            None => socket_addr_of(with_port_candidate(addr, port)),
        },
    }
}

/// Resolves an address string (with optional explicit port) into the parts of
/// a socket address: IPv4, bracketed IPv6 and bare IPv6 addresses are
/// understood; `None` means the text is no address, so that the system must be
/// asked to resolve it as a host name.
pub fn resolve_socket_addr(addr: &str, default_port: u16) -> (r: Option<SocketAddrParts>)
    ensures
        opt_model(r) == literal_socket_addr(addr@, default_port),
{
    match parse_socket_addr(addr) {
        Some(a) => {
            return Some(a);
        },
        None => {},
    }
    let cs = chars_of(addr);
    assert(cs@.skip(0) =~= cs@);
    let colon = crate::text::count_until_from(&cs, 0, ':');
    proof {
        lemma_count_until(cs@, ':');
        if colon < cs.len() {
            assert(cs@[colon as int] == ':');
        } else {
            assert(!cs@.contains(':'));
        }
    }
    if colon < cs.len() {
        let mut bracketed = String::new();
        bracketed.push('[');
        push_str(&mut bracketed, addr);
        bracketed.push(']');
        bracketed.push(':');
        push_decimal(&mut bracketed, default_port as u64);
        assert(bracketed@ =~= bracketed_candidate(addr@, default_port));
        match parse_socket_addr(bracketed.as_str()) {
            Some(a) => {
                return Some(a);
            },
            None => {},
        }
    }
    let mut with_port = String::new();
    push_str(&mut with_port, addr);
    with_port.push(':');
    push_decimal(&mut with_port, default_port as u64);
    assert(with_port@ =~= with_port_candidate(addr@, default_port));
    parse_socket_addr(with_port.as_str())
}

/// The decimal text of a port reads back as that port.
proof fn lemma_port_round_trip(port: u16)
    ensures
        bounded_number(decimal(port as nat), 0xffff) == Some(port as int),
{
    crate::text::lemma_decimal_round_trip(port as nat);
}

/// The text of an IPv4 address, followed by `:` and the default port, names
/// that address and port.
proof fn lemma_ipv4_with_port(t: Seq<char>, port: u16)
    requires
        ipv4_octets(t) is Some,
    ensures
        socket_addr_of(with_port_candidate(t, port)) == Some(SocketAddrModel::V4(ipv4_octets(t)->0, port)),
{
    let dec = decimal(port as nat);
    lemma_port_round_trip(port);
    lemma_ipv4_octets_chars(t);
    assert(ipv4_char(t[0]));
    assert(!t.contains(':')) by {
        if t.contains(':') {
            let k = choose|k: int| 0 <= k < t.len() && t[k] == ':';
            assert(ipv4_char(t[k]));
        }
    }
    let w = with_port_candidate(t, port);
    crate::ip::lemma_count_until_concat(t, seq![':'] + dec, ':');
    assert(w =~= t + (seq![':'] + dec));
    assert(w[0] == t[0]);
    assert(count_until(seq![':'] + dec, ':') == 0);
    assert(w.take(t.len() as int) =~= t);
    assert(w.skip((t.len() + 1) as int) =~= dec);
}

/// The text of an IPv6 address, in brackets and followed by `:` and the
/// default port, names that address and port, with no scope.
proof fn lemma_ipv6_bracketed(t: Seq<char>, port: u16)
    requires
        ipv6_segments(t) is Some,
    ensures
        socket_addr_of(bracketed_candidate(t, port)) == Some(SocketAddrModel::V6(ipv6_segments(t)->0, port, 0)),
{
    let dec = decimal(port as nat);
    lemma_port_round_trip(port);
    lemma_ipv6_segments_chars(t);
    assert(!t.contains(']') && !t.contains('%')) by {
        if t.contains(']') || t.contains('%') {
            let k = choose|k: int| 0 <= k < t.len() && (t[k] == ']' || t[k] == '%');
            assert(ipv6_char(t[k]));
        }
    }
    let b = bracketed_candidate(t, port);
    let inner = b.skip(1);
    assert(inner =~= t + (seq![']', ':'] + dec));
    crate::ip::lemma_count_until_concat(t, seq![']', ':'] + dec, ']');
    assert(count_until(seq![']', ':'] + dec, ']') == 0);
    assert(inner.take(t.len() as int) =~= t);
    let after = inner.skip((t.len() + 1) as int);
    assert(after =~= seq![':'] + dec);
    assert(after.skip(1) =~= dec);
    crate::ip::lemma_count_until_concat(t, Seq::empty(), '%');
    assert(t + Seq::<char>::empty() =~= t);
    assert(t.take(t.len() as int) =~= t);
}

/// Every IP address written as text, in any form that the IP parser accepts,
/// stands for a literal socket address with the default port, and no host
/// name is looked up: an IPv4 address gives that address and port, an IPv6
/// address, with or without brackets, that address and port with no scope.
pub proof fn ip_text_is_socket_address(s: Seq<char>, port: u16)
    requires
        ip_text(s) is Some,
    ensures
        literal_socket_addr(s, port) == match ipv4_octets(s) {
            Some(o) => Some(SocketAddrModel::V4(o, port)),
            None => Some(SocketAddrModel::V6(ipv6_segments(s)->0, port, 0)),
        },
{
    let colon = count_until(s, ':');
    lemma_count_until(s, ':');
    match ipv4_octets(s) {
        Some(o) => {
            lemma_ipv4_octets_chars(s);
            assert(ipv4_char(s[0]));
            assert(!s.contains(':')) by {
                if s.contains(':') {
                    let k = choose|k: int| 0 <= k < s.len() && s[k] == ':';
                    assert(ipv4_char(s[k]));
                }
            }
            if colon < s.len() {
                assert(s[colon as int] == ':');
            }
            assert(socket_addr_of(s) is None);
            lemma_ipv4_with_port(s, port);
        },
        None => {
            lemma_ipv6_segments_chars(s);
            assert(ipv6_char(s[0]));
            assert(socket_addr_of(s) is None);
            lemma_ipv6_bracketed(s, port);
        },
    }
}

/// A socket address written out in full, an IP address with its port (an
/// IPv6 address in brackets), stands for that address and that port, whatever
/// the default port: the default applies only where no port is written.
pub proof fn written_port_is_kept(ip: Seq<char>, port: u16, default_port: u16)
    requires
        ip_text(ip) is Some,
    ensures
        ipv4_octets(ip) is Some ==> literal_socket_addr(ip + seq![':'] + decimal(port as nat), default_port) == Some(
            SocketAddrModel::V4(ipv4_octets(ip)->0, port),
        ),
        ipv4_octets(ip) is None ==> literal_socket_addr(
            seq!['['] + ip + seq![']', ':'] + decimal(port as nat),
            default_port,
        ) == Some(SocketAddrModel::V6(ipv6_segments(ip)->0, port, 0)),
{
    if ipv4_octets(ip) is Some {
        lemma_ipv4_with_port(ip, port);
        assert(with_port_candidate(ip, port) == ip + seq![':'] + decimal(port as nat));
    } else {
        lemma_ipv6_bracketed(ip, port);
        assert(bracketed_candidate(ip, port) == seq!['['] + ip + seq![']', ':'] + decimal(port as nat));
    }
}

/// The characters that the text of a socket address is written with: hex
/// digits, `:`, `.`, the brackets and `%`.
pub open spec fn socket_text_char(c: char) -> bool {
    ipv6_char(c) || c == '[' || c == ']' || c == '%'
}

/// The text of a socket address is written with those characters only.
proof fn lemma_socket_addr_chars(x: Seq<char>)
    requires
        socket_addr_of(x) is Some,
    ensures
        forall|k: int| 0 <= k < x.len() ==> socket_text_char(#[trigger] x[k]),
{
    if x.len() > 0 && x[0] == '[' {
        let inner = x.skip(1);
        let close = count_until(inner, ']');
        lemma_count_until(inner, ']');
        let bracketed = inner.take(close as int);
        let after = inner.skip((close + 1) as int);
        let pct = count_until(bracketed, '%');
        lemma_count_until(bracketed, '%');
        let ip = bracketed.take(pct as int);
        lemma_ipv6_segments_chars(ip);
        let port = after.skip(1);
        assert(all_digits(port));
        if pct < bracketed.len() {
            assert(all_digits(bracketed.skip((pct + 1) as int)));
        }
        assert forall|k: int| 0 <= k < x.len() implies socket_text_char(#[trigger] x[k]) by {
            if k > 0 {
                let i = k - 1;
                assert(x[k] == inner[i]);
                if i < close {
                    assert(inner[i] == bracketed[i]);
                    if i < pct {
                        assert(bracketed[i] == ip[i]);
                        assert(ipv6_char(ip[i]));
                    } else if i > pct {
                        assert(bracketed[i] == bracketed.skip((pct + 1) as int)[i - pct - 1]);
                        assert('0' <= bracketed.skip((pct + 1) as int)[i - pct - 1] <= '9');
                    }
                } else if i > close {
                    assert(inner[i] == after[i - close - 1]);
                    if i - close - 1 > 0 {
                        assert(after[i - close - 1] == port[i - close - 2]);
                        assert('0' <= port[i - close - 2] <= '9');
                    }
                }
            }
        }
    } else {
        let colon = count_until(x, ':');
        lemma_count_until(x, ':');
        let ip = x.take(colon as int);
        let port = x.skip((colon + 1) as int);
        lemma_ipv4_octets_chars(ip);
        assert(all_digits(port));
        assert forall|k: int| 0 <= k < x.len() implies socket_text_char(#[trigger] x[k]) by {
            if k < colon {
                assert(x[k] == ip[k]);
                assert(ipv4_char(ip[k]));
            } else if k > colon {
                assert(x[k] == port[k - colon - 1]);
                assert('0' <= port[k - colon - 1] <= '9');
            }
        }
    }
}

/// A text with a character that no socket address is written with, as a host
/// name has, is no literal socket address: the system must be asked to
/// resolve it.
pub proof fn host_name_is_no_literal_address(addr: Seq<char>, port: u16, k: int)
    requires
        0 <= k < addr.len(),
        !socket_text_char(addr[k]),
    ensures
        literal_socket_addr(addr, port) is None,
{
    if socket_addr_of(addr) is Some {
        lemma_socket_addr_chars(addr);
    }
    let b = bracketed_candidate(addr, port);
    if socket_addr_of(b) is Some {
        lemma_socket_addr_chars(b);
        assert(b[k + 1] == addr[k]);
    }
    let w = with_port_candidate(addr, port);
    if socket_addr_of(w) is Some {
        lemma_socket_addr_chars(w);
        assert(w[k] == addr[k]);
    }
}

/// No text that starts with `[` is an IPv6 address.
proof fn lemma_bracket_no_ipv6(t: Seq<char>)
    requires
        t.len() > 0,
        t[0] == '[',
    ensures
        ipv6_segments(t) is None,
{
    if ipv6_segments(t) is Some {
        lemma_ipv6_segments_chars(t);
        assert(ipv6_char(t[0]));
    }
}

/// An IPv6 address in brackets without a port, as a nameserver may be
/// written, stands for that address with the default port and no scope.
pub proof fn bracketed_ipv6_gets_the_default_port(t: Seq<char>, port: u16)
    requires
        ipv6_segments(t) is Some,
    ensures
        literal_socket_addr(seq!['['] + t + seq![']'], port) == Some(
            SocketAddrModel::V6(ipv6_segments(t)->0, port, 0),
        ),
{
    let b = seq!['['] + t + seq![']'];
    let dec = decimal(port as nat);
    lemma_ipv6_segments_chars(t);
    assert(!t.contains(']') && !t.contains('%')) by {
        if t.contains(']') || t.contains('%') {
            let k = choose|k: int| 0 <= k < t.len() && (t[k] == ']' || t[k] == '%');
            assert(ipv6_char(t[k]));
        }
    }
    // The text itself has no port.
    let inner = b.skip(1);
    assert(inner =~= t + seq![']']);
    crate::ip::lemma_count_until_concat(t, seq![']'], ']');
    assert(count_until(seq![']'], ']') == 0);
    assert(inner.skip((t.len() + 1) as int).len() == 0);
    assert(socket_addr_of(b) is None);
    // In brackets once more it is no address.
    let ck = choose|k: int| 0 <= k < t.len() && t[k] == ':';
    assert(b[ck + 1] == ':');
    assert(b.contains(':'));
    let bb = bracketed_candidate(b, port);
    let inner2 = bb.skip(1);
    assert(inner2 =~= seq!['['] + t + (seq![']', ']', ':'] + dec));
    assert(!(seq!['['] + t).contains(']')) by {
        if (seq!['['] + t).contains(']') {
            let k = choose|k: int| 0 <= k < t.len() + 1 && (seq!['['] + t)[k] == ']';
            assert(k > 0);
            assert(t[k - 1] == ']');
        }
    }
    crate::ip::lemma_count_until_concat(seq!['['] + t, seq![']', ']', ':'] + dec, ']');
    assert(inner2 =~= (seq!['['] + t) + (seq![']', ']', ':'] + dec));
    assert(count_until(seq![']', ']', ':'] + dec, ']') == 0);
    let bracketed = inner2.take((t.len() + 1) as int);
    assert(bracketed =~= seq!['['] + t);
    let pct = count_until(bracketed, '%');
    lemma_count_until(bracketed, '%');
    assert(bracketed[0] == '[');
    assert(pct >= 1);
    let ip = bracketed.take(pct as int);
    assert(ip[0] == '[');
    lemma_bracket_no_ipv6(ip);
    assert(socket_addr_of(bb) is None);
    // With the port it is the address.
    assert(with_port_candidate(b, port) =~= bracketed_candidate(t, port));
    lemma_ipv6_bracketed(t, port);
}

/// Every IP address in canonical text, as the nameserver lookup gives them, is
/// a literal socket address for the UDP transport, whatever the default port.
pub proof fn canonical_ip_is_socket_address(s: Seq<char>, port: u16)
    requires
        ip_text(s) is Some,
    ensures
        literal_socket_addr(ip_text(s)->0, port) is Some,
{
    crate::ip::ip_text_is_canonical(s);
    ip_text_is_socket_address(ip_text(s)->0, port);
}

/// The fallback nameserver is a literal socket address for the UDP transport,
/// whatever the default port.
pub proof fn fallback_nameserver_is_socket_address(port: u16)
    ensures
        literal_socket_addr(crate::resolve::fallback_nameserver(), port) is Some,
{
    crate::resolve::fallback_is_canonical_ip();
    canonical_ip_is_socket_address(crate::resolve::fallback_nameserver(), port);
}

} // verus!
