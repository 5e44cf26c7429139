//! Parsing IP addresses from text and writing them back in canonical form,
//! following the grammar that `IpAddr`'s `FromStr` accepts and the text that
//! its `Display` writes.

use vstd::prelude::*;

use crate::text::{
    all_digits, count_until, decimal, decimal_value, digit_char, find, find_chars, lemma_count_until,
    push_decimal, slice_chars, starts_with,
};

verus! {

/// The pieces of `s` between the occurrences of `c`, as `str::split` gives
/// them; there is always at least one.
pub open spec fn split_on(s: Seq<char>, c: char) -> Seq<Seq<char>>
    decreases s.len(),
{
    let n = count_until(s, c);
    if n >= s.len() {
        seq![s]
    } else {
        seq![s.take(n as int)] + split_on(s.skip((n + 1) as int), c)
    }
}

/// Splits `s` at each occurrence of `c`.
pub fn split_chars(s: &Vec<char>, c: char) -> (r: Vec<Vec<char>>)
    ensures
        r@.map_values(|p: Vec<char>| p@) == split_on(s@, c),
        r@.len() >= 1,
{
    let mut r: Vec<Vec<char>> = Vec::new();
    let mut i: usize = 0;
    assert(s@.skip(0) =~= s@);
    loop
        invariant
            i <= s.len(),
            r@.map_values(|p: Vec<char>| p@) + split_on(s@.skip(i as int), c) == split_on(s@, c),
        decreases s.len() - i,
    {
        let ghost rest = s@.skip(i as int);
        let ghost old_r = r@.map_values(|p: Vec<char>| p@);
        let n = crate::text::count_until_from(s, i, c);
        proof {
            lemma_count_until(rest, c);
        }
        if i + n == s.len() {
            let piece = slice_chars(s, i, s.len());
            assert(piece@ =~= rest);
            r.push(piece);
            assert(r@.map_values(|p: Vec<char>| p@) =~= old_r.push(rest));
            assert(r@.map_values(|p: Vec<char>| p@) =~= split_on(s@, c));
            return r;
        }
        let piece = slice_chars(s, i, i + n);
        assert(piece@ =~= rest.take(n as int));
        r.push(piece);
        assert(r@.map_values(|p: Vec<char>| p@) =~= old_r.push(rest.take(n as int)));
        assert(rest.skip(n + 1) =~= s@.skip(i + n + 1));
        assert(r@.map_values(|p: Vec<char>| p@) + split_on(s@.skip(i + n + 1), c) =~= split_on(s@, c));
        i = i + n + 1;
    }
}

/// The value of a decimal octet as `Ipv4Addr` reads it: one to three digits,
/// no leading zero unless the octet is `0` itself, and at most 255.
pub open spec fn octet_of(t: Seq<char>) -> Option<u8> {
    if 1 <= t.len() <= 3 && all_digits(t) && (t.len() > 1 ==> t[0] != '0') && decimal_value(t) <= 255 {
        Some(decimal_value(t) as u8)
    } else {
        None
    }
}

/// The octets of an IPv4 address written as four decimal octets separated by dots.
pub open spec fn ipv4_octets(s: Seq<char>) -> Option<Seq<u8>> {
    let p = split_on(s, '.');
    if p.len() == 4 && octet_of(p[0]) is Some && octet_of(p[1]) is Some && octet_of(p[2]) is Some
        && octet_of(p[3]) is Some {
        Some(seq![octet_of(p[0])->0, octet_of(p[1])->0, octet_of(p[2])->0, octet_of(p[3])->0])
    } else {
        None
    }
}

/// Whether `c` is a hexadecimal digit, in either case.
pub open spec fn is_hex_digit(c: char) -> bool {
    ('0' <= c && c <= '9') || ('a' <= c && c <= 'f') || ('A' <= c && c <= 'F')
}

/// The value of a hexadecimal digit.
pub open spec fn hex_digit_value(c: char) -> int {
    if '0' <= c && c <= '9' {
        c as int - 48
    } else if 'a' <= c && c <= 'f' {
        c as int - 87
    } else {
        c as int - 55
    }
}

/// The number that a sequence of hexadecimal digits denotes.
pub open spec fn hex_value(s: Seq<char>) -> int
    decreases s.len(),
{
    if s.len() == 0 {
        0
    } else {
        hex_value(s.drop_last()) * 16 + hex_digit_value(s.last())
    }
}

/// The value of a group of an IPv6 address: one to four hexadecimal digits.
pub open spec fn hex_group_of(t: Seq<char>) -> Option<u16> {
    if 1 <= t.len() <= 4 && (forall|i: int| 0 <= i < t.len() ==> is_hex_digit(#[trigger] t[i])) {
        Some(hex_value(t) as u16)
    } else {
        None
    }
}

/// The 16-bit groups written by colon-separated pieces, each a hexadecimal
/// group; when `v4_last` holds, the last piece may instead be an IPv4 address,
/// which stands for two groups.
pub open spec fn groups_of(parts: Seq<Seq<char>>, v4_last: bool) -> Option<Seq<u16>>
    decreases parts.len(),
{
    if parts.len() == 0 {
        Some(seq![])
    } else {
        match groups_of(parts.drop_last(), false) {
            None => None,
            Some(front) => match hex_group_of(parts.last()) {
                Some(v) => Some(front.push(v)),
                None => if v4_last {
                    match ipv4_octets(parts.last()) {
                        Some(o) => Some(front + seq![
                            (o[0] as int * 256 + o[1] as int) as u16,
                            (o[2] as int * 256 + o[3] as int) as u16,
                        ]),
                        None => None,
                    }
                } else {
                    None
                },
            },
        }
    }
}

/// The groups of a part of an IPv6 address on one side of `::`; empty when the
/// part is.
pub open spec fn side_groups(t: Seq<char>, v4_last: bool) -> Option<Seq<u16>> {
    if t.len() == 0 {
        Some(seq![])
    } else {
        groups_of(split_on(t, ':'), v4_last)
    }
}

/// The eight groups of an IPv6 address, as `Ipv6Addr` reads it: eight groups,
/// the last two of which may be written as an IPv4 address; or, around one
/// `::` that stands for one or more zero groups, at most seven groups in all,
/// where only the last may be written as an IPv4 address.
pub open spec fn ipv6_segments(s: Seq<char>) -> Option<Seq<u16>> {
    match find(s, seq![':', ':']) {
        None => match groups_of(split_on(s, ':'), true) {
            Some(g) => if g.len() == 8 {
                Some(g)
            } else {
                None
            },
            None => None,
        },
        Some(p) => {
            let head = side_groups(s.take(p), false);
            let tail = side_groups(s.skip(p + 2), true);
            match (head, tail) {
                (Some(a), Some(b)) => if a.len() <= 7 && b.len() <= 7 - a.len() {
                    Some(a + Seq::new((8 - a.len() - b.len()) as nat, |i: int| 0u16) + b)
                } else {
                    None
                },
                _ => None,
            }
        },
    }
}

/// Whether every character of `s` satisfies `ok`.
pub open spec fn chars_all(s: Seq<char>, ok: spec_fn(char) -> bool) -> bool {
    forall|k: int| 0 <= k < s.len() ==> ok(#[trigger] s[k])
}

/// The characters that an IPv4 address is written with.
pub open spec fn ipv4_char(c: char) -> bool {
    ('0' <= c && c <= '9') || c == '.'
}

/// The characters that an IPv6 address is written with.
pub open spec fn ipv6_char(c: char) -> bool {
    is_hex_digit(c) || c == ':' || c == '.'
}

/// A text whose pieces between the separators are written with allowed
/// characters, the separator being one of them, is written with them too.
proof fn lemma_split_on_chars(s: Seq<char>, c: char, ok: spec_fn(char) -> bool)
    requires
        ok(c),
        forall|i: int| 0 <= i < split_on(s, c).len() ==> chars_all(#[trigger] split_on(s, c)[i], ok),
    ensures
        chars_all(s, ok),
    decreases s.len(),
{
    let n = count_until(s, c);
    lemma_count_until(s, c);
    let parts = split_on(s, c);
    if n < s.len() {
        let rest = s.skip((n + 1) as int);
        assert(parts =~= seq![s.take(n as int)] + split_on(rest, c));
        assert(chars_all(parts[0], ok));
        assert forall|i: int| 0 <= i < split_on(rest, c).len() implies chars_all(#[trigger] split_on(rest, c)[i], ok) by {
            assert(split_on(rest, c)[i] == parts[i + 1]);
        }
        lemma_split_on_chars(rest, c, ok);
        assert forall|k: int| 0 <= k < s.len() implies ok(#[trigger] s[k]) by {
            if k < n {
                assert(s.take(n as int)[k] == s[k]);
            } else if k > n {
                assert(rest[k - n - 1] == s[k]);
            }
        }
    } else {
        assert(chars_all(parts[0], ok));
    }
}

/// The text of an IPv4 address holds only digits and dots, and is not empty.
pub proof fn lemma_ipv4_octets_chars(s: Seq<char>)
    requires
        ipv4_octets(s) is Some,
    ensures
        s.len() > 0,
        chars_all(s, |c: char| ipv4_char(c)),
{
    let p = split_on(s, '.');
    let ok = |c: char| ipv4_char(c);
    if s.len() == 0 {
        assert(count_until(s, '.') >= s.len());
        assert(p.len() == 1);
    }
    assert forall|i: int| 0 <= i < p.len() implies chars_all(#[trigger] p[i], ok) by {
        assert(octet_of(p[i]) is Some) by {
            if i == 0 {
            } else if i == 1 {
            } else if i == 2 {
            } else {
            }
        }
        assert forall|k: int| 0 <= k < p[i].len() implies ok(#[trigger] p[i][k]) by {
            assert('0' <= p[i][k] <= '9');
        }
    }
    lemma_split_on_chars(s, '.', ok);
}

/// What a successful reading of groups tells of the parts it read: each is
/// written with the characters of IPv6 addresses; each part gives one group,
/// but for the last, which gives two when written as an IPv4 address; and the
/// first part is a group of hex digits unless it is the last that may be an
/// IPv4 address.
proof fn lemma_groups_of_parts(parts: Seq<Seq<char>>, v4_last: bool)
    requires
        groups_of(parts, v4_last) is Some,
    ensures
        forall|i: int| 0 <= i < parts.len() ==> chars_all(#[trigger] parts[i], |c: char| ipv6_char(c)),
        !v4_last ==> groups_of(parts, v4_last)->0.len() == parts.len(),
        parts.len() <= groups_of(parts, v4_last)->0.len() <= parts.len() + 1,
        parts.len() >= 2 || (parts.len() == 1 && !v4_last) ==> hex_group_of(parts[0]) is Some,
    decreases parts.len(),
{
    let ok = |c: char| ipv6_char(c);
    if parts.len() > 0 {
        let front = parts.drop_last();
        lemma_groups_of_parts(front, false);
        let last = parts.last();
        if hex_group_of(last) is Some {
            assert forall|k: int| 0 <= k < last.len() implies ok(#[trigger] last[k]) by {
                assert(is_hex_digit(last[k]));
            }
        } else {
            lemma_ipv4_octets_chars(last);
            assert forall|k: int| 0 <= k < last.len() implies ok(#[trigger] last[k]) by {
                assert(ipv4_char(last[k]));
            }
        }
        assert forall|i: int| 0 <= i < parts.len() implies chars_all(#[trigger] parts[i], ok) by {
            if i < parts.len() - 1 {
                assert(parts[i] == front[i]);
            }
        }
        if parts.len() >= 2 {
            assert(front[0] == parts[0]);
        }
    }
}

/// The text of a part on one side of `::` is written with the characters of
/// IPv6 addresses; the first of its pieces between colons, when it has any
/// and the IPv4 form is not allowed, is a group of hex digits.
proof fn lemma_side_groups_chars(t: Seq<char>, v4_last: bool)
    requires
        side_groups(t, v4_last) is Some,
    ensures
        chars_all(t, |c: char| ipv6_char(c)),
        t.len() > 0 && !v4_last ==> hex_group_of(split_on(t, ':')[0]) is Some,
{
    if t.len() > 0 {
        lemma_groups_of_parts(split_on(t, ':'), v4_last);
        lemma_split_on_chars(t, ':', |c: char| ipv6_char(c));
    }
}

/// A group of hex digits holds no dot.
proof fn lemma_hex_group_no_dot(t: Seq<char>)
    requires
        hex_group_of(t) is Some,
    ensures
        !t.contains('.'),
{
    if t.contains('.') {
        let k = choose|k: int| 0 <= k < t.len() && t[k] == '.';
        assert(is_hex_digit(t[k]));
    }
}

/// The text of an IPv6 address is written with hex digits, colons and dots;
/// it holds a colon, and what comes before its first colon is no IPv4 address.
pub proof fn lemma_ipv6_segments_chars(s: Seq<char>)
    requires
        ipv6_segments(s) is Some,
    ensures
        chars_all(s, |c: char| ipv6_char(c)),
        s.contains(':'),
        count_until(s, ':') < s.len(),
        ipv4_octets(s.take(count_until(s, ':') as int)) is None,
{
    let ok = |c: char| ipv6_char(c);
    let colon = count_until(s, ':');
    lemma_count_until(s, ':');
    let dc = seq![':', ':'];
    match find(s, dc) {
        None => {
            let parts = split_on(s, ':');
            lemma_groups_of_parts(parts, true);
            lemma_split_on_chars(s, ':', ok);
            if colon >= s.len() {
                assert(parts.len() == 1);
            }
            assert(parts[0] == s.take(colon as int));
            lemma_hex_group_no_dot(parts[0]);
            lemma_no_dot_no_ipv4(parts[0]);
        },
        Some(p) => {
            crate::text::lemma_find_bound(s, dc);
            let head = s.take(p);
            let tail = s.skip(p + 2);
            assert(s.skip(p).subrange(0, 2) =~= dc);
            assert(s[p] == s.skip(p)[0]);
            assert(s[p + 1] == s.skip(p)[1]);
            lemma_side_groups_chars(head, false);
            lemma_side_groups_chars(tail, true);
            assert forall|k: int| 0 <= k < s.len() implies ok(#[trigger] s[k]) by {
                if k < p {
                    assert(head[k] == s[k]);
                } else if k >= p + 2 {
                    assert(tail[k - p - 2] == s[k]);
                }
            }
            assert(colon <= p);
            if p == 0 {
                assert(s.take(0) =~= Seq::<char>::empty());
                lemma_no_dot_no_ipv4(Seq::<char>::empty());
            } else {
                let ch = count_until(head, ':');
                lemma_count_until(head, ':');
                if ch < colon {
                    assert(head[ch as int] == s[ch as int]);
                }
                if colon < ch {
                    assert(head[colon as int] == s[colon as int]);
                }
                assert(ch == colon);
                let first = split_on(head, ':')[0];
                assert(first =~= s.take(colon as int));
                lemma_hex_group_no_dot(first);
                lemma_no_dot_no_ipv4(first);
            }
        },
    }
}

/// Reads a decimal octet.
pub fn parse_octet(t: &Vec<char>) -> (r: Option<u8>)
    ensures
        r == octet_of(t@),
{
    if t.len() < 1 || t.len() > 3 {
        return None;
    }
    if t.len() > 1 && t[0] == '0' {
        return None;
    }
    let mut v: u32 = 0;
    let mut i: usize = 0;
    while i < t.len()
        invariant
            1 <= t.len() <= 3,
            i <= t.len(),
            all_digits(t@.take(i as int)),
            v == decimal_value(t@.take(i as int)),
            v <= if i == 0 { 0u32 } else if i == 1 { 9 } else if i == 2 { 99 } else { 999 },
        decreases t.len() - i,
    {
        let c = t[i];
        if !('0' <= c && c <= '9') {
            assert(!all_digits(t@));
            return None;
        }
        let d: u32 = (c as u32) - 48;
        assert(t@.take(i + 1).drop_last() =~= t@.take(i as int));
        v = v * 10 + d;
        i += 1;
    }
    assert(t@.take(t.len() as int) =~= t@);
    if v > 255 {
        None
    } else {
        Some(v as u8)
    }
}

/// Reads an IPv4 address.
pub fn parse_ipv4(s: &Vec<char>) -> (r: Option<Vec<u8>>)
    ensures
        match r {
            Some(o) => ipv4_octets(s@) == Some(o@),
            None => ipv4_octets(s@) is None,
        },
{
    let parts = split_chars(s, '.');
    let ghost p = split_on(s@, '.');
    if parts.len() != 4 {
        return None;
    }
    assert(parts@[0]@ == p[0] && parts@[1]@ == p[1] && parts@[2]@ == p[2] && parts@[3]@ == p[3]);
    let a = parse_octet(&parts[0]);
    let b = parse_octet(&parts[1]);
    let c = parse_octet(&parts[2]);
    let d = parse_octet(&parts[3]);
    match (a, b, c, d) {
        (Some(a), Some(b), Some(c), Some(d)) => {
            let v: Vec<u8> = vec![a, b, c, d];
            assert(v@ =~= seq![a, b, c, d]);
            Some(v)
        },
        _ => None,
    }
}

/// Reads a hexadecimal group of an IPv6 address.
pub fn parse_hex_group(t: &Vec<char>) -> (r: Option<u16>)
    ensures
        r == hex_group_of(t@),
{
    if t.len() < 1 || t.len() > 4 {
        return None;
    }
    let mut v: u32 = 0;
    let mut i: usize = 0;
    while i < t.len()
        invariant
            1 <= t.len() <= 4,
            i <= t.len(),
            forall|k: int| 0 <= k < i ==> is_hex_digit(#[trigger] t@[k]),
            v == hex_value(t@.take(i as int)),
            v <= if i == 0 { 0u32 } else if i == 1 { 15 } else if i == 2 { 255 } else if i == 3 { 4095 } else { 65535 },
        decreases t.len() - i,
    {
        let c = t[i];
        let d: u32 = if '0' <= c && c <= '9' {
            (c as u32) - 48
        } else if 'a' <= c && c <= 'f' {
            (c as u32) - 87
        } else if 'A' <= c && c <= 'F' {
            (c as u32) - 55
        } else {
            assert(!is_hex_digit(t@[i as int]));
            return None;
        };
        assert(t@.take(i + 1).drop_last() =~= t@.take(i as int));
        v = v * 16 + d;
        i += 1;
    }
    assert(t@.take(t.len() as int) =~= t@);
    Some(v as u16)
}

/// Reads the groups written by colon-separated pieces.
pub fn parse_groups(parts: &Vec<Vec<char>>, v4_last: bool) -> (r: Option<Vec<u16>>)
    ensures
        match r {
            Some(g) => groups_of(parts@.map_values(|p: Vec<char>| p@), v4_last) == Some(g@),
            None => groups_of(parts@.map_values(|p: Vec<char>| p@), v4_last) is None,
        },
{
    let ghost pv = parts@.map_values(|p: Vec<char>| p@);
    let mut g: Vec<u16> = Vec::new();
    let mut i: usize = 0;
    while i < parts.len()
        invariant
            i <= parts.len(),
            pv == parts@.map_values(|p: Vec<char>| p@),
            groups_of(pv.take(i as int), false) == Some(g@),
        decreases parts.len() - i,
    {
        assert(pv.take(i + 1).drop_last() =~= pv.take(i as int));
        assert(pv.take(i + 1).last() == parts@[i as int]@);
        if i + 1 == parts.len() && v4_last {
            match parse_hex_group(&parts[i]) {
                Some(v) => {
                    g.push(v);
                },
                None => {
                    assert(pv.take(i + 1) =~= pv);
                    match parse_ipv4(&parts[i]) {
                        Some(o) => {
                            let hi: u16 = (o[0] as u16) * 256 + (o[1] as u16);
                            let lo: u16 = (o[2] as u16) * 256 + (o[3] as u16);
                            g.push(hi);
                            g.push(lo);
                            let ghost front = groups_of(pv.drop_last(), false)->0;
                            assert(pv.drop_last() =~= pv.take(i as int));
                            assert(g@ =~= front + seq![
                                (o@[0] as int * 256 + o@[1] as int) as u16,
                                (o@[2] as int * 256 + o@[3] as int) as u16,
                            ]);
                            return Some(g);
                        },
                        None => {
                            return None;
                        },
                    }
                },
            }
        } else {
            match parse_hex_group(&parts[i]) {
                Some(v) => {
                    g.push(v);
                },
                None => {
                    proof {
                        lemma_groups_of_prefix_none(pv, (i + 1) as int, v4_last);
                    }
                    return None;
                },
            }
        }
        i += 1;
    }
    assert(pv.take(parts.len() as int) =~= pv);
    proof {
        lemma_groups_of_v4_irrelevant_when_hex(pv, v4_last);
    }
    Some(g)
}

/// Reading with the last piece allowed to be an IPv4 address changes nothing
/// when every piece is a hexadecimal group.
proof fn lemma_groups_of_v4_irrelevant_when_hex(pv: Seq<Seq<char>>, v4_last: bool)
    requires
        groups_of(pv, false) is Some,
    ensures
        groups_of(pv, v4_last) == groups_of(pv, false),
{
}

/// When some piece before `n` is no hexadecimal group (and, for the last piece,
/// no IPv4 address where one is allowed), nothing is read.
proof fn lemma_groups_of_prefix_none(pv: Seq<Seq<char>>, n: int, v4_last: bool)
    requires
        0 < n <= pv.len(),
        groups_of(pv.take(n), false) is None,
        n < pv.len() || !v4_last,
    ensures
        groups_of(pv, v4_last) is None,
    decreases pv.len(),
{
    if n < pv.len() {
        assert(pv.drop_last().take(n) =~= pv.take(n));
        if n < pv.drop_last().len() {
            lemma_groups_of_prefix_none(pv.drop_last(), n, false);
        } else {
            assert(pv.drop_last() =~= pv.take(n));
        }
    } else {
        assert(pv.take(n) =~= pv);
    }
}

/// Reads an IPv6 address.
pub fn parse_ipv6(s: &Vec<char>) -> (r: Option<Vec<u16>>)
    ensures
        match r {
            Some(g) => ipv6_segments(s@) == Some(g@),
            None => ipv6_segments(s@) is None,
        },
{
    let dc: Vec<char> = vec![':', ':'];
    assert(dc@ =~= seq![':', ':']);
    match find_chars(s, &dc) {
        None => {
            let parts = split_chars(s, ':');
            match parse_groups(&parts, true) {
                Some(g) => if g.len() == 8 {
                    Some(g)
                } else {
                    None
                },
                None => None,
            }
        },
        Some(p) => {
            proof {
                crate::text::lemma_find_bound(s@, dc@);
                assert(find(s@, dc@) == Some(p as int));
                assert(p + 2 <= s.len());
            }
            let head_chars = slice_chars(s, 0, p);
            let tail_chars = slice_chars(s, p + 2, s.len());
            assert(head_chars@ =~= s@.take(p as int));
            assert(tail_chars@ =~= s@.skip(p + 2));
            let head = if head_chars.len() == 0 {
                Some(Vec::new())
            } else {
                parse_groups(&split_chars(&head_chars, ':'), false)
            };
            let tail = if tail_chars.len() == 0 {
                Some(Vec::new())
            } else {
                parse_groups(&split_chars(&tail_chars, ':'), true)
            };
            match (head, tail) {
                (Some(a), Some(b)) => {
                    if a.len() <= 7 && b.len() <= 7 - a.len() {
                        let mut g: Vec<u16> = Vec::new();
                        let mut k: usize = 0;
                        while k < a.len()
                            invariant
                                k <= a.len(),
                                g@ == a@.take(k as int),
                            decreases a.len() - k,
                        {
                            g.push(a[k]);
                            k += 1;
                            assert(g@ =~= a@.take(k as int));
                        }
                        let zeros: usize = 8 - a.len() - b.len();
                        let mut z: usize = 0;
                        while z < zeros
                            invariant
                                z <= zeros,
                                g@ == a@ + Seq::new(z as nat, |i: int| 0u16),
                            decreases zeros - z,
                        {
                            g.push(0);
                            z += 1;
                            assert(g@ =~= a@ + Seq::new(z as nat, |i: int| 0u16));
                        }
                        let mut k: usize = 0;
                        while k < b.len()
                            invariant
                                k <= b.len(),
                                g@ == a@ + Seq::new(zeros as nat, |i: int| 0u16) + b@.take(k as int),
                            decreases b.len() - k,
                        {
                            g.push(b[k]);
                            k += 1;
                            assert(g@ =~= a@ + Seq::new(zeros as nat, |i: int| 0u16) + b@.take(k as int));
                        }
                        assert(b@.take(b.len() as int) =~= b@);
                        Some(g)
                    } else {
                        None
                    }
                },
                _ => None,
            }
        },
    }
}

/// The character of a hexadecimal digit, lowercase.
pub open spec fn hex_char(d: nat) -> char {
    if d < 10 {
        digit_char(d)
    } else {
        ((87 + d) as u32) as char
    }
}

/// The lowercase hexadecimal notation of a number, without leading zeros, as
/// `{:x}` writes it.
pub open spec fn hex_text(n: nat) -> Seq<char>
    decreases n,
{
    if n < 16 {
        seq![hex_char(n)]
    } else {
        hex_text(n / 16).push(hex_char(n % 16))
    }
}

/// The dotted decimal text of an IPv4 address.
pub open spec fn ipv4_text(o: Seq<u8>) -> Seq<char> {
    decimal(o[0] as nat) + seq!['.'] + decimal(o[1] as nat) + seq!['.'] + decimal(o[2] as nat) + seq!['.']
        + decimal(o[3] as nat)
}

/// The groups in hexadecimal, separated by colons.
pub open spec fn join_groups(g: Seq<u16>) -> Seq<char>
    decreases g.len(),
{
    if g.len() == 0 {
        seq![]
    } else if g.len() == 1 {
        hex_text(g[0] as nat)
    } else {
        join_groups(g.drop_last()) + seq![':'] + hex_text(g.last() as nat)
    }
}

/// The number of zero groups in a row from position `i`.
pub open spec fn zero_len_at(g: Seq<u16>, i: int) -> nat
    decreases g.len() - i,
{
    if i < 0 || i >= g.len() || g[i] != 0 {
        0
    } else {
        1 + zero_len_at(g, i + 1)
    }
}

/// The start and length of the longest run of zero groups at or after `i`;
/// of several equally long runs, the first.
pub open spec fn longest_zero_run(g: Seq<u16>, i: int) -> (int, nat)
    decreases g.len() - i,
{
    if i < 0 || i >= g.len() {
        (g.len() as int, 0)
    } else {
        let r = longest_zero_run(g, i + 1);
        let z = zero_len_at(g, i);
        if z >= r.1 {
            (i, z)
        } else {
            r
        }
    }
}

/// The canonical text of an IPv6 address, as `Ipv6Addr`'s `Display` writes it:
/// an IPv4-mapped address as `::ffff:` and the IPv4 address; otherwise the
/// groups in lowercase hexadecimal, with the first longest run of two or more
/// zero groups written as `::`.
pub open spec fn ipv6_text(g: Seq<u16>) -> Seq<char> {
    if g[0] == 0 && g[1] == 0 && g[2] == 0 && g[3] == 0 && g[4] == 0 && g[5] == 0xffff {
        seq![':', ':', 'f', 'f', 'f', 'f', ':'] + ipv4_text(
            seq![(g[6] / 256) as u8, (g[6] % 256) as u8, (g[7] / 256) as u8, (g[7] % 256) as u8],
        )
    } else {
        let run = longest_zero_run(g, 0);
        if run.1 > 1 {
            join_groups(g.take(run.0)) + seq![':', ':'] + join_groups(g.skip(run.0 + run.1))
        } else {
            join_groups(g)
        }
    }
}

/// The canonical text of the IP address that `s` denotes, when `s` is an IPv4
/// or an IPv6 address as `IpAddr` reads it.
pub open spec fn ip_text(s: Seq<char>) -> Option<Seq<char>> {
    match ipv4_octets(s) {
        Some(o) => Some(ipv4_text(o)),
        None => match ipv6_segments(s) {
            Some(g) => Some(ipv6_text(g)),
            None => None,
        },
    }
}

fn hex_digit_char(d: u16) -> (c: char)
    requires
        d < 16,
    ensures
        c == hex_char(d as nat),
{
    if d < 10 {
        let b: u8 = (d as u8) + 48;
        b as char
    } else {
        let b: u8 = (d as u8) + 87;
        b as char
    }
}

/// Appends the lowercase hexadecimal notation of `n`.
pub fn push_hex(out: &mut String, n: u16)
    ensures
        final(out)@ == old(out)@ + hex_text(n as nat),
    decreases n,
{
    if n >= 16 {
        push_hex(out, n / 16);
    }
    let c = hex_digit_char(n % 16);
    out.push(c);
    assert(final(out)@ =~= old(out)@ + hex_text(n as nat));
}

/// Appends the dotted decimal text of an IPv4 address.
pub fn push_ipv4(out: &mut String, o: &Vec<u8>)
    requires
        o.len() == 4,
    ensures
        final(out)@ == old(out)@ + ipv4_text(o@),
{
    push_decimal(out, o[0] as u64);
    out.push('.');
    push_decimal(out, o[1] as u64);
    out.push('.');
    push_decimal(out, o[2] as u64);
    out.push('.');
    push_decimal(out, o[3] as u64);
    assert(final(out)@ =~= old(out)@ + ipv4_text(o@));
}

/// Appends the groups from `from` up to `to`, in hexadecimal, separated by colons.
pub fn push_groups(out: &mut String, g: &Vec<u16>, from: usize, to: usize)
    requires
        from <= to <= g.len(),
    ensures
        final(out)@ == old(out)@ + join_groups(g@.subrange(from as int, to as int)),
{
    let mut i: usize = from;
    while i < to
        invariant
            from <= i <= to <= g.len(),
            out@ == old(out)@ + join_groups(g@.subrange(from as int, i as int)),
        decreases to - i,
    {
        let ghost before = out@;
        if i > from {
            out.push(':');
        }
        push_hex(out, g[i]);
        let ghost sub = g@.subrange(from as int, i + 1);
        assert(sub.drop_last() =~= g@.subrange(from as int, i as int));
        i += 1;
        assert(out@ =~= old(out)@ + join_groups(g@.subrange(from as int, i as int)));
    }
}

/// Appends the canonical text of an IPv6 address.
pub fn push_ipv6(out: &mut String, g: &Vec<u16>)
    requires
        g.len() == 8,
    ensures
        final(out)@ == old(out)@ + ipv6_text(g@),
{
    if g[0] == 0 && g[1] == 0 && g[2] == 0 && g[3] == 0 && g[4] == 0 && g[5] == 0xffff {
        out.push(':');
        out.push(':');
        out.push('f');
        out.push('f');
        out.push('f');
        out.push('f');
        out.push(':');
        let o: Vec<u8> = vec![(g[6] / 256) as u8, (g[6] % 256) as u8, (g[7] / 256) as u8, (g[7] % 256) as u8];
        push_ipv4(out, &o);
        assert(o@ =~= seq![(g@[6] / 256) as u8, (g@[6] % 256) as u8, (g@[7] / 256) as u8, (g@[7] % 256) as u8]);
        assert(final(out)@ =~= old(out)@ + ipv6_text(g@));
        return;
    }
    let mut best_start: usize = 8;
    let mut best_len: usize = 0;
    let mut cur: usize = 0;
    let mut i: usize = 8;
    while i > 0
        invariant
            i <= 8,
            g@.len() == 8,
            cur == zero_len_at(g@, i as int),
            (best_start as int, best_len as nat) == longest_zero_run(g@, i as int),
            cur <= 8 - i,
            best_len <= 8 - i,
            best_start <= 8,
            best_len > 0 ==> best_start + best_len <= 8,
        decreases i,
    {
        i -= 1;
        if g[i] == 0 {
            cur = cur + 1;
        } else {
            cur = 0;
        }
        if cur >= best_len {
            best_start = i;
            best_len = cur;
        }
        proof {
            lemma_zero_run_within(g@, i as int);
        }
    }
    if best_len > 1 {
        push_groups(out, g, 0, best_start);
        out.push(':');
        out.push(':');
        push_groups(out, g, best_start + best_len, 8);
        assert(g@.subrange(0, best_start as int) =~= g@.take(best_start as int));
        assert(g@.subrange((best_start + best_len) as int, 8) =~= g@.skip((best_start + best_len) as int));
    } else {
        push_groups(out, g, 0, 8);
        assert(g@.subrange(0, 8) =~= g@);
    }
}

/// A run of zero groups stays within the address.
proof fn lemma_zero_run_within(g: Seq<u16>, i: int)
    requires
        0 <= i <= g.len(),
    ensures
        i + zero_len_at(g, i) <= g.len(),
    decreases g.len() - i,
{
    if i < g.len() && g[i] == 0 {
        lemma_zero_run_within(g, i + 1);
    }
}

/// Reads an IP address and writes it back in canonical form, as parsing with
/// `IpAddr`'s `FromStr` and writing with its `Display` does.
pub fn ip_canonical(s: &str) -> (r: Option<String>)
    ensures
        match r {
            Some(t) => ip_text(s@) == Some(t@),
            None => ip_text(s@) is None,
        },
{
    let cs = crate::text::chars_of(s);
    match parse_ipv4(&cs) {
        Some(o) => {
            let mut out = String::new();
            push_ipv4(&mut out, &o);
            Some(out)
        },
        None => match parse_ipv6(&cs) {
            Some(g) => {
                let mut out = String::new();
                push_ipv6(&mut out, &g);
                Some(out)
            },
            None => None,
        },
    }
}

/// Counting up to `c` across a text that begins with a piece free of `c`
/// stops at the end of that piece.
pub proof fn lemma_count_until_concat(a: Seq<char>, b: Seq<char>, c: char)
    requires
        !a.contains(c),
    ensures
        count_until(a + b, c) == a.len() + count_until(b, c),
    decreases a.len(),
{
    if a.len() > 0 {
        assert((a + b)[0] == a[0]);
        assert(!a.drop_first().contains(c)) by {
            if a.drop_first().contains(c) {
                let k = choose|k: int| 0 <= k < a.drop_first().len() && a.drop_first()[k] == c;
                assert(a[k + 1] == c);
            }
        }
        assert((a + b).skip(1) =~= a.drop_first() + b);
        assert(a[0] != c);
        lemma_count_until_concat(a.drop_first(), b, c);
    } else {
        assert(a + b =~= b);
    }
}

/// Splitting a piece free of `c`, followed by `c` and the rest, gives the piece
/// and then the pieces of the rest.
proof fn lemma_split_on_concat(a: Seq<char>, b: Seq<char>, c: char)
    requires
        !a.contains(c),
    ensures
        split_on(a + seq![c] + b, c) == seq![a] + split_on(b, c),
{
    let s = a + seq![c] + b;
    lemma_count_until_concat(a, seq![c] + b, c);
    assert(a + (seq![c] + b) =~= s);
    assert(count_until(seq![c] + b, c) == 0);
    assert(s.take(a.len() as int) =~= a);
    assert(s.skip((a.len() + 1) as int) =~= b);
}

/// A piece free of `c` splits into itself alone.
proof fn lemma_split_on_single(a: Seq<char>, c: char)
    requires
        !a.contains(c),
    ensures
        split_on(a, c) == seq![a],
{
    lemma_count_until_concat(a, Seq::empty(), c);
    assert(a + Seq::<char>::empty() =~= a);
}

/// The decimal text of a byte reads back as that byte.
proof fn lemma_octet_of_decimal(n: u8)
    ensures
        octet_of(decimal(n as nat)) == Some(n),
        !decimal(n as nat).contains('.'),
{
    let d = decimal(n as nat);
    crate::text::lemma_decimal_round_trip(n as nat);
    if n >= 10 {
        crate::text::lemma_decimal_round_trip(n as nat / 10);
        if n >= 100 {
            crate::text::lemma_decimal_round_trip(n as nat / 100);
            assert(decimal(n as nat / 100).len() == 1);
        }
    }
    assert(d.len() <= 3);
    if d.contains('.') {
        let k = choose|k: int| 0 <= k < d.len() && d[k] == '.';
        assert('0' <= d[k] <= '9');
    }
}

/// A digit character is the digit of its value.
proof fn lemma_digit_char_of(c: char)
    requires
        '0' <= c <= '9',
    ensures
        digit_char((c as int - 48) as nat) == c,
{
    assert(((48 + (c as int - 48)) as u32) as char == c);
}

/// The only text read as a given octet is its decimal notation: no leading
/// zero, no sign, no other digits.
proof fn lemma_octet_text_unique(t: Seq<char>)
    requires
        octet_of(t) is Some,
    ensures
        t == decimal(octet_of(t)->0 as nat),
{
    let n = decimal_value(t);
    assert(all_digits(t));
    reveal_with_fuel(decimal_value, 4);
    if t.len() == 1 {
        assert(t.drop_last().len() == 0);
        assert(t.last() == t[0]);
        assert(n == t[0] as int - 48);
        lemma_digit_char_of(t[0]);
        assert(decimal(n as nat) == seq![digit_char(n as nat)]);
        assert(decimal(n as nat) =~= t);
    } else if t.len() == 2 {
        let a = t[0];
        let b = t[1];
        assert(t.drop_last() =~= seq![a]);
        assert(seq![a].drop_last().len() == 0);
        assert(decimal_value(seq![a]) == a as int - 48);
        lemma_digit_char_of(a);
        lemma_digit_char_of(b);
        assert(n == (a as int - 48) * 10 + (b as int - 48));
        assert(n / 10 == a as int - 48);
        assert(n % 10 == b as int - 48);
        assert(decimal((n / 10) as nat) =~= seq![a]);
        assert(decimal(n as nat) =~= t);
    } else {
        let a = t[0];
        let b = t[1];
        let c = t[2];
        assert(t.drop_last() =~= seq![a, b]);
        assert(seq![a, b].drop_last() =~= seq![a]);
        assert(seq![a].drop_last().len() == 0);
        lemma_digit_char_of(a);
        lemma_digit_char_of(b);
        lemma_digit_char_of(c);
        let m = (a as int - 48) * 10 + (b as int - 48);
        assert(decimal_value(seq![a, b]) == m);
        assert(n == m * 10 + (c as int - 48));
        assert(n / 10 == m);
        assert(n % 10 == c as int - 48);
        assert(m / 10 == a as int - 48);
        assert(m % 10 == b as int - 48);
        assert(decimal((m / 10) as nat) =~= seq![a]);
        assert(decimal(m as nat) =~= seq![a, b]);
        assert(decimal(n as nat) =~= t);
    }
}

/// Pieces joined with a separator between each two.
pub open spec fn join_with(parts: Seq<Seq<char>>, c: char) -> Seq<char>
    decreases parts.len(),
{
    if parts.len() == 0 {
        Seq::empty()
    } else if parts.len() == 1 {
        parts[0]
    } else {
        parts[0] + seq![c] + join_with(parts.drop_first(), c)
    }
}

/// Joining the pieces of a split with the separator gives the text back.
proof fn lemma_split_on_join(s: Seq<char>, c: char)
    ensures
        join_with(split_on(s, c), c) == s,
        split_on(s, c).len() >= 1,
    decreases s.len(),
{
    let n = count_until(s, c);
    lemma_count_until(s, c);
    if n < s.len() {
        let rest = s.skip((n + 1) as int);
        lemma_split_on_join(rest, c);
        let parts = split_on(s, c);
        assert(parts =~= seq![s.take(n as int)] + split_on(rest, c));
        assert(parts.drop_first() =~= split_on(rest, c));
        assert(s =~= s.take(n as int) + seq![c] + rest);
    }
}

/// The only text read as an IPv4 address is that address's dotted decimal
/// text: no leading zeros, no other separators, nothing around it.
pub proof fn ipv4_text_is_unique(s: Seq<char>)
    requires
        ipv4_octets(s) is Some,
    ensures
        s == ipv4_text(ipv4_octets(s)->0),
{
    let p = split_on(s, '.');
    lemma_split_on_join(s, '.');
    lemma_octet_text_unique(p[0]);
    lemma_octet_text_unique(p[1]);
    lemma_octet_text_unique(p[2]);
    lemma_octet_text_unique(p[3]);
    let p1 = p.drop_first();
    let p2 = p1.drop_first();
    let p3 = p2.drop_first();
    assert(p1[0] == p[1] && p1[1] == p[2] && p1[2] == p[3]);
    assert(p2[0] == p[2] && p2[1] == p[3]);
    assert(p3[0] == p[3]);
    assert(join_with(p3, '.') == p[3]);
    assert(join_with(p2, '.') == p[2] + seq!['.'] + p[3]);
    assert(join_with(p1, '.') == p[1] + seq!['.'] + (p[2] + seq!['.'] + p[3]));
    assert(s == p[0] + seq!['.'] + (p[1] + seq!['.'] + (p[2] + seq!['.'] + p[3])));
    assert(s =~= ipv4_text(ipv4_octets(s)->0));
}

/// The dotted decimal text of an IPv4 address reads back as that address.
pub proof fn ipv4_text_reads_back(o: Seq<u8>)
    requires
        o.len() == 4,
    ensures
        ipv4_octets(ipv4_text(o)) == Some(o),
        ip_text(ipv4_text(o)) == Some(ipv4_text(o)),
{
    let d0 = decimal(o[0] as nat);
    let d1 = decimal(o[1] as nat);
    let d2 = decimal(o[2] as nat);
    let d3 = decimal(o[3] as nat);
    lemma_octet_of_decimal(o[0]);
    lemma_octet_of_decimal(o[1]);
    lemma_octet_of_decimal(o[2]);
    lemma_octet_of_decimal(o[3]);
    let t = ipv4_text(o);
    let r3 = d3;
    let r2 = d2 + seq!['.'] + r3;
    let r1 = d1 + seq!['.'] + r2;
    assert(t =~= d0 + seq!['.'] + r1);
    lemma_split_on_single(r3, '.');
    lemma_split_on_concat(d2, r3, '.');
    lemma_split_on_concat(d1, r2, '.');
    lemma_split_on_concat(d0, r1, '.');
    let p = split_on(t, '.');
    assert(p =~= seq![d0, d1, d2, d3]);
    assert(ipv4_octets(t) == Some(seq![o[0], o[1], o[2], o[3]]));
    assert(seq![o[0], o[1], o[2], o[3]] =~= o);
}

/// The hexadecimal notation is made of hexadecimal digits, at most four for a
/// 16-bit number, and denotes the number it was made from.
proof fn lemma_hex_text(n: nat)
    ensures
        hex_text(n).len() >= 1,
        forall|i: int| 0 <= i < hex_text(n).len() ==> is_hex_digit(#[trigger] hex_text(n)[i]),
        hex_value(hex_text(n)) == n,
        n < 0x10000 ==> hex_text(n).len() <= 4,
        n < 0x1000 ==> hex_text(n).len() <= 3,
        n < 0x100 ==> hex_text(n).len() <= 2,
        n < 0x10 ==> hex_text(n).len() <= 1,
    decreases n,
{
    let t = hex_text(n);
    if n >= 16 {
        lemma_hex_text(n / 16);
        let p = hex_text(n / 16);
        assert(t == p.push(hex_char(n % 16)));
        assert(t.drop_last() =~= p);
        assert(t.last() == hex_char(n % 16));
        assert(hex_value(t) == hex_value(p) * 16 + hex_digit_value(t.last()));
        assert forall|i: int| 0 <= i < t.len() implies is_hex_digit(#[trigger] t[i]) by {
            if i < p.len() {
                assert(t[i] == p[i]);
            }
        }
    } else {
        assert(t.drop_last() =~= Seq::<char>::empty());
        assert(hex_value(t) == hex_value(t.drop_last()) * 16 + hex_digit_value(t.last()));
    }
}

/// The hexadecimal text of a group reads back as that group.
proof fn lemma_hex_group_round_trip(n: u16)
    ensures
        hex_group_of(hex_text(n as nat)) == Some(n),
{
    lemma_hex_text(n as nat);
}

/// Hexadecimal digits are neither colons nor dots.
proof fn lemma_hex_text_plain(n: nat)
    ensures
        !hex_text(n).contains(':'),
        !hex_text(n).contains('.'),
        !hex_text(n).contains(']'),
        !hex_text(n).contains('%'),
{
    lemma_hex_text(n);
    let t = hex_text(n);
    if t.contains(':') || t.contains('.') || t.contains(']') || t.contains('%') {
        let k = choose|k: int| 0 <= k < t.len() && (t[k] == ':' || t[k] == '.' || t[k] == ']' || t[k] == '%');
        assert(is_hex_digit(t[k]));
    }
}

/// The hexadecimal texts of the groups.
pub open spec fn hex_texts(g: Seq<u16>) -> Seq<Seq<char>> {
    g.map_values(|v: u16| hex_text(v as nat))
}

/// Reading the hexadecimal texts of groups gives back the groups.
proof fn lemma_groups_of_hex_texts(g: Seq<u16>, v4_last: bool)
    ensures
        groups_of(hex_texts(g), v4_last) == Some(g),
    decreases g.len(),
{
    let parts = hex_texts(g);
    if g.len() > 0 {
        assert(parts.drop_last() =~= hex_texts(g.drop_last()));
        lemma_groups_of_hex_texts(g.drop_last(), false);
        lemma_hex_group_round_trip(g.last());
        assert(parts.last() == hex_text(g.last() as nat));
        assert(g.drop_last().push(g.last()) =~= g);
    } else {
        assert(g =~= Seq::<u16>::empty());
    }
}

/// A text with no two colons in a row, and not ending with a colon.
pub open spec fn single_colons(s: Seq<char>) -> bool {
    &&& forall|i: int| 0 <= i < s.len() - 1 ==> !(#[trigger] s[i] == ':' && s[i + 1] == ':')
    &&& (s.len() > 0 ==> s.last() != ':' && s[0] != ':')
}

/// The groups joined by colons, seen from the front.
proof fn lemma_join_groups_front(g: Seq<u16>)
    requires
        g.len() >= 2,
    ensures
        join_groups(g) == hex_text(g[0] as nat) + seq![':'] + join_groups(g.drop_first()),
    decreases g.len(),
{
    if g.len() > 2 {
        lemma_join_groups_front(g.drop_last());
        assert(g.drop_last().drop_first() =~= g.drop_first().drop_last());
        assert(g.drop_first().last() == g.last());
        assert(join_groups(g.drop_first()) == join_groups(g.drop_first().drop_last()) + seq![':'] + hex_text(
            g.last() as nat,
        ));
        assert(join_groups(g) =~= hex_text(g[0] as nat) + seq![':'] + join_groups(g.drop_first()));
    } else {
        assert(g.drop_last() =~= seq![g[0]]);
        assert(g.drop_first() =~= seq![g[1]]);
        assert(join_groups(g.drop_last()) == hex_text(g[0] as nat));
        assert(join_groups(g.drop_first()) == hex_text(g[1] as nat));
        assert(g.last() == g[1]);
        assert(join_groups(g) =~= hex_text(g[0] as nat) + seq![':'] + join_groups(g.drop_first()));
    }
}

/// Joined groups split at the colons into their hexadecimal texts, hold no
/// two colons in a row, and hold no dot, bracket or percent sign.
proof fn lemma_join_groups(g: Seq<u16>)
    requires
        g.len() >= 1,
    ensures
        split_on(join_groups(g), ':') == hex_texts(g),
        single_colons(join_groups(g)),
        !join_groups(g).contains('.'),
        !join_groups(g).contains(']'),
        !join_groups(g).contains('%'),
        join_groups(g).len() >= 1,
    decreases g.len(),
{
    let j = join_groups(g);
    let h = hex_text(g[0] as nat);
    lemma_hex_text(g[0] as nat);
    lemma_hex_text_plain(g[0] as nat);
    if g.len() == 1 {
        lemma_split_on_single(h, ':');
        assert(hex_texts(g) =~= seq![h]);
        assert forall|i: int| 0 <= i < j.len() - 1 implies !(#[trigger] j[i] == ':' && j[i + 1] == ':') by {
            assert(is_hex_digit(j[i]));
        }
        assert(is_hex_digit(j[0]));
        assert(is_hex_digit(j.last()));
    } else {
        lemma_join_groups_front(g);
        let r = join_groups(g.drop_first());
        lemma_join_groups(g.drop_first());
        assert(j == h + seq![':'] + r);
        lemma_split_on_concat(h, r, ':');
        assert(hex_texts(g) =~= seq![h] + hex_texts(g.drop_first()));
        assert forall|i: int| 0 <= i < j.len() - 1 implies !(#[trigger] j[i] == ':' && j[i + 1] == ':') by {
            if i < h.len() {
                assert(is_hex_digit(j[i]));
            } else if i == h.len() {
                assert(j[i + 1] == r[0]);
            } else {
                assert(j[i] == r[i - h.len() - 1]);
                assert(j[i + 1] == r[i - h.len()]);
            }
        }
        assert(is_hex_digit(j[0]));
        assert(j.last() == r.last());
        if j.contains('.') || j.contains(']') || j.contains('%') {
            let k = choose|k: int| 0 <= k < j.len() && (j[k] == '.' || j[k] == ']' || j[k] == '%');
            if k < h.len() {
                assert(is_hex_digit(j[k]));
            } else if k > h.len() {
                assert(j[k] == r[k - h.len() - 1]);
            }
        }
    }
}

/// In a text with single colons followed by `::`, the first `::` is the one
/// that follows the text.
proof fn lemma_find_double_colon(h: Seq<char>, t: Seq<char>)
    requires
        single_colons(h),
    ensures
        find(h + seq![':', ':'] + t, seq![':', ':']) == Some(h.len() as int),
{
    let s = h + seq![':', ':'] + t;
    assert forall|j: int| 0 <= j < h.len() implies !starts_with(#[trigger] s.skip(j), seq![':', ':']) by {
        crate::text::lemma_starts_with_pair(s, j, ':', ':');
        assert(s[j] == h[j]);
        if j + 1 < h.len() {
            assert(s[j + 1] == h[j + 1]);
        } else {
            assert(h.last() == h[j]);
        }
    }
    crate::text::lemma_starts_with_pair(s, h.len() as int, ':', ':');
    crate::text::lemma_find_from_at(s, seq![':', ':'], 0, h.len() as int);
}

/// A text with single colons holds no `::`.
proof fn lemma_find_no_double_colon(j: Seq<char>)
    requires
        single_colons(j),
    ensures
        find(j, seq![':', ':']) is None,
{
    assert forall|k: int| 0 <= k <= j.len() implies !starts_with(#[trigger] j.skip(k), seq![':', ':']) by {
        crate::text::lemma_starts_with_pair(j, k, ':', ':');
    }
    crate::text::lemma_find_from_none(j, seq![':', ':'], 0);
}

/// A text without dots is no IPv4 address.
proof fn lemma_no_dot_no_ipv4(s: Seq<char>)
    requires
        !s.contains('.'),
    ensures
        ipv4_octets(s) is None,
{
    lemma_split_on_single(s, '.');
}

/// The zero groups counted from a position are zero and within the address.
proof fn lemma_zero_len_at(g: Seq<u16>, i: int)
    requires
        0 <= i <= g.len(),
    ensures
        i + zero_len_at(g, i) <= g.len(),
        forall|k: int| i <= k < i + zero_len_at(g, i) ==> g[k] == 0,
    decreases g.len() - i,
{
    if i < g.len() && g[i] == 0 {
        lemma_zero_len_at(g, i + 1);
    }
}

/// The longest run of zero groups is a run of zero groups within the address.
proof fn lemma_longest_zero_run(g: Seq<u16>, i: int)
    requires
        0 <= i <= g.len(),
    ensures
        longest_zero_run(g, i).1 > 0 ==> {
            let r = longest_zero_run(g, i);
            &&& 0 <= r.0
            &&& r.0 + r.1 <= g.len()
            &&& forall|k: int| r.0 <= k < r.0 + r.1 ==> g[k] == 0
        },
    decreases g.len() - i,
{
    if i < g.len() {
        lemma_longest_zero_run(g, i + 1);
        lemma_zero_len_at(g, i);
    }
}

/// The dotted decimal text of an IPv4 address holds no colon and is at least
/// seven characters long.
proof fn lemma_ipv4_text_plain(o: Seq<u8>)
    requires
        o.len() == 4,
    ensures
        !ipv4_text(o).contains(':'),
        ipv4_text(o).len() >= 7,
        !ipv4_text(o).contains(']'),
        !ipv4_text(o).contains('%'),
        ipv4_text(o).len() >= 1 && '0' <= ipv4_text(o)[0] <= '9',
{
    let t = ipv4_text(o);
    crate::text::lemma_decimal_round_trip(o[0] as nat);
    crate::text::lemma_decimal_round_trip(o[1] as nat);
    crate::text::lemma_decimal_round_trip(o[2] as nat);
    crate::text::lemma_decimal_round_trip(o[3] as nat);
    let d0 = decimal(o[0] as nat);
    let d1 = decimal(o[1] as nat);
    let d2 = decimal(o[2] as nat);
    let d3 = decimal(o[3] as nat);
    assert(t =~= d0 + seq!['.'] + d1 + seq!['.'] + d2 + seq!['.'] + d3);
    assert(t[0] == d0[0]);
    assert forall|k: int| 0 <= k < t.len() implies t[k] == '.' || ('0' <= #[trigger] t[k] <= '9') by {
        let a = d0.len() as int;
        let b = a + 1 + d1.len();
        let c = b + 1 + d2.len();
        if k < a {
            assert(t[k] == d0[k]);
        } else if k == a {
        } else if k < b {
            assert(t[k] == d1[k - a - 1]);
        } else if k == b {
        } else if k < c {
            assert(t[k] == d2[k - b - 1]);
        } else if k == c {
        } else {
            assert(t[k] == d3[k - c - 1]);
        }
    }
    if t.contains(':') || t.contains(']') || t.contains('%') {
        let k = choose|k: int| 0 <= k < t.len() && (t[k] == ':' || t[k] == ']' || t[k] == '%');
        assert(t[k] == '.' || ('0' <= t[k] <= '9'));
    }
}

/// The side of `::` made of joined groups reads back as those groups.
proof fn lemma_side_groups_join(g: Seq<u16>, v4_last: bool)
    ensures
        side_groups(join_groups(g), v4_last) == Some(g),
        single_colons(join_groups(g)),
        !join_groups(g).contains('.'),
{
    if g.len() == 0 {
        assert(join_groups(g) =~= Seq::<char>::empty());
        assert(g =~= Seq::<u16>::empty());
    } else {
        lemma_join_groups(g);
        lemma_groups_of_hex_texts(g, v4_last);
    }
}

/// The text of an IPv4-mapped address reads back as that address.
proof fn lemma_mapped_reads_back(g: Seq<u16>)
    requires
        g.len() == 8,
        g[0] == 0 && g[1] == 0 && g[2] == 0 && g[3] == 0 && g[4] == 0 && g[5] == 0xffff,
    ensures
        ipv6_segments(ipv6_text(g)) == Some(g),
        ipv4_octets(ipv6_text(g)) is None,
{
    let text = ipv6_text(g);
    let dc = seq![':', ':'];
    let o = seq![(g[6] / 256) as u8, (g[6] % 256) as u8, (g[7] / 256) as u8, (g[7] % 256) as u8];
    let v4t = ipv4_text(o);
    let ffff = seq!['f', 'f', 'f', 'f'];
    assert(text =~= dc + (ffff + seq![':'] + v4t));
    crate::text::lemma_starts_with_pair(text, 0, ':', ':');
    crate::text::lemma_find_from_at(text, dc, 0, 0);
    assert(text.take(0) =~= Seq::<char>::empty());
    let tail = text.skip(2);
    assert(tail =~= ffff + seq![':'] + v4t);
    lemma_ipv4_text_plain(o);
    assert(!ffff.contains(':')) by {
        if ffff.contains(':') {
            let k = choose|k: int| 0 <= k < ffff.len() && ffff[k] == ':';
        }
    }
    lemma_split_on_concat(ffff, v4t, ':');
    lemma_split_on_single(v4t, ':');
    let parts = split_on(tail, ':');
    assert(parts =~= seq![ffff, v4t]);
    lemma_ffff_group();
    assert(parts.drop_last() =~= seq![ffff]);
    ipv4_text_reads_back(o);
    assert(hex_group_of(v4t) is None);
    assert(o[0] as int * 256 + o[1] as int == g[6] as int);
    assert(o[2] as int * 256 + o[3] as int == g[7] as int);
    let b = seq![0xffffu16, g[6], g[7]];
    assert(groups_of(parts, true) == Some(b));
    assert(side_groups(tail, true) == Some(b));
    assert(Seq::<u16>::empty() + Seq::new(5, |i: int| 0u16) + b =~= g);
    lemma_colon_first_no_ipv4(text);
}

/// The group `ffff` reads as all ones.
proof fn lemma_ffff_group()
    ensures
        groups_of(seq![seq!['f', 'f', 'f', 'f']], false) == Some(seq![0xffffu16]),
{
    reveal_with_fuel(hex_text, 5);
    assert(hex_text(0xffff) =~= seq!['f', 'f', 'f', 'f']);
    lemma_groups_of_hex_texts(seq![0xffffu16], false);
    assert(hex_texts(seq![0xffffu16]) =~= seq![seq!['f', 'f', 'f', 'f']]);
}

/// A text that starts with a colon is no IPv4 address.
proof fn lemma_colon_first_no_ipv4(text: Seq<char>)
    requires
        text.len() > 0,
        text[0] == ':',
    ensures
        ipv4_octets(text) is None,
{
    let c = count_until(text, '.');
    assert(c >= 1);
    lemma_count_until(text, '.');
    let p0 = split_on(text, '.')[0];
    assert(p0 == text.take(c as int));
    assert(p0[0] == ':');
    assert(!all_digits(p0));
}

/// The text of an address with a run of zero groups written as `::` reads
/// back as that address.
proof fn lemma_compressed_reads_back(g: Seq<u16>)
    requires
        g.len() == 8,
        !(g[0] == 0 && g[1] == 0 && g[2] == 0 && g[3] == 0 && g[4] == 0 && g[5] == 0xffff),
        longest_zero_run(g, 0).1 > 1,
    ensures
        ipv6_segments(ipv6_text(g)) == Some(g),
        ipv4_octets(ipv6_text(g)) is None,
{
    let text = ipv6_text(g);
    let dc = seq![':', ':'];
    let run = longest_zero_run(g, 0);
    lemma_longest_zero_run(g, 0);
    let h = g.take(run.0);
    let t = g.skip(run.0 + run.1);
    let jh = join_groups(h);
    let jt = join_groups(t);
    lemma_side_groups_join(h, false);
    lemma_side_groups_join(t, true);
    assert(text == jh + dc + jt);
    lemma_find_double_colon(jh, jt);
    assert(text.take(jh.len() as int) =~= jh);
    assert(text.skip((jh.len() + 2) as int) =~= jt);
    assert(h + Seq::new((8 - h.len() - t.len()) as nat, |i: int| 0u16) + t =~= g);
    assert(!text.contains('.')) by {
        if text.contains('.') {
            let k = choose|k: int| 0 <= k < text.len() && text[k] == '.';
            if k < jh.len() {
                assert(text[k] == jh[k]);
            } else if k >= jh.len() + 2 {
                assert(text[k] == jt[k - jh.len() - 2]);
            }
        }
    }
    lemma_no_dot_no_ipv4(text);
}

/// The text of an address written group by group reads back as that address.
proof fn lemma_plain_reads_back(g: Seq<u16>)
    requires
        g.len() == 8,
        !(g[0] == 0 && g[1] == 0 && g[2] == 0 && g[3] == 0 && g[4] == 0 && g[5] == 0xffff),
        longest_zero_run(g, 0).1 <= 1,
    ensures
        ipv6_segments(ipv6_text(g)) == Some(g),
        ipv4_octets(ipv6_text(g)) is None,
{
    let text = ipv6_text(g);
    assert(text == join_groups(g));
    lemma_join_groups(g);
    lemma_find_no_double_colon(text);
    lemma_groups_of_hex_texts(g, true);
    lemma_no_dot_no_ipv4(text);
}

/// The canonical text of an IPv6 address reads back as that address.
pub proof fn ipv6_text_reads_back(g: Seq<u16>)
    requires
        g.len() == 8,
    ensures
        ipv6_segments(ipv6_text(g)) == Some(g),
        ipv4_octets(ipv6_text(g)) is None,
        ip_text(ipv6_text(g)) == Some(ipv6_text(g)),
{
    if g[0] == 0 && g[1] == 0 && g[2] == 0 && g[3] == 0 && g[4] == 0 && g[5] == 0xffff {
        lemma_mapped_reads_back(g);
    } else if longest_zero_run(g, 0).1 > 1 {
        lemma_compressed_reads_back(g);
    } else {
        lemma_plain_reads_back(g);
    }
}

/// The canonical text of an IP address is itself read as that same text: the
/// nameserver addresses chosen from the system are canonical.
pub proof fn ip_text_is_canonical(s: Seq<char>)
    requires
        ip_text(s) is Some,
    ensures
        ip_text(ip_text(s)->0) == ip_text(s),
{
    match ipv4_octets(s) {
        Some(o) => {
            ipv4_text_reads_back(o);
        },
        None => {
            ipv6_text_reads_back(ipv6_segments(s)->0);
        },
    }
}

} // verus!
