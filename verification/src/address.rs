//! Socket addresses in text form (`1.2.3.4:80`, `[::1]:80`,
//! `[fe80::1%2]:80`), read as `str::parse::<SocketAddr>` reads them.

use vstd::prelude::*;
use vstd::string::*;
use crate::lorawan::is_hex_digit;
use crate::text::{all_digits, digits_value, split_seq, split_str, parse_unsigned};

verus! {

pub open spec fn hex_value(c: char) -> nat {
    if '0' <= c && c <= '9' {
        (c as int - '0' as int) as nat
    } else if 'a' <= c && c <= 'f' {
        (c as int - 'a' as int + 10) as nat
    } else {
        (c as int - 'A' as int + 10) as nat
    }
}

/// The value of a run of hexadecimal digits, most significant first.
pub open spec fn hex_digits_value(s: Seq<char>) -> nat
    decreases s.len(),
{
    if s.len() == 0 {
        0
    } else {
        hex_digits_value(s.drop_last()) * 16 + hex_value(s.last())
    }
}

/// A group of an IPv6 address: one to four hexadecimal digits.
pub open spec fn hex_group(t: Seq<char>) -> Option<nat> {
    if 1 <= t.len() <= 4 && forall|i: int| 0 <= i < t.len() ==> is_hex_digit(#[trigger] t[i]) {
        Some(hex_digits_value(t))
    } else {
        None
    }
}

/// A decimal number without sign and at most `max` (ports and scope ids;
/// leading zeros are allowed).
pub open spec fn plain_number(t: Seq<char>, max: nat) -> Option<nat> {
    if t.len() > 0 && all_digits(t) && digits_value(t) <= max {
        Some(digits_value(t))
    } else {
        None
    }
}

/// A part of a dotted IPv4 address: one to three digits, no leading zero,
/// at most 255.
pub open spec fn octet(t: Seq<char>) -> Option<nat> {
    if 1 <= t.len() <= 3 && (t.len() == 1 || t[0] != '0') {
        plain_number(t, 255)
    } else {
        None
    }
}

/// The four parts of a dotted IPv4 address.
pub open spec fn ipv4_octets(t: Seq<char>) -> Option<Seq<nat>> {
    let p = split_seq(t, '.');
    if p.len() == 4 && octet(p[0]) is Some && octet(p[1]) is Some && octet(p[2]) is Some && octet(
        p[3],
    ) is Some {
        Some(seq![octet(p[0]).unwrap(), octet(p[1]).unwrap(), octet(p[2]).unwrap(), octet(p[3]).unwrap()])
    } else {
        None
    }
}

/// The values of `p`, each a group of an IPv6 address.
pub open spec fn hex_groups(p: Seq<Seq<char>>) -> Option<Seq<nat>>
    decreases p.len(),
{
    if p.len() == 0 {
        Some(Seq::<nat>::empty())
    } else {
        match (hex_groups(p.drop_last()), hex_group(p.last())) {
            (Some(a), Some(g)) => Some(a.push(g)),
            _ => None,
        }
    }
}

/// The groups `p` stand for: groups, of which the last may instead be a
/// dotted IPv4 address that stands for two.
pub open spec fn groups_v4_last(p: Seq<Seq<char>>) -> Option<Seq<nat>> {
    if p.len() == 0 {
        Some(Seq::<nat>::empty())
    } else {
        match hex_groups(p.drop_last()) {
            None => None,
            Some(a) => match hex_group(p.last()) {
                Some(g) => Some(a.push(g)),
                None => match ipv4_octets(p.last()) {
                    Some(o) => Some(a.push(o[0] * 256 + o[1]).push(o[2] * 256 + o[3])),
                    None => None,
                },
            },
        }
    }
}

/// Where `::` first occurs in `t`.
pub open spec fn find_double_colon(t: Seq<char>) -> Option<nat>
    decreases t.len(),
{
    if t.len() < 2 {
        None
    } else if t[0] == ':' && t[1] == ':' {
        Some(0)
    } else {
        match find_double_colon(t.drop_first()) {
            Some(i) => Some(i + 1),
            None => None,
        }
    }
}

/// The eight groups of an IPv6 address: eight written out, or `::`
/// standing for the one or more zero groups between those before and after
/// it. A dotted IPv4 address may end it, standing for the last two.
pub open spec fn ipv6_groups(t: Seq<char>) -> Option<Seq<nat>> {
    match find_double_colon(t) {
        None => match groups_v4_last(split_seq(t, ':')) {
            Some(g) => if g.len() == 8 {
                Some(g)
            } else {
                None
            },
            None => None,
        },
        Some(i) => {
            let h = t.take(i as int);
            let r = t.skip(i as int + 2);
            let hs = if h.len() == 0 {
                Some(Seq::<nat>::empty())
            } else {
                hex_groups(split_seq(h, ':'))
            };
            let ts = if r.len() == 0 {
                Some(Seq::<nat>::empty())
            } else {
                groups_v4_last(split_seq(r, ':'))
            };
            match (hs, ts) {
                (Some(a), Some(b)) => if a.len() + b.len() <= 7 {
                    Some(a + Seq::new((8 - a.len() - b.len()) as nat, |k: int| 0nat) + b)
                } else {
                    None
                },
                _ => None,
            }
        },
    }
}

/// What the text of a socket address says: whether it is an IPv6 address,
/// the address's parts (four octets of an IPv4 address, or eight groups of
/// an IPv6 one), its scope id, and its port. `None` when the text is not a
/// socket address.
pub open spec fn socket_addr_value(s: Seq<char>) -> Option<(bool, Seq<nat>, nat, nat)> {
    if s.len() > 0 && s[0] == '[' {
        let p = split_seq(s, ']');
        if p.len() == 2 && p[0].len() > 0 && p[1].len() > 0 && p[1][0] == ':' {
            let q = split_seq(p[0].drop_first(), '%');
            let scope = if q.len() == 1 {
                Some(0nat)
            } else if q.len() == 2 {
                plain_number(q[1], u32::MAX as nat)
            } else {
                None
            };
            match (ipv6_groups(q[0]), scope, plain_number(p[1].drop_first(), u16::MAX as nat)) {
                (Some(g), Some(sc), Some(port)) => Some((true, g, sc, port)),
                _ => None,
            }
        } else {
            None
        }
    } else {
        let p = split_seq(s, ':');
        if p.len() == 2 {
            match (ipv4_octets(p[0]), plain_number(p[1], u16::MAX as nat)) {
                (Some(o), Some(port)) => Some((false, o, 0nat, port)),
                _ => None,
            }
        } else {
            None
        }
    }
}

/// An IP address: four octets, or eight groups with a scope id.
#[derive(Debug, PartialEq, Eq)]
pub enum IpAddress {
    V4(u8, u8, u8, u8),
    V6(Vec<u16>, u32),
}

#[derive(Debug, PartialEq, Eq)]
pub struct SocketAddress {
    pub ip: IpAddress,
    pub port: u16,
}

pub open spec fn wide(v: Seq<u16>) -> Seq<nat> {
    v.map_values(|g: u16| g as nat)
}

/// The family (`true` for IPv6), parts, scope id and port of `a`, as
/// `socket_addr_value` gives them.
pub open spec fn addr_model(a: SocketAddress) -> (bool, Seq<nat>, nat, nat) {
    match a.ip {
        IpAddress::V4(w, x, y, z) => (false, seq![w as nat, x as nat, y as nat, z as nat], 0nat, a.port as nat),
        IpAddress::V6(g, sc) => (true, wide(g@), sc as nat, a.port as nat),
    }
}

/// Every IPv6 address has eight groups.
pub proof fn lemma_ipv6_has_eight_groups(t: Seq<char>)
    ensures
        ipv6_groups(t) matches Some(g) ==> g.len() == 8,
{
}

proof fn lemma_wide_push(v: Seq<u16>, x: u16)
    ensures
        wide(v.push(x)) == wide(v).push(x as nat),
{
    assert(wide(v.push(x)) =~= wide(v).push(x as nat));
}

proof fn lemma_double_colon_found(t: Seq<char>)
    ensures
        find_double_colon(t) matches Some(i) ==> i + 2 <= t.len(),
    decreases t.len(),
{
    if t.len() >= 2 && !(t[0] == ':' && t[1] == ':') {
        lemma_double_colon_found(t.drop_first());
    }
}

impl SocketAddress {
    pub fn copy(&self) -> (r: SocketAddress)
        ensures
            addr_model(r) == addr_model(*self),
    {
        let ip = match &self.ip {
            IpAddress::V4(a, b, c, d) => IpAddress::V4(*a, *b, *c, *d),
            IpAddress::V6(g, sc) => {
                let mut out: Vec<u16> = Vec::new();
                let mut k: usize = 0;
                while k < g.len()
                    invariant
                        0 <= k <= g@.len(),
                        out@ == g@.take(k as int),
                    decreases g@.len() - k,
                {
                    out.push(g[k]);
                    assert(out@ =~= g@.take(k + 1));
                    k = k + 1;
                }
                assert(g@.take(g@.len() as int) =~= g@);
                IpAddress::V6(out, *sc)
            },
        };
        SocketAddress { ip, port: self.port }
    }
}

/// Reads a decimal number without sign, at most `max`.
pub fn parse_plain_number(t: &str, max: u64) -> (r: Option<u64>)
    ensures
        match plain_number(t@, max as nat) {
            Some(v) => r == Some(v as u64),
            None => r is None,
        },
{
    if t.unicode_len() == 0 || t.get_char(0) == '+' {
        return None;
    }
    parse_unsigned(t, max)
}

fn parse_octet(t: &str) -> (r: Option<u8>)
    ensures
        match octet(t@) {
            Some(v) => r == Some(v as u8),
            None => r is None,
        },
{
    let n = t.unicode_len();
    if n < 1 || n > 3 {
        return None;
    }
    if n > 1 && t.get_char(0) == '0' {
        return None;
    }
    match parse_plain_number(t, 255) {
        Some(v) => Some(v as u8),
        None => None,
    }
}

fn hex_digit_value(c: char) -> (r: u32)
    requires
        is_hex_digit(c),
    ensures
        r == hex_value(c),
        r < 16,
{
    if '0' <= c && c <= '9' {
        (c as u32) - ('0' as u32)
    } else if 'a' <= c && c <= 'f' {
        (c as u32) - ('a' as u32) + 10
    } else {
        (c as u32) - ('A' as u32) + 10
    }
}

proof fn lemma_hex_bound(s: Seq<char>)
    requires
        forall|i: int| 0 <= i < s.len() ==> is_hex_digit(#[trigger] s[i]),
        s.len() <= 4,
    ensures
        hex_digits_value(s) < 65536,
    decreases s.len(),
{
    if s.len() > 0 {
        let d = s.drop_last();
        assert forall|i: int| 0 <= i < d.len() implies is_hex_digit(#[trigger] d[i]) by {
            assert(d[i] == s[i]);
        }
        lemma_hex_bound(d);
        let v = hex_digits_value(d);
        let c = s.last();
        assert(is_hex_digit(s[s.len() - 1]));
        assert(hex_value(c) < 16);
        if s.len() <= 3 {
            lemma_hex_bound_short(d);
            assert(v < 4096);
        }
        if s.len() == 4 {
            lemma_hex_bound_short(d);
        }
        assert(v * 16 + hex_value(c) < 65536) by (nonlinear_arith)
            requires
                v < 4096,
                hex_value(c) < 16,
        ;
    }
}

proof fn lemma_hex_bound_short(s: Seq<char>)
    requires
        forall|i: int| 0 <= i < s.len() ==> is_hex_digit(#[trigger] s[i]),
        s.len() <= 3,
    ensures
        hex_digits_value(s) < 4096,
    decreases s.len(),
{
    if s.len() > 0 {
        let d = s.drop_last();
        assert forall|i: int| 0 <= i < d.len() implies is_hex_digit(#[trigger] d[i]) by {
            assert(d[i] == s[i]);
        }
        lemma_hex_bound_short2(d);
        let v = hex_digits_value(d);
        let c = s.last();
        assert(is_hex_digit(s[s.len() - 1]));
        assert(v * 16 + hex_value(c) < 4096) by (nonlinear_arith)
            requires
                v < 256,
                hex_value(c) < 16,
        ;
    }
}

proof fn lemma_hex_bound_short2(s: Seq<char>)
    requires
        forall|i: int| 0 <= i < s.len() ==> is_hex_digit(#[trigger] s[i]),
        s.len() <= 2,
    ensures
        hex_digits_value(s) < 256,
    decreases s.len(),
{
    if s.len() > 0 {
        let d = s.drop_last();
        let c = s.last();
        assert(is_hex_digit(s[s.len() - 1]));
        let v = hex_digits_value(d);
        if d.len() > 0 {
            assert(is_hex_digit(s[0]));
            assert(d.drop_last() =~= Seq::<char>::empty());
            assert(d.last() == s[0]);
            assert(hex_digits_value(d.drop_last()) == 0);
            assert(hex_value(s[0]) < 16);
            assert(v == hex_value(s[0]));
        } else {
            assert(v == 0);
        }
        assert(v < 16);
        assert(v * 16 + hex_value(c) < 256) by (nonlinear_arith)
            requires
                v < 16,
                hex_value(c) < 16,
        ;
    }
}

fn parse_hex_group(t: &str) -> (r: Option<u16>)
    ensures
        match hex_group(t@) {
            Some(v) => r == Some(v as u16) && v < 65536,
            None => r is None,
        },
{
    let n = t.unicode_len();
    if n < 1 || n > 4 {
        return None;
    }
    let mut acc: u32 = 0;
    let mut i: usize = 0;
    assert(t@.take(0) =~= Seq::<char>::empty());
    while i < n
        invariant
            n == t@.len(),
            1 <= n <= 4,
            0 <= i <= n,
            forall|j: int| 0 <= j < i ==> is_hex_digit(#[trigger] t@[j]),
            acc as nat == hex_digits_value(t@.take(i as int)),
        decreases n - i,
    {
        let c = t.get_char(i);
        if !(('0' <= c && c <= '9') || ('a' <= c && c <= 'f') || ('A' <= c && c <= 'F')) {
            assert(!is_hex_digit(t@[i as int]));
            return None;
        }
        let ghost before = t@.take(i as int);
        assert(t@.take(i + 1).drop_last() =~= before);
        assert(t@.take(i + 1).last() == c);
        proof {
            assert forall|j: int| 0 <= j < before.len() implies is_hex_digit(#[trigger] before[j]) by {
                assert(before[j] == t@[j]);
            }
            lemma_hex_bound(before);
        }
        let d = hex_digit_value(c);
        assert(acc * 16 + d < 65536 * 16) by (nonlinear_arith)
            requires
                acc < 65536,
                d < 16,
        ;
        acc = acc * 16 + d;
        i = i + 1;
    }
    assert(t@.take(n as int) =~= t@);
    proof {
        lemma_hex_bound(t@);
    }
    Some(acc as u16)
}

fn parse_ipv4(t: &str) -> (r: Option<(u8, u8, u8, u8)>)
    ensures
        match ipv4_octets(t@) {
            Some(o) => r matches Some((a, b, c, d)) && o == seq![a as nat, b as nat, c as nat, d as nat],
            None => r is None,
        },
{
    let parts = split_str(t, '.');
    let ghost views = parts@.map_values(|p: String| p@);
    if parts.len() != 4 {
        return None;
    }
    assert(views[0] == parts@[0]@ && views[1] == parts@[1]@);
    assert(views[2] == parts@[2]@ && views[3] == parts@[3]@);
    let a = match parse_octet(parts[0].as_str()) {
        Some(v) => v,
        None => return None,
    };
    let b = match parse_octet(parts[1].as_str()) {
        Some(v) => v,
        None => return None,
    };
    let c = match parse_octet(parts[2].as_str()) {
        Some(v) => v,
        None => return None,
    };
    let d = match parse_octet(parts[3].as_str()) {
        Some(v) => v,
        None => return None,
    };
    Some((a, b, c, d))
}

proof fn lemma_hex_groups_prefix(p: Seq<Seq<char>>, i: int)
    requires
        0 <= i <= p.len(),
        hex_groups(p.take(i)) is None,
    ensures
        hex_groups(p) is None,
    decreases p.len() - i,
{
    if i < p.len() {
        assert(p.take(i + 1).drop_last() =~= p.take(i));
        lemma_hex_groups_prefix(p, i + 1);
    } else {
        assert(p.take(i) =~= p);
    }
}

proof fn lemma_hex_groups_len(p: Seq<Seq<char>>)
    requires
        hex_groups(p) is Some,
    ensures
        hex_groups(p).unwrap().len() == p.len(),
    decreases p.len(),
{
    if p.len() > 0 {
        lemma_hex_groups_len(p.drop_last());
    }
}

/// Reads the groups of `parts`: all of them groups when `v4_last` is false,
/// else as `groups_v4_last` reads them.
fn parse_groups(parts: &Vec<String>, v4_last: bool) -> (r: Option<Vec<u16>>)
    ensures
        ({
            let views = parts@.map_values(|p: String| p@);
            let want = if v4_last {
                groups_v4_last(views)
            } else {
                hex_groups(views)
            };
            match want {
                Some(g) => r matches Some(v) && wide(v@) == g,
                None => r is None,
            }
        }),
{
    let ghost views = parts@.map_values(|p: String| p@);
    let n = parts.len();
    assert(views.len() == n);
    if n == 0 {
        return Some(Vec::new());
    }
    let hex_count = if v4_last {
        n - 1
    } else {
        n
    };
    let mut out: Vec<u16> = Vec::new();
    let mut i: usize = 0;
    assert(views.take(0) =~= Seq::<Seq<char>>::empty());
    assert(wide(out@) =~= Seq::<nat>::empty());
    while i < hex_count
        invariant
            n == parts@.len(),
            views == parts@.map_values(|p: String| p@),
            n >= 1,
            hex_count == if v4_last {
                n - 1
            } else {
                n as int
            },
            views.len() == n,
            0 <= i <= hex_count,
            hex_groups(views.take(i as int)) == Some(wide(out@)),
        decreases hex_count - i,
    {
        assert(views[i as int] == parts@[i as int]@);
        assert(views.take(i + 1).drop_last() =~= views.take(i as int));
        assert(views.take(i + 1).last() == views[i as int]);
        match parse_hex_group(parts[i].as_str()) {
            Some(g) => {
                let ghost before = out@;
                out.push(g);
                proof {
                    lemma_wide_push(before, g);
                }
            },
            None => {
                proof {
                    lemma_hex_groups_prefix(views, i + 1);
                    if v4_last {
                        lemma_hex_groups_prefix(views.drop_last(), i + 1);
                        assert(views.drop_last().take(i + 1) =~= views.take(i + 1));
                    }
                }
                return None;
            },
        }
        i = i + 1;
    }
    if !v4_last {
        assert(views.take(n as int) =~= views);
        return Some(out);
    }
    assert(views.take((n - 1) as int) =~= views.drop_last());
    let last = parts[n - 1].as_str();
    assert(views.last() == parts@[n - 1]@);
    match parse_hex_group(last) {
        Some(g) => {
            let ghost before = out@;
            out.push(g);
            proof {
                lemma_wide_push(before, g);
            }
            Some(out)
        },
        None => match parse_ipv4(last) {
            Some((a, b, c, d)) => {
                let hi: u16 = (a as u16) * 256 + (b as u16);
                let lo: u16 = (c as u16) * 256 + (d as u16);
                let ghost before = out@;
                out.push(hi);
                out.push(lo);
                proof {
                    lemma_wide_push(before, hi);
                    lemma_wide_push(before.push(hi), lo);
                }
                Some(out)
            },
            None => None,
        },
    }
}

/// Where `::` first occurs in `t`.
fn double_colon_at(t: &str) -> (r: Option<usize>)
    ensures
        match find_double_colon(t@) {
            Some(i) => r == Some(i as usize),
            None => r is None,
        },
{
    let n = t.unicode_len();
    let mut i: usize = 0;
    assert(t@.skip(0) =~= t@);
    while n >= 2 && i < n - 1
        invariant
            n == t@.len(),
            0 <= i <= n,
            find_double_colon(t@) == match find_double_colon(t@.skip(i as int)) {
                Some(j) => Some((j + i) as nat),
                None => None,
            },
        decreases n - i,
    {
        let ghost rest = t@.skip(i as int);
        assert(rest[0] == t@[i as int] && rest[1] == t@[i + 1]);
        if t.get_char(i) == ':' && t.get_char(i + 1) == ':' {
            return Some(i);
        }
        assert(rest.drop_first() =~= t@.skip(i + 1));
        i = i + 1;
    }
    None
}

fn parse_ipv6(t: &str) -> (r: Option<Vec<u16>>)
    ensures
        match ipv6_groups(t@) {
            Some(g) => r matches Some(v) && wide(v@) == g,
            None => r is None,
        },
{
    let n = t.unicode_len();
    match double_colon_at(t) {
        None => {
            let parts = split_str(t, ':');
            match parse_groups(&parts, true) {
                Some(g) => if g.len() == 8 {
                    Some(g)
                } else {
                    None
                },
                None => None,
            }
        },
        Some(i) => {
            let ghost tv = t@;
            proof {
                lemma_double_colon_found(tv);
            }
            assert(i + 2 <= n);
            let h = t.substring_char(0, i);
            let r = t.substring_char(i + 2, n);
            assert(h@ =~= tv.take(i as int));
            assert(r@ =~= tv.skip(i + 2));
            let hs = if h.unicode_len() == 0 {
                Vec::new()
            } else {
                let hp = split_str(h, ':');
                match parse_groups(&hp, false) {
                    Some(g) => g,
                    None => return None,
                }
            };
            let ts = if r.unicode_len() == 0 {
                Vec::new()
            } else {
                let rp = split_str(r, ':');
                match parse_groups(&rp, true) {
                    Some(g) => g,
                    None => return None,
                }
            };
            assert(wide(hs@).len() == hs@.len() && wide(ts@).len() == ts@.len());
            if hs.len() > 7 || ts.len() > 7 - hs.len() {
                return None;
            }
            let zeros = 8 - hs.len() - ts.len();
            let mut out: Vec<u16> = Vec::new();
            let mut k: usize = 0;
            while k < hs.len()
                invariant
                    0 <= k <= hs@.len(),
                    wide(out@) == wide(hs@).take(k as int),
                decreases hs@.len() - k,
            {
                let ghost before = out@;
                out.push(hs[k]);
                proof {
                    lemma_wide_push(before, hs@[k as int]);
                }
                assert(wide(out@) =~= wide(hs@).take(k + 1));
                k = k + 1;
            }
            assert(wide(hs@).take(hs@.len() as int) =~= wide(hs@));
            let mut z: usize = 0;
            while z < zeros
                invariant
                    0 <= z <= zeros,
                    zeros + hs@.len() + ts@.len() == 8,
                    wide(out@) == wide(hs@) + Seq::new(z as nat, |q: int| 0nat),
                decreases zeros - z,
            {
                let ghost before = out@;
                out.push(0);
                proof {
                    lemma_wide_push(before, 0);
                }
                assert(wide(out@) =~= wide(hs@) + Seq::new((z + 1) as nat, |q: int| 0nat));
                z = z + 1;
            }
            let ghost mid = wide(out@);
            let mut k: usize = 0;
            while k < ts.len()
                invariant
                    0 <= k <= ts@.len(),
                    zeros + hs@.len() + ts@.len() == 8,
                    wide(out@) == mid + wide(ts@).take(k as int),
                decreases ts@.len() - k,
            {
                let ghost before = out@;
                out.push(ts[k]);
                proof {
                    lemma_wide_push(before, ts@[k as int]);
                }
                assert(wide(out@) =~= mid + wide(ts@).take(k + 1));
                k = k + 1;
            }
            assert(wide(ts@).take(ts@.len() as int) =~= wide(ts@));
            Some(out)
        },
    }
}

/// Reads the text of a socket address, as `str::parse::<SocketAddr>` does.
pub fn parse_socket_address(s: &str) -> (r: Option<SocketAddress>)
    ensures
        match socket_addr_value(s@) {
            Some(m) => r matches Some(a) && addr_model(a) == m && (a.ip is V4 <==> !m.0) && (a.ip matches IpAddress::V6(
                g,
                _,
            ) ==> g@.len() == 8),
            None => r is None,
        },
{
    let n = s.unicode_len();
    if n > 0 && s.get_char(0) == '[' {
        let p = split_str(s, ']');
        let ghost views = p@.map_values(|x: String| x@);
        if p.len() != 2 {
            return None;
        }
        assert(views[0] == p@[0]@ && views[1] == p@[1]@);
        let p0 = p[0].as_str();
        let p1 = p[1].as_str();
        let l0 = p0.unicode_len();
        let l1 = p1.unicode_len();
        if l0 == 0 || l1 == 0 || p1.get_char(0) != ':' {
            return None;
        }
        let inner = p0.substring_char(1, l0);
        let port_text = p1.substring_char(1, l1);
        assert(inner@ =~= p0@.drop_first());
        assert(port_text@ =~= p1@.drop_first());
        let q = split_str(inner, '%');
        let ghost qv = q@.map_values(|x: String| x@);
        proof {
            crate::text::lemma_split_nonempty(inner@, '%');
        }
        assert(qv.len() == q@.len());
        assert(qv[0] == q@[0]@);
        let scope: u32 = if q.len() == 1 {
            0
        } else if q.len() == 2 {
            assert(qv[1] == q@[1]@);
            match parse_plain_number(q[1].as_str(), 4294967295) {
                Some(v) => v as u32,
                None => return None,
            }
        } else {
            return None;
        };
        let groups = match parse_ipv6(q[0].as_str()) {
            Some(g) => g,
            None => return None,
        };
        let port = match parse_plain_number(port_text, 65535) {
            Some(v) => v as u16,
            None => return None,
        };
        proof {
            lemma_ipv6_has_eight_groups(qv[0]);
        }
        assert(wide(groups@).len() == groups@.len());
        Some(SocketAddress { ip: IpAddress::V6(groups, scope), port })
    } else {
        let p = split_str(s, ':');
        let ghost views = p@.map_values(|x: String| x@);
        if p.len() != 2 {
            return None;
        }
        assert(views[0] == p@[0]@ && views[1] == p@[1]@);
        let (a, b, c, d) = match parse_ipv4(p[0].as_str()) {
            Some(o) => o,
            None => return None,
        };
        let port = match parse_plain_number(p[1].as_str(), 65535) {
            Some(v) => v as u16,
            None => return None,
        };
        Some(SocketAddress { ip: IpAddress::V4(a, b, c, d), port })
    }
}

} // verus!
