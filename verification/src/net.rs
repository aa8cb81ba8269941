//! IP addresses and socket addresses, and their text forms.
//!
//! The grammar accepted is that of the standard library's `FromStr` for
//! `IpAddr` and `SocketAddr`: dotted-decimal IPv4 without leading zeros,
//! IPv6 in groups of up to four hex digits with an optional `::` and an
//! optional trailing IPv4 part, `a.b.c.d:port` and `[v6%scope]:port`.
use vstd::prelude::*;

use crate::text::chars_of;

verus! {

/// An IP address: the 32 bits of an IPv4 address or the 128 bits of an IPv6
/// address, most significant bit first.
#[derive(Clone, Copy, PartialEq, Eq, Debug, Hash, Structural)]
pub enum IpAddr {
    V4(u32),
    V6(u128),
}

/// An IP address with a port, and for IPv6 the scope id (0 for IPv4).
#[derive(Clone, Copy, PartialEq, Eq, Debug, Hash, Structural)]
pub struct SocketAddr {
    pub ip: IpAddr,
    pub port: u16,
    pub scope_id: u32,
}

impl SocketAddr {
    /// The address `ip:port` with scope id 0.
    pub fn new(ip: IpAddr, port: u16) -> (r: SocketAddr)
        ensures
            r == (SocketAddr { ip, port, scope_id: 0 }),
    {
        SocketAddr { ip, port, scope_id: 0 }
    }
}

// ---------------------------------------------------------------------------
// The grammar, as spec functions over the characters and a position.
// ---------------------------------------------------------------------------

/// The value of `c` as a digit in base `radix` (10 or 16).
pub open spec fn digit_value(c: char, radix: nat) -> Option<nat> {
    let v = c as u32 as int;
    if 48 <= v <= 57 {
        Some((v - 48) as nat)
    } else if radix == 16 && 97 <= v <= 102 {
        Some((v - 87) as nat)
    } else if radix == 16 && 65 <= v <= 70 {
        Some((v - 55) as nat)
    } else {
        None
    }
}

/// The length of the longest run of digits that starts at `i`.
pub open spec fn digit_run(s: Seq<char>, i: int, radix: nat) -> nat
    decreases s.len() - i,
{
    if 0 <= i < s.len() && digit_value(s[i], radix) is Some {
        1 + digit_run(s, i + 1, radix)
    } else {
        0
    }
}

/// The number written by the `n` digits that start at `i`.
pub open spec fn digits_value(s: Seq<char>, i: int, n: nat, radix: nat) -> nat
    decreases n,
{
    if n == 0 {
        0
    } else {
        let d = match digit_value(s[i + n - 1], radix) {
            Some(d) => d,
            None => 0,
        };
        digits_value(s, i, (n - 1) as nat, radix) * radix + d
    }
}

/// A number at `i`: the whole run of digits, at most `max_digits` of them when
/// that is given, a value of at most `max`, and no leading zero unless
/// `allow_zero_prefix`. Gives the value and the position after it.
pub open spec fn read_number(
    s: Seq<char>,
    i: int,
    radix: nat,
    max_digits: Option<nat>,
    allow_zero_prefix: bool,
    max: nat,
) -> Option<(nat, int)> {
    let n = digit_run(s, i, radix);
    if n == 0 {
        None
    } else if max_digits matches Some(m) && n > m {
        None
    } else if digits_value(s, i, n, radix) > max {
        None
    } else if !allow_zero_prefix && s[i] == '0' && n > 1 {
        None
    } else {
        Some((digits_value(s, i, n, radix), i + n))
    }
}

/// A number at `i`, preceded by the separator `sep` unless it is the first one.
pub open spec fn read_sep_number(
    s: Seq<char>,
    i: int,
    first: bool,
    sep: char,
    radix: nat,
    max_digits: Option<nat>,
    allow_zero_prefix: bool,
    max: nat,
) -> Option<(nat, int)> {
    if first {
        read_number(s, i, radix, max_digits, allow_zero_prefix, max)
    } else if 0 <= i < s.len() && s[i] == sep {
        read_number(s, i + 1, radix, max_digits, allow_zero_prefix, max)
    } else {
        None
    }
}

/// One octet of a dotted-decimal address.
pub open spec fn read_octet(s: Seq<char>, i: int, first: bool) -> Option<(nat, int)> {
    read_sep_number(s, i, first, '.', 10, Some(3), false, 255)
}

/// The 32-bit value of the octets `a.b.c.d`.
pub open spec fn octets_value(a: nat, b: nat, c: nat, d: nat) -> nat {
    a * 16777216 + b * 65536 + c * 256 + d
}

/// A dotted-decimal IPv4 address at `i`.
pub open spec fn read_ipv4(s: Seq<char>, i: int) -> Option<(u32, int)> {
    match read_octet(s, i, true) {
        None => None,
        Some((a, i1)) => match read_octet(s, i1, false) {
            None => None,
            Some((b, i2)) => match read_octet(s, i2, false) {
                None => None,
                Some((c, i3)) => match read_octet(s, i3, false) {
                    None => None,
                    Some((d, i4)) => Some((octets_value(a, b, c, d) as u32, i4)),
                },
            },
        },
    }
}

/// An IPv4 address at `i`, preceded by `:` unless it comes first.
pub open spec fn read_sep_ipv4(s: Seq<char>, i: int, first: bool) -> Option<(u32, int)> {
    if first {
        read_ipv4(s, i)
    } else if 0 <= i < s.len() && s[i] == ':' {
        read_ipv4(s, i + 1)
    } else {
        None
    }
}

/// The groups of an IPv6 address read from `i`, the `k`-th group first, at
/// most `limit - k` of them: a trailing IPv4 part counts as two groups and
/// ends the run. Gives the groups, whether an IPv4 part ended them, and the
/// position after them.
pub open spec fn read_groups(s: Seq<char>, i: int, k: nat, limit: nat) -> (Seq<u16>, bool, int)
    decreases limit - k,
{
    if k >= limit {
        (Seq::empty(), false, i)
    } else {
        let v4 = if k + 1 < limit {
            read_sep_ipv4(s, i, k == 0)
        } else {
            None
        };
        match v4 {
            Some((a, j)) => (seq![(a / 65536) as u16, (a % 65536) as u16], true, j),
            None => match read_sep_number(s, i, k == 0, ':', 16, Some(4), true, 65535) {
                None => (Seq::empty(), false, i),
                Some((g, j)) => {
                    let r = read_groups(s, j, k + 1, limit);
                    (seq![g as u16] + r.0, r.1, r.2)
                },
            },
        }
    }
}

/// The 128-bit value of eight 16-bit groups, the first most significant.
pub open spec fn groups_value(gs: Seq<u16>) -> nat
    decreases gs.len(),
{
    if gs.len() == 0 {
        0
    } else {
        groups_value(gs.drop_last()) * 65536 + gs.last() as nat
    }
}

/// `n` zero groups.
pub open spec fn zero_groups(n: nat) -> Seq<u16> {
    Seq::new(n, |_j: int| 0u16)
}

/// An IPv6 address at `i`: eight groups, or up to seven groups around one
/// `::` that stands for the missing ones.
pub open spec fn read_ipv6(s: Seq<char>, i: int) -> Option<(u128, int)> {
    let (head, head_v4, p1) = read_groups(s, i, 0, 8);
    if head.len() == 8 {
        Some((groups_value(head) as u128, p1))
    } else if head_v4 {
        None
    } else if 0 <= p1 && p1 + 1 < s.len() && s[p1] == ':' && s[p1 + 1] == ':' {
        let limit = (7 - head.len()) as nat;
        let (tail, _tail_v4, p2) = read_groups(s, p1 + 2, 0, limit);
        let all = head + zero_groups((8 - head.len() - tail.len()) as nat) + tail;
        Some((groups_value(all) as u128, p2))
    } else {
        None
    }
}

/// The whole text as an IP address: IPv4 is tried first, then IPv6.
pub open spec fn spec_parse_ip(s: Seq<char>) -> Option<IpAddr> {
    match read_ipv4(s, 0) {
        Some((v, j)) => if j == s.len() {
            Some(IpAddr::V4(v))
        } else {
            None
        },
        None => match read_ipv6(s, 0) {
            Some((v, j)) => if j == s.len() {
                Some(IpAddr::V6(v))
            } else {
                None
            },
            None => None,
        },
    }
}

/// `:port` at `i`.
pub open spec fn read_port(s: Seq<char>, i: int) -> Option<(u16, int)> {
    match read_sep_number(s, i, false, ':', 10, None, true, 65535) {
        Some((p, j)) => Some((p as u16, j)),
        None => None,
    }
}

/// `%scope` at `i`.
pub open spec fn read_scope_id(s: Seq<char>, i: int) -> Option<(u32, int)> {
    match read_sep_number(s, i, false, '%', 10, None, true, 4294967295) {
        Some((v, j)) => Some((v as u32, j)),
        None => None,
    }
}

/// `a.b.c.d:port` at `i`.
pub open spec fn read_socket_v4(s: Seq<char>, i: int) -> Option<(SocketAddr, int)> {
    match read_ipv4(s, i) {
        None => None,
        Some((ip, j)) => match read_port(s, j) {
            None => None,
            Some((port, k)) => Some((SocketAddr { ip: IpAddr::V4(ip), port, scope_id: 0 }, k)),
        },
    }
}

/// `[v6]:port` or `[v6%scope]:port` at `i`.
pub open spec fn read_socket_v6(s: Seq<char>, i: int) -> Option<(SocketAddr, int)> {
    if 0 <= i < s.len() && s[i] == '[' {
        match read_ipv6(s, i + 1) {
            None => None,
            Some((ip, j)) => {
                let (scope_id, j2) = match read_scope_id(s, j) {
                    Some((v, k)) => (v, k),
                    None => (0u32, j),
                };
                if 0 <= j2 < s.len() && s[j2] == ']' {
                    match read_port(s, j2 + 1) {
                        None => None,
                        Some((port, k)) => Some(
                            (SocketAddr { ip: IpAddr::V6(ip), port, scope_id }, k),
                        ),
                    }
                } else {
                    None
                }
            },
        }
    } else {
        None
    }
}

/// The whole text as a socket address: the IPv4 form is tried first.
pub open spec fn spec_parse_socket_addr(s: Seq<char>) -> Option<SocketAddr> {
    match read_socket_v4(s, 0) {
        Some((a, j)) => if j == s.len() {
            Some(a)
        } else {
            None
        },
        None => match read_socket_v6(s, 0) {
            Some((a, j)) => if j == s.len() {
                Some(a)
            } else {
                None
            },
            None => None,
        },
    }
}

// ---------------------------------------------------------------------------
// Lemmas.
// ---------------------------------------------------------------------------

proof fn lemma_digits_value_grows(s: Seq<char>, i: int, n: nat, radix: nat)
    requires
        radix >= 1,
    ensures
        digits_value(s, i, n + 1, radix) >= digits_value(s, i, n, radix),
{
    let v = digits_value(s, i, n, radix);
    assert(v * radix >= v) by (nonlinear_arith)
        requires
            radix >= 1,
    ;
}

proof fn lemma_read_number_bound(
    s: Seq<char>,
    i: int,
    radix: nat,
    max_digits: Option<nat>,
    allow_zero_prefix: bool,
    max: nat,
)
    ensures
        read_number(s, i, radix, max_digits, allow_zero_prefix, max) matches Some((v, j)) ==> v
            <= max && j > i,
{
}

proof fn lemma_read_groups_len(s: Seq<char>, i: int, k: nat, limit: nat)
    ensures
        k <= limit ==> read_groups(s, i, k, limit).0.len() <= limit - k,
        read_groups(s, i, k, limit).1 ==> read_groups(s, i, k, limit).0.len() >= 2,
    decreases limit - k,
{
    if k < limit {
        lemma_read_groups_len(s, read_groups_next_pos(s, i, k), k + 1, limit);
    }
}

/// The position after the `k`-th group when it is a plain group.
spec fn read_groups_next_pos(s: Seq<char>, i: int, k: nat) -> int {
    match read_sep_number(s, i, k == 0, ':', 16, Some(4), true, 65535) {
        Some((_g, j)) => j,
        None => i,
    }
}

/// The bound on the value of `n` groups.
spec fn groups_bound(n: nat) -> nat
    decreases n,
{
    if n == 0 {
        1
    } else {
        groups_bound((n - 1) as nat) * 65536
    }
}

proof fn lemma_groups_value_bound(gs: Seq<u16>)
    ensures
        groups_value(gs) < groups_bound(gs.len()),
    decreases gs.len(),
{
    if gs.len() > 0 {
        lemma_groups_value_bound(gs.drop_last());
        let a = groups_value(gs.drop_last());
        let b = groups_bound((gs.len() - 1) as nat);
        let l = gs.last() as nat;
        assert(a * 65536 + l < b * 65536) by (nonlinear_arith)
            requires
                a < b,
                l < 65536,
        ;
    }
}

// ---------------------------------------------------------------------------
// Executable readers, each equal to its spec function.
// ---------------------------------------------------------------------------

fn digit_of(c: char, radix: u32) -> (r: Option<u32>)
    requires
        radix == 10 || radix == 16,
    ensures
        match r {
            Some(d) => digit_value(c, radix as nat) == Some(d as nat) && d < radix,
            None => digit_value(c, radix as nat) is None,
        },
{
    let v = c as u32;
    if 48 <= v && v <= 57 {
        Some(v - 48)
    } else if radix == 16 && 97 <= v && v <= 102 {
        Some(v - 87)
    } else if radix == 16 && 65 <= v && v <= 70 {
        Some(v - 55)
    } else {
        None
    }
}

/// The executable form of an optional digit limit.
spec fn opt_nat(m: Option<usize>) -> Option<nat> {
    match m {
        Some(v) => Some(v as nat),
        None => None,
    }
}

/// Reads a number at `i`, as `read_number` says.
fn read_number_at(
    s: &Vec<char>,
    i: usize,
    radix: u32,
    max_digits: Option<usize>,
    allow_zero_prefix: bool,
    max: u32,
) -> (r: Option<(u32, usize)>)
    requires
        radix == 10 || radix == 16,
        i <= s.len(),
    ensures
        match r {
            Some((v, j)) => read_number(
                s@,
                i as int,
                radix as nat,
                opt_nat(max_digits),
                allow_zero_prefix,
                max as nat,
            ) == Some((v as nat, j as int)) && j <= s.len(),
            None => read_number(
                s@,
                i as int,
                radix as nat,
                opt_nat(max_digits),
                allow_zero_prefix,
                max as nat,
            ) is None,
        },
{
    let ghost r_nat = radix as nat;
    let cap: u64 = max as u64 + 1;
    let mut j: usize = i;
    let mut acc: u64 = 0;
    loop
        invariant
            radix == 10 || radix == 16,
            r_nat == radix as nat,
            i <= j <= s.len(),
            cap == max as u64 + 1,
            digit_run(s@, i as int, r_nat) == (j - i) + digit_run(s@, j as int, r_nat),
            acc == (if digits_value(s@, i as int, (j - i) as nat, r_nat) > max as nat {
                cap as nat
            } else {
                digits_value(s@, i as int, (j - i) as nat, r_nat)
            }),
        ensures
            i <= j <= s.len(),
            digit_run(s@, i as int, r_nat) == j - i,
            acc == (if digits_value(s@, i as int, (j - i) as nat, r_nat) > max as nat {
                cap as nat
            } else {
                digits_value(s@, i as int, (j - i) as nat, r_nat)
            }),
        decreases s.len() - j,
    {
        if j >= s.len() {
            break;
        }
        match digit_of(s[j], radix) {
            None => {
                assert(digit_run(s@, j as int, r_nat) == 0);
                break;
            },
            Some(d) => {
                proof {
                    let n = (j - i) as nat;
                    assert(digits_value(s@, i as int, n + 1, r_nat) == digits_value(
                        s@,
                        i as int,
                        n,
                        r_nat,
                    ) * r_nat + d);
                    lemma_digits_value_grows(s@, i as int, n, r_nat);
                }
                if acc < cap {
                    let next: u64 = acc * (radix as u64) + (d as u64);
                    if next > max as u64 {
                        acc = cap;
                    } else {
                        acc = next;
                    }
                }
                j = j + 1;
            },
        }
    }
    let n = j - i;
    if n == 0 {
        return None;
    }
    match max_digits {
        Some(m) => {
            if n > m {
                return None;
            }
        },
        None => {},
    }
    if acc > max as u64 {
        return None;
    }
    if !allow_zero_prefix && s[i] == '0' && n > 1 {
        return None;
    }
    Some((acc as u32, j))
}

/// Reads a number at `i` preceded by `sep` unless `first`, as
/// `read_sep_number` says.
fn read_sep_number_at(
    s: &Vec<char>,
    i: usize,
    first: bool,
    sep: char,
    radix: u32,
    max_digits: Option<usize>,
    allow_zero_prefix: bool,
    max: u32,
) -> (r: Option<(u32, usize)>)
    requires
        radix == 10 || radix == 16,
        i <= s.len(),
    ensures
        match r {
            Some((v, j)) => read_sep_number(
                s@,
                i as int,
                first,
                sep,
                radix as nat,
                opt_nat(max_digits),
                allow_zero_prefix,
                max as nat,
            ) == Some((v as nat, j as int)) && j <= s.len(),
            None => read_sep_number(
                s@,
                i as int,
                first,
                sep,
                radix as nat,
                opt_nat(max_digits),
                allow_zero_prefix,
                max as nat,
            ) is None,
        },
{
    if first {
        read_number_at(s, i, radix, max_digits, allow_zero_prefix, max)
    } else if i < s.len() && s[i] == sep {
        read_number_at(s, i + 1, radix, max_digits, allow_zero_prefix, max)
    } else {
        None
    }
}

fn read_octet_at(s: &Vec<char>, i: usize, first: bool) -> (r: Option<(u32, usize)>)
    requires
        i <= s.len(),
    ensures
        match r {
            Some((v, j)) => read_octet(s@, i as int, first) == Some((v as nat, j as int)) && j
                <= s.len() && v <= 255,
            None => read_octet(s@, i as int, first) is None,
        },
{
    let r = read_sep_number_at(s, i, first, '.', 10, Some(3), false, 255);
    proof {
        lemma_read_number_bound(s@, i as int, 10, Some(3), false, 255);
        lemma_read_number_bound(s@, i + 1, 10, Some(3), false, 255);
    }
    r
}

/// Reads a dotted-decimal IPv4 address at `i`, as `read_ipv4` says.
fn read_ipv4_at(s: &Vec<char>, i: usize) -> (r: Option<(u32, usize)>)
    requires
        i <= s.len(),
    ensures
        match r {
            Some((v, j)) => read_ipv4(s@, i as int) == Some((v, j as int)) && j <= s.len(),
            None => read_ipv4(s@, i as int) is None,
        },
{
    let (a, i1) = match read_octet_at(s, i, true) {
        Some(x) => x,
        None => return None,
    };
    let (b, i2) = match read_octet_at(s, i1, false) {
        Some(x) => x,
        None => return None,
    };
    let (c, i3) = match read_octet_at(s, i2, false) {
        Some(x) => x,
        None => return None,
    };
    let (d, i4) = match read_octet_at(s, i3, false) {
        Some(x) => x,
        None => return None,
    };
    let v: u32 = a * 16777216 + b * 65536 + c * 256 + d;
    Some((v, i4))
}

fn read_sep_ipv4_at(s: &Vec<char>, i: usize, first: bool) -> (r: Option<(u32, usize)>)
    requires
        i <= s.len(),
    ensures
        match r {
            Some((v, j)) => read_sep_ipv4(s@, i as int, first) == Some((v, j as int)) && j
                <= s.len(),
            None => read_sep_ipv4(s@, i as int, first) is None,
        },
{
    if first {
        read_ipv4_at(s, i)
    } else if i < s.len() && s[i] == ':' {
        read_ipv4_at(s, i + 1)
    } else {
        None
    }
}

/// Reads IPv6 groups, as `read_groups` says.
fn read_groups_at(s: &Vec<char>, i: usize, k: usize, limit: usize) -> (r: (Vec<u16>, bool, usize))
    requires
        i <= s.len(),
        k <= limit <= 8,
    ensures
        (r.0@, r.1, r.2 as int) == read_groups(s@, i as int, k as nat, limit as nat),
        r.2 <= s.len(),
    decreases limit - k,
{
    if k >= limit {
        return (Vec::new(), false, i);
    }
    let v4 = if k + 1 < limit {
        read_sep_ipv4_at(s, i, k == 0)
    } else {
        None
    };
    match v4 {
        Some((a, j)) => {
            let mut v: Vec<u16> = Vec::new();
            v.push((a / 65536) as u16);
            v.push((a % 65536) as u16);
            proof {
                assert(v@ =~= seq![(a / 65536) as u16, (a % 65536) as u16]);
            }
            (v, true, j)
        },
        None => {
            match read_sep_number_at(s, i, k == 0, ':', 16, Some(4), true, 65535) {
                None => (Vec::new(), false, i),
                Some((g, j)) => {
                    proof {
                        lemma_read_number_bound(s@, i as int, 16, Some(4), true, 65535);
                        lemma_read_number_bound(s@, i + 1, 16, Some(4), true, 65535);
                    }
                    let (rest, v4_end, e) = read_groups_at(s, j, k + 1, limit);
                    let mut v: Vec<u16> = Vec::new();
                    v.push(g as u16);
                    let mut t: usize = 0;
                    while t < rest.len()
                        invariant
                            t <= rest.len(),
                            v@ =~= seq![g as u16] + rest@.take(t as int),
                        decreases rest.len() - t,
                    {
                        v.push(rest[t]);
                        t = t + 1;
                        proof {
                            assert(rest@.take(t as int) =~= rest@.take(t - 1).push(rest@[t - 1]));
                        }
                    }
                    proof {
                        assert(rest@.take(rest.len() as int) =~= rest@);
                    }
                    (v, v4_end, e)
                },
            }
        },
    }
}

/// The 128-bit value of eight groups.
fn groups_to_u128(gs: &Vec<u16>) -> (r: u128)
    requires
        gs.len() == 8,
    ensures
        r as nat == groups_value(gs@),
{
    let mut acc: u128 = 0;
    let mut t: usize = 0;
    proof {
        assert(gs@.take(0) =~= Seq::<u16>::empty());
        reveal_with_fuel(groups_bound, 8);
        assert(groups_bound(7) == 0x10000000000000000000000000000nat);
    }
    while t < 8
        invariant
            t <= 8,
            gs.len() == 8,
            acc as nat == groups_value(gs@.take(t as int)),
            groups_bound(7) == 0x10000000000000000000000000000nat,
        decreases 8 - t,
    {
        proof {
            lemma_groups_value_bound(gs@.take(t as int));
            reveal_with_fuel(groups_bound, 8);
            assert(gs@.take(t + 1).drop_last() =~= gs@.take(t as int));
            let b = groups_bound(t as nat);
            assert(b <= groups_bound(7)) by {
                reveal_with_fuel(groups_bound, 8);
            }
            let a = acc as nat;
            let g = gs@[t as int] as nat;
            assert(a * 65536 + g < 0x100000000000000000000000000000000nat) by (nonlinear_arith)
                requires
                    a < b,
                    b <= 0x10000000000000000000000000000nat,
                    g < 65536,
            ;
        }
        acc = acc * 65536 + gs[t] as u128;
        t = t + 1;
    }
    proof {
        assert(gs@.take(8) =~= gs@);
    }
    acc
}

/// Reads an IPv6 address at `i`, as `read_ipv6` says.
fn read_ipv6_at(s: &Vec<char>, i: usize) -> (r: Option<(u128, usize)>)
    requires
        i <= s.len(),
    ensures
        match r {
            Some((v, j)) => read_ipv6(s@, i as int) == Some((v, j as int)) && j <= s.len(),
            None => read_ipv6(s@, i as int) is None,
        },
{
    let (head, head_v4, p1) = read_groups_at(s, i, 0, 8);
    proof {
        lemma_read_groups_len(s@, i as int, 0, 8);
    }
    if head.len() == 8 {
        let v = groups_to_u128(&head);
        return Some((v, p1));
    }
    if head_v4 {
        return None;
    }
    if s.len() > 1 && p1 < s.len() - 1 && s[p1] == ':' && s[p1 + 1] == ':' {
        let limit: usize = 7 - head.len();
        let (tail, _tail_v4, p2) = read_groups_at(s, p1 + 2, 0, limit);
        proof {
            lemma_read_groups_len(s@, p1 + 2, 0, limit as nat);
        }
        let zeros: usize = 8 - head.len() - tail.len();
        let mut all: Vec<u16> = Vec::new();
        let mut t: usize = 0;
        while t < head.len()
            invariant
                t <= head.len(),
                all@ =~= head@.take(t as int),
            decreases head.len() - t,
        {
            all.push(head[t]);
            t = t + 1;
            proof {
                assert(head@.take(t as int) =~= head@.take(t - 1).push(head@[t - 1]));
            }
        }
        let mut z: usize = 0;
        while z < zeros
            invariant
                z <= zeros,
                t == head.len(),
                all@ =~= head@ + zero_groups(z as nat),
            decreases zeros - z,
        {
            all.push(0u16);
            z = z + 1;
            proof {
                assert(zero_groups(z as nat) =~= zero_groups((z - 1) as nat).push(0u16));
            }
        }
        let mut u: usize = 0;
        while u < tail.len()
            invariant
                u <= tail.len(),
                z == zeros,
                all@ =~= head@ + zero_groups(zeros as nat) + tail@.take(u as int),
            decreases tail.len() - u,
        {
            all.push(tail[u]);
            u = u + 1;
            proof {
                assert(tail@.take(u as int) =~= tail@.take(u - 1).push(tail@[u - 1]));
            }
        }
        proof {
            assert(tail@.take(tail.len() as int) =~= tail@);
        }
        let v = groups_to_u128(&all);
        return Some((v, p2));
    }
    None
}

/// Parses an IP address from its characters, as `spec_parse_ip` says.
pub fn parse_ip_chars(s: &Vec<char>) -> (r: Option<IpAddr>)
    ensures
        r == spec_parse_ip(s@),
{
    match read_ipv4_at(s, 0) {
        Some((v, j)) => {
            if j == s.len() {
                Some(IpAddr::V4(v))
            } else {
                None
            }
        },
        None => match read_ipv6_at(s, 0) {
            Some((v, j)) => {
                if j == s.len() {
                    Some(IpAddr::V6(v))
                } else {
                    None
                }
            },
            None => None,
        },
    }
}

/// Parses an IP address from text, as `spec_parse_ip` says.
pub fn parse_ip_addr(text: &str) -> (r: Option<IpAddr>)
    ensures
        r == spec_parse_ip(text@),
{
    let s = chars_of(text);
    parse_ip_chars(&s)
}

fn read_port_at(s: &Vec<char>, i: usize) -> (r: Option<(u16, usize)>)
    requires
        i <= s.len(),
    ensures
        match r {
            Some((v, j)) => read_port(s@, i as int) == Some((v, j as int)) && j <= s.len(),
            None => read_port(s@, i as int) is None,
        },
{
    proof {
        lemma_read_number_bound(s@, i + 1, 10, None, true, 65535);
    }
    match read_sep_number_at(s, i, false, ':', 10, None, true, 65535) {
        Some((p, j)) => Some((p as u16, j)),
        None => None,
    }
}

fn read_scope_id_at(s: &Vec<char>, i: usize) -> (r: Option<(u32, usize)>)
    requires
        i <= s.len(),
    ensures
        match r {
            Some((v, j)) => read_scope_id(s@, i as int) == Some((v, j as int)) && j <= s.len(),
            None => read_scope_id(s@, i as int) is None,
        },
{
    match read_sep_number_at(s, i, false, '%', 10, None, true, 4294967295) {
        Some((v, j)) => Some((v, j)),
        None => None,
    }
}

fn read_socket_v4_at(s: &Vec<char>, i: usize) -> (r: Option<(SocketAddr, usize)>)
    requires
        i <= s.len(),
    ensures
        match r {
            Some((a, j)) => read_socket_v4(s@, i as int) == Some((a, j as int)) && j <= s.len(),
            None => read_socket_v4(s@, i as int) is None,
        },
{
    let (ip, j) = match read_ipv4_at(s, i) {
        Some(x) => x,
        None => return None,
    };
    match read_port_at(s, j) {
        None => None,
        Some((port, k)) => Some((SocketAddr { ip: IpAddr::V4(ip), port, scope_id: 0 }, k)),
    }
}

fn read_socket_v6_at(s: &Vec<char>, i: usize) -> (r: Option<(SocketAddr, usize)>)
    requires
        i <= s.len(),
    ensures
        match r {
            Some((a, j)) => read_socket_v6(s@, i as int) == Some((a, j as int)) && j <= s.len(),
            None => read_socket_v6(s@, i as int) is None,
        },
{
    if i < s.len() && s[i] == '[' {
        let (ip, j) = match read_ipv6_at(s, i + 1) {
            Some(x) => x,
            None => return None,
        };
        let (scope_id, j2) = match read_scope_id_at(s, j) {
            Some((v, k)) => (v, k),
            None => (0u32, j),
        };
        if j2 < s.len() && s[j2] == ']' {
            match read_port_at(s, j2 + 1) {
                None => None,
                Some((port, k)) => Some((SocketAddr { ip: IpAddr::V6(ip), port, scope_id }, k)),
            }
        } else {
            None
        }
    } else {
        None
    }
}

/// Parses a socket address from text, as `spec_parse_socket_addr` says.
pub fn parse_socket_addr(text: &str) -> (r: Option<SocketAddr>)
    ensures
        r == spec_parse_socket_addr(text@),
{
    let s = chars_of(text);
    match read_socket_v4_at(&s, 0) {
        Some((a, j)) => {
            if j == s.len() {
                Some(a)
            } else {
                None
            }
        },
        None => match read_socket_v6_at(&s, 0) {
            Some((a, j)) => {
                if j == s.len() {
                    Some(a)
                } else {
                    None
                }
            },
            None => None,
        },
    }
}

} // verus!
