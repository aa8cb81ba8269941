//! CIDR blocks, and the pool of candidate addresses that the prober draws
//! from: single addresses, and CIDR blocks sampled in equal intervals.
//!
//! Arithmetic on 128-bit address values wraps; a block smaller than its
//! sample count then yields addresses past its end.
use vstd::prelude::*;
use vstd::arithmetic::power2::{
    pow2, lemma2_to64, lemma2_to64_rest, lemma_pow2_adds, lemma_pow2_pos,
    lemma_pow2_strictly_increases,
};

use crate::net::{IpAddr, spec_parse_ip, parse_ip_chars};
use crate::text::{
    chars_of, find_char, find_from, parse_unsigned, parse_unsigned_chars, split_once,
    split_once_chars, starts_with, sub_chars, trim, trim_chars,
};

verus! {

/// An address and a prefix length: `V4(bits, len)` or `V6(bits, len)`.
#[derive(Clone, Copy, PartialEq, Eq, Debug, Structural)]
pub enum IpCidr {
    V4(u32, u8),
    V6(u128, u8),
}

/// The samples taken per /24 (IPv4) or /48 (IPv6) when a line gives no count.
pub const DEFAULT_SAMPLES_PER_SUBNET: u128 = 5;

/// `u128::MAX + 1`.
pub open spec fn u128_range() -> nat {
    0x1_0000_0000_0000_0000_0000_0000_0000_0000nat
}

impl IpCidr {
    /// The prefix length is at most the address width.
    pub open spec fn wf(self) -> bool {
        match self {
            IpCidr::V4(_, len) => len <= 32,
            IpCidr::V6(_, len) => len <= 128,
        }
    }

    /// The address as a number.
    pub open spec fn value(self) -> nat {
        match self {
            IpCidr::V4(ip, _) => ip as nat,
            IpCidr::V6(ip, _) => ip as nat,
        }
    }

    /// The address width in bits.
    pub open spec fn width(self) -> nat {
        match self {
            IpCidr::V4(_, _) => 32,
            IpCidr::V6(_, _) => 128,
        }
    }

    pub open spec fn spec_prefix_len(self) -> nat {
        match self {
            IpCidr::V4(_, len) => len as nat,
            IpCidr::V6(_, len) => len as nat,
        }
    }

    /// The number of host bits.
    pub open spec fn host_bits(self) -> nat {
        (self.width() - self.spec_prefix_len()) as nat
    }

    /// The first and last address of the block, as numbers.
    pub open spec fn spec_range(self) -> (nat, nat) {
        let b = pow2(self.host_bits());
        let start = self.value() / b * b;
        (start, (start + b - 1) as nat)
    }

    /// The prefix length.
    pub fn prefix_len(&self) -> (r: u8)
        ensures
            r as nat == self.spec_prefix_len(),
    {
        match self {
            IpCidr::V4(_, len) => *len,
            IpCidr::V6(_, len) => *len,
        }
    }

    /// Whether the block is one address: a /32 or a /128.
    pub fn is_single_host(&self) -> (r: bool)
        ensures
            r == (self.spec_prefix_len() == self.width()),
    {
        match self {
            IpCidr::V4(_, len) => *len == 32,
            IpCidr::V6(_, len) => *len == 128,
        }
    }

    /// The first and last address of the block.
    pub fn range_u128(&self) -> (r: (u128, u128))
        requires
            self.wf(),
        ensures
            r.0 as nat == self.spec_range().0,
            r.1 as nat == self.spec_range().1,
            r.0 <= r.1,
    {
        let (val, len, max_bits): (u128, u8, u8) = match self {
            IpCidr::V4(ip, len) => (*ip as u128, *len, 32u8),
            IpCidr::V6(ip, len) => (*ip, *len, 128u8),
        };
        let host_bits: u8 = max_bits - len;
        proof {
            lemma_pow2_facts();
            lemma_block_end_fits(val as nat, host_bits as nat, max_bits as nat);
            lemma_pow2_pos(host_bits as nat);
        }
        if host_bits >= max_bits {
            proof {
                assert(val as nat / pow2(host_bits as nat) == 0);
                if max_bits == 128 {
                    lemma_pow2_facts();
                } else {
                    lemma_pow2_facts();
                }
            }
            let full: u128 = if max_bits == 32 {
                0xffff_ffff
            } else {
                u128::MAX
            };
            return (0, full);
        }
        let block = pow2_u128(host_bits);
        let start: u128 = val / block * block;
        proof {
            assert(start as nat + block as nat - 1 < pow2(max_bits as nat));
            if max_bits == 128 {
                lemma_pow2_facts();
            }
        }
        let end: u128 = start + (block - 1);
        (start, end)
    }

    /// Parses `ip/prefix`: exactly one `/`, an address, and a prefix of at most
    /// the address width.
    pub fn parse(s: &str) -> (r: Option<IpCidr>)
        ensures
            r == spec_parse_cidr(s@),
    {
        let cs = chars_of(s);
        parse_cidr_chars(&cs)
    }
}

/// `ip/prefix` read from the characters `s`.
pub open spec fn spec_parse_cidr(s: Seq<char>) -> Option<IpCidr> {
    match find_from(s, '/', 0) {
        None => None,
        Some(k) => if find_from(s, '/', k + 1) is Some {
            None
        } else {
            match (spec_parse_ip(s.subrange(0, k)), parse_unsigned(s.subrange(k + 1, s.len() as int), 255)) {
                (Some(IpAddr::V4(v)), Some(n)) => if n <= 32 {
                    Some(IpCidr::V4(v, n as u8))
                } else {
                    None
                },
                (Some(IpAddr::V6(v)), Some(n)) => if n <= 128 {
                    Some(IpCidr::V6(v, n as u8))
                } else {
                    None
                },
                _ => None,
            }
        },
    }
}

proof fn lemma_parse_cidr_wf(s: Seq<char>)
    ensures
        spec_parse_cidr(s) matches Some(c) ==> c.wf(),
{
}

/// Parses `ip/prefix` from characters, as `spec_parse_cidr` says.
pub fn parse_cidr_chars(s: &Vec<char>) -> (r: Option<IpCidr>)
    ensures
        r == spec_parse_cidr(s@),
        r matches Some(c) ==> c.wf(),
{
    let k = match find_char(s, '/', 0) {
        None => return None,
        Some(k) => k,
    };
    if find_char(s, '/', k + 1).is_some() {
        return None;
    }
    let ip_part = sub_chars(s, 0, k);
    let len_part = sub_chars(s, k + 1, s.len());
    let ip = parse_ip_chars(&ip_part);
    let n = parse_unsigned_chars(&len_part, 255);
    match (ip, n) {
        (Some(IpAddr::V4(v)), Some(n)) => {
            if n <= 32 {
                Some(IpCidr::V4(v, n as u8))
            } else {
                None
            }
        },
        (Some(IpAddr::V6(v)), Some(n)) => {
            if n <= 128 {
                Some(IpCidr::V6(v, n as u8))
            } else {
                None
            }
        },
        _ => None,
    }
}

/// The powers of two used here.
proof fn lemma_pow2_facts()
    ensures
        pow2(0) == 1,
        pow2(1) == 2,
        pow2(32) == 0x1_0000_0000nat,
        pow2(48) == 0x1_0000_0000_0000nat,
        pow2(127) == 0x8000_0000_0000_0000_0000_0000_0000_0000nat,
        pow2(128) == u128_range(),
{
    lemma2_to64();
    lemma2_to64_rest();
    lemma_pow2_adds(64, 63);
    lemma_pow2_adds(64, 64);
}

/// `2^e` as a `u128`.
fn pow2_u128(e: u8) -> (r: u128)
    requires
        e < 128,
    ensures
        r as nat == pow2(e as nat),
{
    let mut r: u128 = 1;
    let mut i: u8 = 0;
    proof {
        lemma_pow2_facts();
        lemma_pow2_facts();
    }
    while i < e
        invariant
            i <= e < 128,
            r as nat == pow2(i as nat),
            pow2(127) == 0x8000_0000_0000_0000_0000_0000_0000_0000nat,
        decreases e - i,
    {
        proof {
            if i < 127 {
                lemma_pow2_strictly_increases(i as nat, 127);
            }
            lemma_pow2_adds(i as nat, 1);
            lemma_pow2_facts();
        }
        r = r * 2;
        i = i + 1;
    }
    r
}

/// The last address of a block fits in the address width.
proof fn lemma_block_end_fits(val: nat, h: nat, w: nat)
    requires
        h <= w,
        val < pow2(w),
    ensures
        val / pow2(h) * pow2(h) + pow2(h) - 1 < pow2(w),
        val / pow2(h) * pow2(h) <= val,
        h == w ==> val / pow2(h) == 0,
{
    let b = pow2(h);
    lemma_pow2_pos(h);
    lemma_pow2_adds((w - h) as nat, h);
    let p = pow2((w - h) as nat);
    let q = val / b;
    assert(q * b <= val) by (nonlinear_arith)
        requires
            b > 0,
            q == val / b,
    ;
    assert(q < p) by (nonlinear_arith)
        requires
            b > 0,
            q == val / b,
            val < p * b,
    ;
    assert(q * b + b <= p * b) by (nonlinear_arith)
        requires
            q < p,
            b > 0,
    ;
    if h == w {
        lemma_pow2_facts();
        assert(q == 0) by (nonlinear_arith)
            requires
                q < p,
                p == 1,
        ;
    }
}

/// The sample count for a block with no count given: 5 per /24 (IPv4) or
/// per /48 (IPv6), and 5 for smaller blocks.
pub open spec fn spec_sample_count(prefix: nat, is_ipv4: bool) -> nat {
    let threshold: nat = if is_ipv4 {
        24
    } else {
        48
    };
    let shift: nat = if prefix >= threshold {
        0
    } else {
        (threshold - prefix) as nat
    };
    pow2(shift) * 5
}

/// The sample count for a block with no count given, as `spec_sample_count`
/// says.
pub fn calculate_sample_count(prefix: u8, is_ipv4: bool) -> (r: u128)
    ensures
        r as nat == spec_sample_count(prefix as nat, is_ipv4),
{
    let threshold: u8 = if is_ipv4 {
        24
    } else {
        48
    };
    let shift: u8 = threshold.saturating_sub(prefix);
    let b = pow2_u128(shift);
    proof {
        if shift < 48 {
            lemma_pow2_strictly_increases(shift as nat, 48);
        }
        lemma_pow2_facts();
    }
    b * 5
}

/// One source of candidate addresses.
#[derive(Clone, Copy, PartialEq, Eq, Debug, Structural)]
pub enum IpSource {
    /// One address, given out once per round.
    Single { ip: IpAddr, consumed: bool },
    /// `total_count` samples of a block: the `idx`-th is drawn from
    /// `[start + idx * interval_size, ...)`, `interval_size` wide, or
    /// `last_size` wide for the last one.
    Cidr {
        start: u128,
        interval_size: u128,
        last_size: u128,
        total_count: u64,
        current: usize,
        is_v6: bool,
    },
}

/// `x + y` wrapped to 128 bits.
pub open spec fn wadd(x: u128, y: u128) -> u128 {
    if x + y > u128::MAX {
        (x + y - u128_range()) as u128
    } else {
        (x + y) as u128
    }
}

/// `x * y` wrapped to 128 bits.
pub open spec fn wmul(x: u128, y: u128) -> u128 {
    ((x as nat * y as nat) % u128_range()) as u128
}

/// `x - y` wrapped to 128 bits.
pub open spec fn wsub(x: u128, y: u128) -> u128 {
    if x - y < 0 {
        (x - y + u128_range()) as u128
    } else {
        (x - y) as u128
    }
}

/// `x + 1` saturated to 128 bits.
pub open spec fn sat_inc(x: u128) -> u128 {
    if x == u128::MAX {
        x
    } else {
        (x + 1) as u128
    }
}

/// `x + y` wrapped to the width of `usize`.
pub open spec fn usize_wadd(x: usize, y: usize) -> usize {
    if x + y > usize::MAX {
        (x + y - (usize::MAX + 1)) as usize
    } else {
        (x + y) as usize
    }
}

/// `x + y` wrapped to 64 bits.
pub open spec fn u64_wadd(x: u64, y: u64) -> u64 {
    if x + y > u64::MAX {
        (x + y - 0x1_0000_0000_0000_0000) as u64
    } else {
        (x + y) as u64
    }
}

/// `x + 1` wrapped to the width of `usize`.
pub open spec fn usize_inc(x: usize) -> usize {
    if x == usize::MAX {
        0
    } else {
        (x + 1) as usize
    }
}

/// `x - 1` wrapped to the width of `usize`.
pub open spec fn usize_dec(x: usize) -> usize {
    if x == 0 {
        usize::MAX
    } else {
        (x - 1) as usize
    }
}

/// The address of the 128-bit value `v` in the source's family.
pub open spec fn addr_of(v: u128, is_v6: bool) -> IpAddr {
    if is_v6 {
        IpAddr::V6(v)
    } else {
        IpAddr::V4(v as u32)
    }
}

/// The next address of a source, and the source after it gives one out;
/// `rand` picks the offset inside a sample's interval.
pub open spec fn source_next(src: IpSource, rand: u128) -> (IpSource, Option<IpAddr>) {
    match src {
        IpSource::Single { ip, consumed } => if consumed {
            (src, None)
        } else {
            (IpSource::Single { ip, consumed: true }, Some(ip))
        },
        IpSource::Cidr { start, interval_size, last_size, total_count, current, is_v6 } => {
            let next = IpSource::Cidr {
                start,
                interval_size,
                last_size,
                total_count,
                current: usize_inc(current),
                is_v6,
            };
            let total = total_count as usize;
            if current >= total {
                (next, None)
            } else {
                let interval_start = wadd(start, wmul(current as u128, interval_size));
                let size = if current == total - 1 {
                    last_size
                } else {
                    interval_size
                };
                let offset: u128 = if size <= 1 {
                    0
                } else {
                    rand % size
                };
                (next, Some(addr_of(wadd(interval_start, offset), is_v6)))
            }
        },
    }
}

/// Whether a source has nothing left this round.
pub open spec fn source_exhausted(src: IpSource) -> bool {
    match src {
        IpSource::Single { consumed, .. } => consumed,
        IpSource::Cidr { total_count, current, .. } => current >= total_count as usize,
    }
}

/// A source at the start of a round.
pub open spec fn source_reset(src: IpSource) -> IpSource {
    match src {
        IpSource::Single { ip, .. } => IpSource::Single { ip, consumed: false },
        IpSource::Cidr { start, interval_size, last_size, total_count, is_v6, .. } => IpSource::Cidr {
            start,
            interval_size,
            last_size,
            total_count,
            current: 0,
            is_v6,
        },
    }
}

/// Whether a source gives out at least one address per round.
pub open spec fn source_yields(src: IpSource) -> bool {
    match src {
        IpSource::Single { .. } => true,
        IpSource::Cidr { total_count, .. } => total_count as usize > 0,
    }
}

impl IpSource {
    /// Gives out the next address, as `source_next` says.
    pub fn next_ip(&mut self, rand: u128) -> (r: Option<IpAddr>)
        ensures
            (*final(self), r) == source_next(*old(self), rand),
    {
        match *self {
            IpSource::Single { ip, consumed } => {
                if consumed {
                    return None;
                }
                *self = IpSource::Single { ip, consumed: true };
                Some(ip)
            },
            IpSource::Cidr { start, interval_size, last_size, total_count, current, is_v6 } => {
                let idx = current;
                *self = IpSource::Cidr {
                    start,
                    interval_size,
                    last_size,
                    total_count,
                    current: idx.wrapping_add(1),
                    is_v6,
                };
                let total = total_count as usize;
                if idx >= total {
                    return None;
                }
                let interval = interval_size;
                let interval_start = start.wrapping_add((idx as u128).wrapping_mul(interval));
                let actual_interval_size = if idx == total - 1 {
                    last_size
                } else {
                    interval
                };
                let random_offset: u128 = if actual_interval_size <= 1 {
                    0
                } else {
                    rand % actual_interval_size
                };
                let ip_val = interval_start.wrapping_add(random_offset);
                if is_v6 {
                    Some(IpAddr::V6(ip_val))
                } else {
                    Some(IpAddr::V4(ip_val as u32))
                }
            },
        }
    }

    /// Whether the source has nothing left this round.
    pub fn is_exhausted(&self) -> (r: bool)
        ensures
            r == source_exhausted(*self),
    {
        match self {
            IpSource::Single { consumed, .. } => *consumed,
            IpSource::Cidr { total_count, current, .. } => *current >= *total_count as usize,
        }
    }

    /// Starts a new round.
    pub fn reset(&mut self)
        ensures
            *final(self) == source_reset(*old(self)),
    {
        match *self {
            IpSource::Single { ip, .. } => {
                *self = IpSource::Single { ip, consumed: false };
            },
            IpSource::Cidr { start, interval_size, last_size, total_count, is_v6, .. } => {
                *self = IpSource::Cidr {
                    start,
                    interval_size,
                    last_size,
                    total_count,
                    current: 0,
                    is_v6,
                };
            },
        }
    }
}

/// What one line of the address list holds.
pub enum LineEntry {
    Skip,
    Single(IpAddr),
    Block { start: u128, interval_size: u128, last_size: u128, sample_count: u128, is_v6: bool },
}

/// The sampling of a block: the sample count (the custom count, at most the
/// block size, or the default), the interval width, and the last interval's
/// width.
pub open spec fn block_entry(c: IpCidr, custom: Option<u128>) -> LineEntry {
    let start = c.spec_range().0 as u128;
    let end = c.spec_range().1 as u128;
    let range_size = sat_inc((end - start) as u128);
    let is_v6 = c is V6;
    let sample_count: u128 = match custom {
        Some(n) => if n < range_size {
            n
        } else {
            range_size
        },
        None => spec_sample_count(c.spec_prefix_len(), !is_v6) as u128,
    };
    let interval_size: u128 = if sample_count > 0 {
        if range_size / sample_count >= 1 {
            (range_size / sample_count) as u128
        } else {
            1
        }
    } else {
        1
    };
    let last_size: u128 = if sample_count > 0 {
        let last_start = wadd(start, wmul((sample_count - 1) as u128, interval_size));
        sat_inc(wsub(end, last_start))
    } else {
        interval_size
    };
    LineEntry::Block { start, interval_size, last_size, sample_count, is_v6 }
}

/// Whether the address `a` lies in the block `c`: the same family, and its
/// value between the block's first and last address.
pub open spec fn in_block(c: IpCidr, a: IpAddr) -> bool {
    let (lo, hi) = c.spec_range();
    match (c, a) {
        (IpCidr::V4(_, _), IpAddr::V4(v)) => lo <= v && v <= hi,
        (IpCidr::V6(_, _), IpAddr::V6(v)) => lo <= v && v <= hi,
        _ => false,
    }
}

proof fn lemma_sample_bounds(n: nat, size: nat, k: nat)
    requires
        0 < n <= size,
        k < n,
    ensures
        size / n >= 1,
        n * (size / n) <= size,
        k * (size / n) + size / n <= n * (size / n),
        k * (size / n) <= (n - 1) * (size / n),
        (n - 1) * (size / n) + size / n == n * (size / n),
{
    let i = size / n;
    vstd::arithmetic::div_mod::lemma_fundamental_div_mod(size as int, n as int);
    vstd::arithmetic::div_mod::lemma_div_pos_is_pos(size as int, n as int);
    vstd::arithmetic::div_mod::lemma_mod_bound(size as int, n as int);
    assert(i >= 1) by {
        if i == 0 {
            assert(size as int == n * 0 + size as int % n as int);
        }
    }
    assert(n * i <= size) by (nonlinear_arith)
        requires
            size as int == n * i + size as int % n as int,
            size as int % n as int >= 0,
    ;
    assert(k * i + i <= n * i) by (nonlinear_arith)
        requires
            k + 1 <= n,
            i >= 0,
    ;
    assert(k * i <= (n - 1) * i) by (nonlinear_arith)
        requires
            k <= n - 1,
            i >= 0,
    ;
    assert((n - 1) * i + i == n * i) by (nonlinear_arith);
}

/// The block source that `block_entry(c, custom)` describes, at position
/// `current` of its round.
pub open spec fn block_source(c: IpCidr, custom: Option<u128>, current: usize) -> IpSource {
    match block_entry(c, custom) {
        LineEntry::Block { start, interval_size, last_size, sample_count, is_v6 } => IpSource::Cidr {
            start,
            interval_size,
            last_size,
            total_count: sample_count as u64,
            current,
            is_v6,
        },
        _ => IpSource::Single { ip: IpAddr::V4(0), consumed: true },
    }
}

/// How many samples the block source of `c` gives out per round.
pub open spec fn block_samples(c: IpCidr, custom: Option<u128>) -> nat {
    match block_entry(c, custom) {
        LineEntry::Block { sample_count, .. } => sample_count as nat,
        _ => 0,
    }
}

/// The `k`-th interval of the block's sampling: its first value, and the
/// value just past it (the last interval has its own width).
pub open spec fn block_interval(c: IpCidr, custom: Option<u128>, k: nat) -> (int, int) {
    match block_entry(c, custom) {
        LineEntry::Block { start, interval_size, last_size, sample_count, .. } => {
            let lo = start + k * interval_size;
            (lo, lo + if k + 1 == sample_count {
                last_size
            } else {
                interval_size
            })
        },
        _ => (0, 0),
    }
}

/// The value of an address.
pub open spec fn addr_value(a: IpAddr) -> nat {
    match a {
        IpAddr::V4(v) => v as nat,
        IpAddr::V6(v) => v as nat,
    }
}

/// Whether the block `c` has at least as many addresses as its source takes
/// samples, and the sample count fits the source's counter.
pub open spec fn samples_fit(c: IpCidr, custom: Option<u128>) -> bool {
    block_entry(c, custom) matches LineEntry::Block { sample_count, .. } && sample_count as nat
        <= c.spec_range().1 - c.spec_range().0 + 1 && (sample_count as u64) as usize == sample_count
}

/// One call on a block source: the `k`-th sample lies in the block and in
/// the `k`-th interval; past the last sample nothing comes; the position
/// moves on by one.
proof fn lemma_block_sample(c: IpCidr, custom: Option<u128>, current: usize, rand: u128)
    requires
        c.wf(),
        samples_fit(c, custom),
    ensures
        source_next(block_source(c, custom, current), rand).0 == block_source(c, custom, usize_inc(current)),
        current < block_samples(c, custom) ==> (source_next(block_source(c, custom, current), rand).1 matches Some(
            a,
        ) && in_block(c, a) && block_interval(c, custom, current as nat).0 <= addr_value(a) < block_interval(
            c,
            custom,
            current as nat,
        ).1),
        current >= block_samples(c, custom) ==> source_next(block_source(c, custom, current), rand).1 is None,
{
    let w = c.width();
    let h = c.host_bits();
    lemma_pow2_facts();
    match c {
        IpCidr::V4(v, _) => {
            assert(c.value() < pow2(32));
        },
        IpCidr::V6(v, _) => {
            assert(c.value() < pow2(128));
        },
    }
    lemma_block_end_fits(c.value(), h, w);
    lemma_pow2_pos(h);
    assert(pow2(w) <= u128_range());
    let (lo, hi) = c.spec_range();
    assert(hi == c.value() / pow2(h) * pow2(h) + pow2(h) - 1);
    assert(hi < u128_range());
    let start = lo as u128;
    let end = hi as u128;
    let range_size = sat_inc((end - start) as u128);
    if let LineEntry::Block { start: st, interval_size, last_size, sample_count, is_v6 } = block_entry(c, custom) {
        let n = sample_count as nat;
        let k = current as nat;
        let total = (sample_count as u64) as usize;
        if n > 0 && k < n {
            assert(n <= range_size);
            lemma_sample_bounds(n, range_size as nat, k);
            let i = range_size as nat / n;
            assert(interval_size == i);
            assert((n - 1) * i <= end - start) by {
                assert((n - 1) * i + i <= range_size);
            }
            vstd::arithmetic::div_mod::lemma_small_mod((k * i) as nat, u128_range());
            vstd::arithmetic::div_mod::lemma_small_mod(((n - 1) * i) as nat, u128_range());
            assert(wmul(current as u128, interval_size) == k * i);
            assert(wmul((sample_count - 1) as u128, interval_size) == (n - 1) * i);
            let last_start = start + (n - 1) * i;
            assert(last_start <= end);
            let src = IpSource::Cidr {
                start: st,
                interval_size,
                last_size,
                total_count: sample_count as u64,
                current,
                is_v6,
            };
            let interval_start = start + k * i;
            assert(wadd(st, wmul(current as u128, interval_size)) == interval_start);
            if current == total - 1 {
                assert(k == n - 1);
                if let Some(a) = source_next(src, rand).1 {
                    if last_size > 1 {
                        vstd::arithmetic::div_mod::lemma_mod_bound(rand as int, last_size as int);
                    }
                }
            } else {
                assert(k < n - 1);
                assert(k * i + i <= (n - 1) * i) by (nonlinear_arith)
                    requires
                        k + 1 <= n - 1,
                        i >= 0,
                ;
                if interval_size > 1 {
                    vstd::arithmetic::div_mod::lemma_mod_bound(rand as int, interval_size as int);
                }
            }
        }
    }
}


/// A block sampled no more often than it has addresses gives out only
/// addresses inside it: whatever the round's position and the random
/// offset, the address of a block source read from `c` lies in `c`.
pub proof fn law_block_samples_stay_in_block(c: IpCidr, custom: Option<u128>, current: usize, rand: u128)
    requires
        c.wf(),
        samples_fit(c, custom),
    ensures
        source_next(block_source(c, custom, current), rand).1 matches Some(a) ==> in_block(c, a),
{
    lemma_block_sample(c, custom, current, rand);
}

/// The samples of a block line: with a count, the count, but no more than
/// the block has addresses; without one, 5 for every /24 the block holds
/// (IPv4) or every /48 (IPv6), and 5 for a block no larger than that.
pub proof fn law_block_sample_count(c: IpCidr, custom: Option<u128>)
    requires
        c.wf(),
    ensures
        custom is None && c is V4 && c.spec_prefix_len() < 24 ==> block_samples(c, custom) == 5 * pow2(
            (24 - c.spec_prefix_len()) as nat,
        ),
        custom is None && c is V6 && c.spec_prefix_len() < 48 ==> block_samples(c, custom) == 5 * pow2(
            (48 - c.spec_prefix_len()) as nat,
        ),
        custom is None && c is V4 && c.spec_prefix_len() >= 24 ==> block_samples(c, custom) == 5,
        custom is None && c is V6 && c.spec_prefix_len() >= 48 ==> block_samples(c, custom) == 5,
        custom matches Some(n) ==> block_samples(c, custom) == (if n as nat <= c.spec_range().1 - c.spec_range().0
            + 1 {
            n as nat
        } else {
            (c.spec_range().1 - c.spec_range().0 + 1) as nat
        }),
{
    lemma_pow2_facts();
    let p = c.spec_prefix_len();
    let w: nat = if c is V4 {
        24
    } else {
        48
    };
    if p < w && w - p < 48 {
        lemma_pow2_strictly_increases((w - p) as nat, 48);
    }
    if custom is None {
        assert(spec_sample_count(p, c is V4) <= 5 * pow2(48));
    }
    if custom is Some {
        let h = c.host_bits();
        match c {
            IpCidr::V4(v, _) => {
                assert(c.value() < pow2(32));
            },
            IpCidr::V6(v, _) => {
                assert(c.value() < pow2(128));
            },
        }
        lemma_block_end_fits(c.value(), h, c.width());
        lemma_pow2_pos(h);
        let (lo, hi) = c.spec_range();
        assert(hi == c.value() / pow2(h) * pow2(h) + pow2(h) - 1);
        assert(hi < u128_range());
    }
}

/// What a source gives out over successive calls, one random value each:
/// the source after them, and each call's answer in order.
pub open spec fn run_source(src: IpSource, rands: Seq<u128>) -> (IpSource, Seq<Option<IpAddr>>)
    decreases rands.len(),
{
    if rands.len() == 0 {
        (src, Seq::empty())
    } else {
        let (s, outs) = run_source(src, rands.drop_last());
        let (s2, o) = source_next(s, rands.last());
        (s2, outs.push(o))
    }
}

proof fn lemma_run_block(c: IpCidr, custom: Option<u128>, rands: Seq<u128>)
    requires
        c.wf(),
        samples_fit(c, custom),
        rands.len() <= usize::MAX,
    ensures
        run_source(block_source(c, custom, 0), rands).0 == block_source(c, custom, rands.len() as usize),
        run_source(block_source(c, custom, 0), rands).1.len() == rands.len(),
        forall|k: int|
            0 <= k < rands.len() ==> #[trigger] run_source(block_source(c, custom, 0), rands).1[k]
                == source_next(block_source(c, custom, k as usize), rands[k]).1,
    decreases rands.len(),
{
    if rands.len() > 0 {
        let n = (rands.len() - 1) as nat;
        let front = rands.drop_last();
        lemma_run_block(c, custom, front);
        lemma_block_sample(c, custom, n as usize, rands.last());
        assert forall|k: int| 0 <= k < rands.len() implies #[trigger] run_source(
            block_source(c, custom, 0),
            rands,
        ).1[k] == source_next(block_source(c, custom, k as usize), rands[k]).1 by {
            if k < n {
                assert(front[k] == rands[k]);
                assert(run_source(block_source(c, custom, 0), front).1[k] == source_next(
                    block_source(c, custom, k as usize),
                    front[k],
                ).1);
            }
        }
    }
}

/// A round of a block source read from `c`, sampled no more often than the
/// block has addresses, from its start (as it is built, and after each
/// reset): the `k`-th call gives an address inside the block and inside the
/// `k`-th interval, so the addresses rise strictly from call to call; once
/// every sample is given out, the calls give nothing.
pub proof fn law_block_source_round(c: IpCidr, custom: Option<u128>, rands: Seq<u128>, m: usize)
    requires
        c.wf(),
        samples_fit(c, custom),
        rands.len() <= usize::MAX,
    ensures
        source_reset(block_source(c, custom, m)) == block_source(c, custom, 0),
        run_source(block_source(c, custom, 0), rands).1.len() == rands.len(),
        forall|k: int|
            0 <= k < rands.len() && k < block_samples(c, custom) ==> (#[trigger] run_source(
                block_source(c, custom, 0),
                rands,
            ).1[k] matches Some(a) && in_block(c, a) && block_interval(c, custom, k as nat).0
                <= addr_value(a) < block_interval(c, custom, k as nat).1),
        forall|k: int|
            0 <= k < rands.len() && k >= block_samples(c, custom) ==> #[trigger] run_source(
                block_source(c, custom, 0),
                rands,
            ).1[k] is None,
        forall|j: int, k: int|
            0 <= j < k < rands.len() && k < block_samples(c, custom) ==> addr_value(
                #[trigger] run_source(block_source(c, custom, 0), rands).1[j]->0,
            ) < addr_value(#[trigger] run_source(block_source(c, custom, 0), rands).1[k]->0),
{
    lemma_run_block(c, custom, rands);
    let outs = run_source(block_source(c, custom, 0), rands).1;
    assert forall|k: int| 0 <= k < rands.len() implies {
        &&& k < block_samples(c, custom) ==> (#[trigger] outs[k] matches Some(a) && in_block(c, a)
            && block_interval(c, custom, k as nat).0 <= addr_value(a) < block_interval(c, custom, k as nat).1)
        &&& k >= block_samples(c, custom) ==> outs[k] is None
    } by {
        lemma_block_sample(c, custom, k as usize, rands[k]);
    }
    assert forall|j: int, k: int|
        0 <= j < k < rands.len() && k < block_samples(c, custom) implies addr_value(
        #[trigger] outs[j]->0,
    ) < addr_value(#[trigger] outs[k]->0) by {
        lemma_block_sample(c, custom, j as usize, rands[j]);
        lemma_block_sample(c, custom, k as usize, rands[k]);
        if let LineEntry::Block { start, interval_size, last_size, sample_count, .. } = block_entry(c, custom) {
            let d = interval_size as int;
            assert(j + 1 != sample_count);
            assert((j + 1) * d <= k * d) by (nonlinear_arith)
                requires
                    j + 1 <= k,
                    d >= 0,
            ;
            assert(j * d + d == (j + 1) * d) by (nonlinear_arith);
        }
    }
}

/// The source of the single address `ip`, given out already or not.
pub open spec fn single_source(ip: IpAddr, consumed: bool) -> IpSource {
    IpSource::Single { ip, consumed }
}

/// A round of a single address, from its start (as it is built, and after
/// each reset): the first call gives the address, every later call nothing.
pub proof fn law_single_source_round(ip: IpAddr, consumed: bool, rands: Seq<u128>)
    ensures
        source_reset(single_source(ip, consumed)) == single_source(ip, false),
        run_source(single_source(ip, false), rands).1.len() == rands.len(),
        rands.len() > 0 ==> run_source(single_source(ip, false), rands).1[0] == Some(ip),
        forall|k: int|
            0 < k < rands.len() ==> (#[trigger] run_source(single_source(ip, false), rands).1[k] is None),
    decreases rands.len(),
{
    if rands.len() > 0 {
        let front = rands.drop_last();
        law_single_source_round(ip, consumed, front);
        let src = single_source(ip, false);
        if front.len() > 0 {
            lemma_single_consumed(ip, front);
        }
        assert forall|k: int| 0 < k < rands.len() implies (#[trigger] run_source(src, rands).1[k] is None) by {
            if k < front.len() {
                assert(run_source(src, front).1[k] is None);
            }
        }
    }
}

/// After at least one call, a single address is given out.
proof fn lemma_single_consumed(ip: IpAddr, rands: Seq<u128>)
    requires
        rands.len() > 0,
    ensures
        run_source(single_source(ip, false), rands).0 == single_source(ip, true),
    decreases rands.len(),
{
    if rands.len() > 1 {
        lemma_single_consumed(ip, rands.drop_last());
    } else {
        assert(run_source(single_source(ip, false), rands.drop_last()).0 == single_source(ip, false));
    }
}

/// The count after `=` on a line: a positive number, if it reads as one.
pub open spec fn custom_count(s: Seq<char>) -> Option<u128> {
    match parse_unsigned(trim(s), (u128_range() - 1) as nat) {
        Some(n) => if n > 0 {
            Some(n as u128)
        } else {
            None
        },
        None => None,
    }
}

/// One line of the address list: blank lines and lines starting with `#` or
/// `//` are skipped; `addr`, `cidr` or `cidr=count`, with whitespace around
/// each part.
#[verifier::opaque]
pub open spec fn parse_line(line: Seq<char>) -> LineEntry {
    let s = trim(line);
    if s.len() == 0 || starts_with(s, seq!['#']) || starts_with(s, seq!['/', '/']) {
        LineEntry::Skip
    } else {
        let (cidr_part, custom) = match split_once(s, '=') {
            Some((a, b)) => (trim(a), custom_count(b)),
            None => (s, None),
        };
        match spec_parse_ip(cidr_part) {
            Some(ip) => LineEntry::Single(ip),
            None => match spec_parse_cidr(cidr_part) {
                None => LineEntry::Skip,
                Some(c) => if c.spec_prefix_len() == c.width() {
                    match c {
                        IpCidr::V4(v, _) => LineEntry::Single(IpAddr::V4(v)),
                        IpCidr::V6(v, _) => LineEntry::Single(IpAddr::V6(v)),
                    }
                } else {
                    block_entry(c, custom)
                },
            },
        }
    }
}

/// The views of the lines.
pub open spec fn line_views(lines: Seq<String>) -> Seq<Seq<char>> {
    lines.map_values(|l: String| l@)
}

/// The single-address sources of the lines, in order.
pub open spec fn singles_of(lines: Seq<Seq<char>>) -> Seq<IpSource>
    decreases lines.len(),
{
    if lines.len() == 0 {
        Seq::empty()
    } else {
        let rest = singles_of(lines.drop_last());
        match parse_line(lines.last()) {
            LineEntry::Single(ip) => rest.push(IpSource::Single { ip, consumed: false }),
            _ => rest,
        }
    }
}

/// The block sources of the lines, in order.
pub open spec fn blocks_of(lines: Seq<Seq<char>>) -> Seq<IpSource>
    decreases lines.len(),
{
    if lines.len() == 0 {
        Seq::empty()
    } else {
        let rest = blocks_of(lines.drop_last());
        match parse_line(lines.last()) {
            LineEntry::Block { start, interval_size, last_size, sample_count, is_v6 } => rest.push(
                IpSource::Cidr {
                    start,
                    interval_size,
                    last_size,
                    total_count: sample_count as u64,
                    current: 0,
                    is_v6,
                },
            ),
            _ => rest,
        }
    }
}

/// The number of addresses the lines give per round, wrapped to 64 bits.
pub open spec fn total_of(lines: Seq<Seq<char>>) -> u64
    decreases lines.len(),
{
    if lines.len() == 0 {
        0
    } else {
        let rest = total_of(lines.drop_last());
        match parse_line(lines.last()) {
            LineEntry::Single(_) => u64_wadd(rest, 1),
            LineEntry::Block { sample_count, .. } => u64_wadd(rest, sample_count as u64),
            LineEntry::Skip => rest,
        }
    }
}

/// Reads one line, as `parse_line` says.
#[verifier::spinoff_prover]
#[verifier::rlimit(40)]
pub fn parse_line_chars(line: &Vec<char>) -> (r: LineEntry)
    ensures
        r == parse_line(line@),
{
    reveal(parse_line);
    let s = trim_chars(line);
    if s.len() == 0 {
        return LineEntry::Skip;
    }
    if s[0] == '#' || (s.len() >= 2 && s[0] == '/' && s[1] == '/') {
        proof {
            if s[0] == '#' {
                assert(s@.subrange(0, 1) =~= seq!['#']);
            } else {
                assert(s@.subrange(0, 2) =~= seq!['/', '/']);
            }
        }
        return LineEntry::Skip;
    }
    proof {
        if s@.len() >= 1 {
            assert(s@.subrange(0, 1)[0] == s@[0]);
        }
        if s@.len() >= 2 {
            assert(s@.subrange(0, 2)[0] == s@[0]);
            assert(s@.subrange(0, 2)[1] == s@[1]);
        }
        assert(!starts_with(s@, seq!['#']));
        assert(!starts_with(s@, seq!['/', '/']));
    }
    let (cidr_part, custom): (Vec<char>, Option<u128>) = match split_once_chars(&s, '=') {
        Some((a, b)) => {
            let tb = trim_chars(&b);
            let n = parse_unsigned_chars(&tb, u128::MAX);
            let c = match n {
                Some(n) => if n > 0 {
                    Some(n)
                } else {
                    None
                },
                None => None,
            };
            (trim_chars(&a), c)
        },
        None => (s, None),
    };
    proof {
        assert(u128::MAX as nat == (u128_range() - 1) as nat);
    }
    match parse_ip_chars(&cidr_part) {
        Some(ip) => LineEntry::Single(ip),
        None => match parse_cidr_chars(&cidr_part) {
            None => LineEntry::Skip,
            Some(c) => {
                if c.is_single_host() {
                    match c {
                        IpCidr::V4(v, _) => LineEntry::Single(IpAddr::V4(v)),
                        IpCidr::V6(v, _) => LineEntry::Single(IpAddr::V6(v)),
                    }
                } else {
                    block_entry_exec(&c, custom)
                }
            },
        },
    }
}

/// The sampling of a block, as `block_entry` says.
fn block_entry_exec(c: &IpCidr, custom: Option<u128>) -> (r: LineEntry)
    requires
        c.wf(),
    ensures
        r == block_entry(*c, custom),
{
    let (start, end) = c.range_u128();
    let range_size = (end - start).saturating_add(1);
    let is_ipv6 = match c {
        IpCidr::V6(_, _) => true,
        IpCidr::V4(_, _) => false,
    };
    let sample_count: u128 = match custom {
        Some(count) => if count < range_size {
            count
        } else {
            range_size
        },
        None => calculate_sample_count(c.prefix_len(), !is_ipv6),
    };
    let interval_size: u128 = if sample_count > 0 {
        let q = range_size / sample_count;
        if q >= 1 {
            q
        } else {
            1
        }
    } else {
        1
    };
    let last_size: u128 = if sample_count > 0 {
        let last_start = start.wrapping_add((sample_count - 1).wrapping_mul(interval_size));
        end.wrapping_sub(last_start).saturating_add(1)
    } else {
        interval_size
    };
    proof {
        assert(u128::MAX as nat + 1 == u128_range());
    }
    LineEntry::Block { start, interval_size, last_size, sample_count, is_v6: is_ipv6 }
}

/// The pool of candidate addresses: the single addresses first, then the
/// blocks, visited round-robin from a moving cursor.
pub struct IpPool {
    pub sources: Vec<IpSource>,
    pub cursor: usize,
    pub active_count: usize,
    pub total_count: u64,
}

/// The single and block sources of the lines, and their total.
fn collect_sources(lines: &[String]) -> (r: (Vec<IpSource>, Vec<IpSource>, u64))
    ensures
        r.0@ == singles_of(line_views(lines@)),
        r.1@ == blocks_of(line_views(lines@)),
        r.2 == total_of(line_views(lines@)),
{
    let ghost lv = line_views(lines@);
    let mut singles: Vec<IpSource> = Vec::new();
    let mut blocks: Vec<IpSource> = Vec::new();
    let mut total: u64 = 0;
    let mut i: usize = 0;
    while i < lines.len()
        invariant
            i <= lines.len(),
            lv == line_views(lines@),
            singles@ == singles_of(lv.take(i as int)),
            blocks@ == blocks_of(lv.take(i as int)),
            total == total_of(lv.take(i as int)),
        decreases lines.len() - i,
    {
        let cs = chars_of(lines[i].as_str());
        let entry = parse_line_chars(&cs);
        proof {
            assert(lv.take(i + 1).drop_last() =~= lv.take(i as int));
            assert(lv.take(i + 1).last() == cs@);
        }
        match entry {
            LineEntry::Skip => {},
            LineEntry::Single(ip) => {
                singles.push(IpSource::Single { ip, consumed: false });
                total = total.wrapping_add(1);
            },
            LineEntry::Block { start, interval_size, last_size, sample_count, is_v6 } => {
                blocks.push(
                    IpSource::Cidr {
                        start,
                        interval_size,
                        last_size,
                        total_count: sample_count as u64,
                        current: 0,
                        is_v6,
                    },
                );
                total = total.wrapping_add(sample_count as u64);
            },
        }
        i = i + 1;
    }
    proof {
        assert(lv.take(lines.len() as int) =~= lv);
    }
    (singles, blocks, total)
}

/// `a` followed by `b`.
fn concat_sources(a: Vec<IpSource>, b: &Vec<IpSource>) -> (r: Vec<IpSource>)
    ensures
        r@ == a@ + b@,
{
    let mut r = a;
    let ghost s0 = r@;
    let mut j: usize = 0;
    while j < b.len()
        invariant
            j <= b.len(),
            r@ =~= s0 + b@.take(j as int),
        decreases b.len() - j,
    {
        r.push(b[j]);
        j = j + 1;
        proof {
            assert(b@.take(j as int) =~= b@.take(j - 1).push(b@[j - 1]));
        }
    }
    proof {
        assert(b@.take(b.len() as int) =~= b@);
    }
    r
}

/// One pass over the sources from `start`, from the `i`-th visited on: each
/// visited source is asked for an address; the first one given ends the pass;
/// each source found exhausted lowers the active count.
pub open spec fn pass(srcs: Seq<IpSource>, start: usize, i: nat, active: usize, rand: u128) -> (
    Seq<IpSource>,
    usize,
    Option<IpAddr>,
)
    decreases srcs.len() - i,
{
    if i >= srcs.len() {
        (srcs, active, None)
    } else {
        let idx = usize_wadd(start, i as usize) as nat % srcs.len();
        let (s2, r) = source_next(srcs[idx as int], rand);
        let srcs2 = srcs.update(idx as int, s2);
        match r {
            Some(ip) => (srcs2, active, Some(ip)),
            None => {
                let a2 = if source_exhausted(s2) {
                    usize_dec(active)
                } else {
                    active
                };
                pass(srcs2, start, i + 1, a2, rand)
            },
        }
    }
}

/// Whether some source gives out an address in every round.
pub open spec fn can_yield(srcs: Seq<IpSource>) -> bool {
    exists|j: int| 0 <= j < srcs.len() && source_yields(#[trigger] srcs[j])
}

/// All sources at the start of a round.
pub open spec fn reset_all(srcs: Seq<IpSource>) -> Seq<IpSource> {
    srcs.map_values(|s: IpSource| source_reset(s))
}

impl IpPool {
    /// Builds the pool from the lines of an address list, as `parse_line` says
    /// of each line.
    pub fn new(lines: &[String]) -> (r: IpPool)
        ensures
            r.sources@ == singles_of(line_views(lines@)) + blocks_of(line_views(lines@)),
            r.cursor == 0,
            r.active_count == r.sources.len(),
            r.total_count == total_of(line_views(lines@)),
    {
        let (singles, blocks, total) = collect_sources(lines);
        let sources = concat_sources(singles, &blocks);
        let active_count = sources.len();
        IpPool { sources, cursor: 0, active_count, total_count: total }
    }

    /// The number of addresses per round.
    pub fn total_count(&self) -> (r: u64)
        ensures
            r == self.total_count,
    {
        self.total_count
    }

    /// Whether `pop` returns: no source is active, or some source gives out
    /// an address in every round.
    pub open spec fn pop_returns(&self) -> bool {
        self.active_count == 0 || can_yield(self.sources@)
    }

    /// Whether `pop` returns, as `pop_returns` says.
    pub fn pop_would_return(&self) -> (r: bool)
        ensures
            r == self.pop_returns(),
    {
        if self.active_count == 0 {
            return true;
        }
        let mut j: usize = 0;
        while j < self.sources.len()
            invariant
                j <= self.sources.len(),
                forall|k: int| 0 <= k < j ==> !source_yields(#[trigger] self.sources@[k]),
            decreases self.sources.len() - j,
        {
            let y = match &self.sources[j] {
                IpSource::Single { .. } => true,
                IpSource::Cidr { total_count, .. } => (*total_count as usize) > 0,
            };
            if y {
                proof {
                    assert(source_yields(self.sources@[j as int]));
                }
                return true;
            }
            j = j + 1;
        }
        false
    }

    /// One pass, as `pass` says.
    fn run_pass(&mut self, start: usize, rand: u128, count_exhausted: bool) -> (r: Option<IpAddr>)
        ensures
            count_exhausted ==> (final(self).sources@, final(self).active_count, r) == pass(
                old(self).sources@,
                start,
                0,
                old(self).active_count,
                rand,
            ),
            !count_exhausted ==> (final(self).sources@, r) == (
                pass(old(self).sources@, start, 0, old(self).active_count, rand).0,
                pass(old(self).sources@, start, 0, old(self).active_count, rand).2,
            ),
            !count_exhausted ==> final(self).active_count == old(self).active_count,
            final(self).cursor == old(self).cursor,
            final(self).total_count == old(self).total_count,
            final(self).sources.len() == old(self).sources.len(),
    {
        let n = self.sources.len();
        let ghost a0 = self.active_count;
        let ghost orig = self.sources@;
        let mut a: usize = self.active_count;
        let mut i: usize = 0;
        while i < n
            invariant
                i <= n == self.sources.len(),
                self.cursor == old(self).cursor,
                self.total_count == old(self).total_count,
                self.active_count == a0,
                orig == old(self).sources@,
                orig.len() == n,
                a0 == old(self).active_count,
                pass(orig, start, 0, a0, rand) == pass(self.sources@, start, i as nat, a, rand),
                !count_exhausted ==> pass(orig, start, 0, a0, rand).0 == pass(
                    self.sources@,
                    start,
                    i as nat,
                    a,
                    rand,
                ).0,
            decreases n - i,
        {
            let idx = start.wrapping_add(i) % n;
            let r = self.sources[idx].next_ip(rand);
            match r {
                Some(ip) => {
                    if count_exhausted {
                        self.active_count = a;
                    }
                    return Some(ip);
                },
                None => {
                    if self.sources[idx].is_exhausted() {
                        a = a.wrapping_sub(1);
                    }
                },
            }
            i = i + 1;
        }
        if count_exhausted {
            self.active_count = a;
        }
        None
    }

    /// Draws the next candidate address: `None` when no source is active;
    /// otherwise one pass from the cursor, and when that gives nothing, every
    /// source starts a new round and a pass from the first source gives the
    /// address. `rand` picks the offset inside a block's interval.
    pub fn pop(&mut self, rand: u128) -> (r: Option<IpAddr>)
        requires
            old(self).pop_returns(),
        ensures
            old(self).active_count == 0 ==> r is None && *final(self) == *old(self),
            old(self).active_count != 0 ==> {
                let p1 = pass(old(self).sources@, old(self).cursor, 0, old(self).active_count, rand);
                if p1.2 is Some {
                    &&& r == p1.2
                    &&& final(self).sources@ == p1.0
                    &&& final(self).active_count == p1.1
                    &&& final(self).cursor == usize_inc(old(self).cursor)
                } else {
                    let p2 = pass(reset_all(p1.0), 0, 0, p1.1, rand);
                    &&& r == p2.2
                    &&& r is Some
                    &&& final(self).sources@ == p2.0
                    &&& final(self).active_count == old(self).sources.len()
                    &&& final(self).cursor == 1
                }
            },
            final(self).total_count == old(self).total_count,
            final(self).sources.len() == old(self).sources.len(),
    {
        if self.active_count == 0 {
            return None;
        }
        let start_idx = self.cursor;
        self.cursor = self.cursor.wrapping_add(1);
        let r = self.run_pass(start_idx, rand, true);
        if r.is_some() {
            return r;
        }
        let ghost after_first = self.sources@;
        proof {
            lemma_pass_keeps_kinds(old(self).sources@, start_idx, 0, old(self).active_count, rand);
        }
        let mut k: usize = 0;
        while k < self.sources.len()
            invariant
                k <= self.sources.len() == after_first.len(),
                self.total_count == old(self).total_count,
                forall|j: int| 0 <= j < k ==> self.sources@[j] == source_reset(#[trigger] after_first[j]),
                forall|j: int| k <= j < after_first.len() ==> self.sources@[j] == after_first[j],
            decreases self.sources.len() - k,
        {
            self.sources[k].reset();
            k = k + 1;
        }
        proof {
            assert(self.sources@ =~= reset_all(after_first));
        }
        self.cursor = 0;
        self.active_count = self.sources.len();
        let second_start = self.cursor;
        self.cursor = self.cursor.wrapping_add(1);
        proof {
            assert(can_yield(after_first));
            lemma_reset_pass_yields(reset_all(after_first), 0, self.active_count, rand);
        }
        let ghost before_second = self.sources@;
        let ghost a_before = self.active_count;
        let r2 = self.run_pass(second_start, rand, false);
        proof {
            assert(pass(reset_all(after_first), 0, 0, a_before, rand).0 == pass(reset_all(after_first), 0, 0, a_before, rand).0);
            lemma_pass_active_irrelevant(reset_all(after_first), 0, 0, a_before, pass(old(self).sources@, start_idx, 0, old(self).active_count, rand).1, rand);
        }
        self.active_count = self.sources.len();
        r2
    }
}

/// A pass keeps the kind and the yielding of every source.
proof fn lemma_pass_keeps_kinds(srcs: Seq<IpSource>, start: usize, i: nat, active: usize, rand: u128)
    ensures
        pass(srcs, start, i, active, rand).0.len() == srcs.len(),
        can_yield(srcs) ==> can_yield(pass(srcs, start, i, active, rand).0),
    decreases srcs.len() - i,
{
    if i < srcs.len() {
        let idx = usize_wadd(start, i as usize) as nat % srcs.len();
        let (s2, r) = source_next(srcs[idx as int], rand);
        let srcs2 = srcs.update(idx as int, s2);
        assert(source_yields(s2) == source_yields(srcs[idx as int]));
        if can_yield(srcs) {
            let j = choose|j: int| 0 <= j < srcs.len() && source_yields(#[trigger] srcs[j]);
            assert(source_yields(srcs2[j]));
        }
        if r is None {
            let a2 = if source_exhausted(s2) {
                usize_dec(active)
            } else {
                active
            };
            lemma_pass_keeps_kinds(srcs2, start, i + 1, a2, rand);
        }
    }
}

/// The sources and the address of a pass do not depend on the active count.
proof fn lemma_pass_active_irrelevant(srcs: Seq<IpSource>, start: usize, i: nat, a: usize, b: usize, rand: u128)
    ensures
        pass(srcs, start, i, a, rand).0 == pass(srcs, start, i, b, rand).0,
        pass(srcs, start, i, a, rand).2 == pass(srcs, start, i, b, rand).2,
    decreases srcs.len() - i,
{
    if i < srcs.len() {
        let idx = usize_wadd(start, i as usize) as nat % srcs.len();
        let (s2, r) = source_next(srcs[idx as int], rand);
        let srcs2 = srcs.update(idx as int, s2);
        if r is None {
            let a2 = if source_exhausted(s2) {
                usize_dec(a)
            } else {
                a
            };
            let b2 = if source_exhausted(s2) {
                usize_dec(b)
            } else {
                b
            };
            lemma_pass_active_irrelevant(srcs2, start, i + 1, a2, b2, rand);
        }
    }
}

/// A pass from the first source over sources at the start of a round, of
/// which one gives out addresses every round, gives an address.
proof fn lemma_reset_pass_yields(srcs: Seq<IpSource>, i: nat, active: usize, rand: u128)
    requires
        srcs.len() <= usize::MAX,
        forall|j: int| i <= j < srcs.len() ==> (#[trigger] srcs[j]) == source_reset(srcs[j]),
        exists|j: int| i <= j < srcs.len() && source_yields(#[trigger] srcs[j]),
    ensures
        pass(srcs, 0, i, active, rand).2 is Some,
    decreases srcs.len() - i,
{
    let j0 = choose|j: int| i <= j < srcs.len() && source_yields(#[trigger] srcs[j]);
    assert(i < srcs.len());
    assert(usize_wadd(0, i as usize) == i);
    let idx = usize_wadd(0, i as usize) as nat % srcs.len();
    assert(idx == i) by (nonlinear_arith)
        requires
            idx == i % srcs.len(),
            i < srcs.len(),
    ;
    let (s2, r) = source_next(srcs[idx as int], rand);
    if r is None {
        let srcs2 = srcs.update(idx as int, s2);
        let j = choose|j: int| i <= j < srcs.len() && source_yields(#[trigger] srcs[j]);
        if j == i {
            assert(srcs[j] == source_reset(srcs[j]));
            assert(false);
        }
        assert(srcs2[j] == srcs[j]);
        let a2 = if source_exhausted(s2) {
            usize_dec(active)
        } else {
            active
        };
        lemma_reset_pass_yields(srcs2, i + 1, a2, rand);
    }
}

} // verus!
