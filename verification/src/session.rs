//! Client affinity for the forwarder: a small cache that remembers which
//! backend a client address was sent to for a while, a linear congruential
//! generator for random picks, and the pick among backends that are not
//! removed.
use vstd::prelude::*;

use crate::net::{IpAddr, SocketAddr};

verus! {

/// How many clients the cache remembers.
pub const SESSION_CACHE_SIZE: usize = 128;

/// How long a client is remembered, in nanoseconds (30 s).
pub const SESSION_TTL_NANOS: u128 = 30_000_000_000;

/// The multiplier of the generator.
pub const LCG_A: u64 = 6364136223846793005;

/// The increment of the generator.
pub const LCG_C: u64 = 1442695040888963407;

/// The next value of the generator after `seed`: `seed * A + C` modulo 2^64.
pub fn lcg_random(seed: u64) -> (r: u64)
    ensures
        r as int == (seed as int * LCG_A as int + LCG_C as int) % 0x1_0000_0000_0000_0000,
{
    let r = seed.wrapping_mul(LCG_A).wrapping_add(LCG_C);
    proof {
        let m: int = 0x1_0000_0000_0000_0000;
        let p: int = seed as int * LCG_A as int;
        vstd::arithmetic::div_mod::lemma_add_mod_noop(p, LCG_C as int, m);
        vstd::arithmetic::div_mod::lemma_small_mod(LCG_C as nat, m as nat);
        vstd::arithmetic::div_mod::lemma_mod_bound(p, m);
        let w = p % m;
        if w + LCG_C >= m {
            vstd::arithmetic::div_mod::lemma_fundamental_div_mod_converse(w + LCG_C, m, 1, w + LCG_C - m);
        } else {
            vstd::arithmetic::div_mod::lemma_small_mod((w + LCG_C) as nat, m as nat);
        }
    }
    r
}

/// A remembered client: its address, its backend, and when it is forgotten
/// (nanoseconds of the wall clock).
#[derive(Clone, Copy)]
pub struct SessionEntry {
    pub client: IpAddr,
    pub backend: SocketAddr,
    pub expiry: u128,
}

/// The remembered clients, in the order of their slots, and where the next
/// overwrite goes once the cache is full.
pub struct SessionCache {
    pub entries: Vec<SessionEntry>,
    pub cursor: usize,
}

/// The backend of the first entry of `client` from `i` on that is not yet
/// forgotten at `now`.
pub open spec fn lookup_from(es: Seq<SessionEntry>, client: IpAddr, now: u128, i: int) -> Option<SocketAddr>
    decreases es.len() - i,
{
    if i < 0 || i >= es.len() {
        None
    } else if es[i].client == client && now < es[i].expiry {
        Some(es[i].backend)
    } else {
        lookup_from(es, client, now, i + 1)
    }
}

/// The index of the first entry of `client` from `i` on.
pub open spec fn slot_of(es: Seq<SessionEntry>, client: IpAddr, i: int) -> Option<int>
    decreases es.len() - i,
{
    if i < 0 || i >= es.len() {
        None
    } else if es[i].client == client {
        Some(i)
    } else {
        slot_of(es, client, i + 1)
    }
}

/// The cache after `client` is sent to `backend` at `now`: its entry is
/// renewed where it is; else the entry is added while there is room; else
/// it overwrites the slot at the cursor, which moves on.
pub open spec fn stored(es: Seq<SessionEntry>, cursor: usize, client: IpAddr, backend: SocketAddr, now: u128) -> (
    Seq<SessionEntry>,
    usize,
) {
    let e = SessionEntry { client, backend, expiry: (now + SESSION_TTL_NANOS) as u128 };
    match slot_of(es, client, 0) {
        Some(k) => (es.update(k, e), cursor),
        None => if es.len() < SESSION_CACHE_SIZE {
            (es.push(e), cursor)
        } else {
            (
                es.update((cursor % SESSION_CACHE_SIZE) as int, e),
                (if cursor == usize::MAX {
                    0
                } else {
                    cursor + 1
                }) as usize,
            )
        },
    }
}

proof fn lemma_slot_of(es: Seq<SessionEntry>, client: IpAddr, i: int)
    requires
        0 <= i,
    ensures
        slot_of(es, client, i) matches Some(k) ==> i <= k < es.len() && es[k].client == client
            && forall|j: int| i <= j < k ==> es[j].client != client,
        slot_of(es, client, i) is None ==> forall|j: int| i <= j < es.len() ==> es[j].client != client,
    decreases es.len() - i,
{
    if i < es.len() && es[i].client != client {
        lemma_slot_of(es, client, i + 1);
    }
}

proof fn lemma_lookup_first(es: Seq<SessionEntry>, client: IpAddr, now: u128, i: int, k: int)
    requires
        0 <= i <= k < es.len(),
        es[k].client == client,
        now < es[k].expiry,
        forall|j: int| i <= j < k ==> es[j].client != client,
    ensures
        lookup_from(es, client, now, i) == Some(es[k].backend),
    decreases k - i,
{
    if i < k {
        lemma_lookup_first(es, client, now, i + 1, k);
    }
}

impl SessionCache {
    /// At most `SESSION_CACHE_SIZE` entries, one per client.
    pub open spec fn wf(&self) -> bool {
        &&& self.entries@.len() <= SESSION_CACHE_SIZE
        &&& forall|i: int, j: int|
            0 <= i < j < self.entries@.len() ==> (#[trigger] self.entries@[i]).client
                != (#[trigger] self.entries@[j]).client
    }

    /// An empty cache.
    pub fn new() -> (r: SessionCache)
        ensures
            r.wf(),
            r.entries@.len() == 0,
            r.cursor == 0,
    {
        SessionCache { entries: Vec::new(), cursor: 0 }
    }

    /// The backend that `client` was sent to, if it is remembered at `now`.
    pub fn get(&self, client: IpAddr, now: u128) -> (r: Option<SocketAddr>)
        ensures
            r == lookup_from(self.entries@, client, now, 0),
    {
        let mut i: usize = 0;
        while i < self.entries.len()
            invariant
                i <= self.entries@.len(),
                lookup_from(self.entries@, client, now, 0) == lookup_from(self.entries@, client, now, i as int),
            decreases self.entries@.len() - i,
        {
            let e = self.entries[i];
            if e.client == client && now < e.expiry {
                return Some(e.backend);
            }
            i = i + 1;
        }
        None
    }

    /// Remembers that `client` was sent to `backend` at `now`, as `stored`
    /// says.
    pub fn put(&mut self, client: IpAddr, backend: SocketAddr, now: u128)
        requires
            now <= u128::MAX - SESSION_TTL_NANOS,
        ensures
            (final(self).entries@, final(self).cursor) == stored(
                old(self).entries@,
                old(self).cursor,
                client,
                backend,
                now,
            ),
            old(self).wf() ==> final(self).wf(),
    {
        let e = SessionEntry { client, backend, expiry: now + SESSION_TTL_NANOS };
        let ghost es = self.entries@;
        proof {
            lemma_slot_of(es, client, 0);
        }
        let mut i: usize = 0;
        while i < self.entries.len()
            invariant
                i <= self.entries@.len(),
                self.entries@ == es,
                self.cursor == old(self).cursor,
                es == old(self).entries@,
                slot_of(es, client, 0) == slot_of(es, client, i as int),
                e == (SessionEntry { client, backend, expiry: (now + SESSION_TTL_NANOS) as u128 }),
            decreases self.entries@.len() - i,
        {
            if self.entries[i].client == client {
                self.entries.set(i, e);
                proof {
                    assert(slot_of(es, client, i as int) == Some(i as int));
                    assert(forall|k: int| 0 <= k < es.len() ==> #[trigger] self.entries@[k].client == es[k].client);
                }
                return;
            }
            i = i + 1;
        }
        proof {
            assert(slot_of(es, client, es.len() as int) is None);
        }
        if self.entries.len() < SESSION_CACHE_SIZE {
            self.entries.push(e);
            proof {
                assert(forall|k: int| 0 <= k < es.len() ==> #[trigger] self.entries@[k].client == es[k].client);
            }
            return;
        }
        let idx = self.cursor % SESSION_CACHE_SIZE;
        self.cursor = self.cursor.wrapping_add(1);
        self.entries.set(idx, e);
        proof {
            assert(forall|k: int| 0 <= k < es.len() && k != idx ==> #[trigger] self.entries@[k].client == es[k].client);
        }
    }
}

/// A remembered backend is given back: right after `client` is sent to
/// `backend` at `now`, a lookup at any time before the entry is forgotten
/// finds `backend`.
pub proof fn law_put_then_get(
    es: Seq<SessionEntry>,
    cursor: usize,
    client: IpAddr,
    backend: SocketAddr,
    now: u128,
    later: u128,
)
    requires
        es.len() <= SESSION_CACHE_SIZE,
        now <= u128::MAX - SESSION_TTL_NANOS,
        later < now + SESSION_TTL_NANOS,
    ensures
        lookup_from(stored(es, cursor, client, backend, now).0, client, later, 0) == Some(backend),
{
    lemma_slot_of(es, client, 0);
    let (es2, _) = stored(es, cursor, client, backend, now);
    match slot_of(es, client, 0) {
        Some(k) => {
            lemma_lookup_first(es2, client, later, 0, k);
        },
        None => {
            if es.len() < SESSION_CACHE_SIZE {
                lemma_lookup_first(es2, client, later, 0, es.len() as int);
            } else {
                lemma_lookup_first(es2, client, later, 0, (cursor % SESSION_CACHE_SIZE) as int);
            }
        },
    }
}

/// The first index from `start` on, in cyclic order over `n` slots, whose
/// slot is not removed, looking at `n - i` more slots.
pub open spec fn first_live(removed: Seq<bool>, start: nat, i: nat) -> Option<nat>
    decreases removed.len() - i,
{
    if i >= removed.len() {
        None
    } else if !removed[((start + i) % removed.len()) as int] {
        Some(((start + i) % removed.len()) as nat)
    } else {
        first_live(removed, start, i + 1)
    }
}

proof fn lemma_first_live(removed: Seq<bool>, start: nat, i: nat)
    ensures
        first_live(removed, start, i) matches Some(k) ==> k < removed.len() && !removed[k as int],
        first_live(removed, start, i) is None ==> forall|j: nat|
            i <= j < removed.len() ==> #[trigger] removed[((start + j) % removed.len()) as int],
    decreases removed.len() - i,
{
    if i < removed.len() {
        lemma_first_live(removed, start, i + 1);
    }
}

/// The cyclic pick gives a slot that is not removed, and gives none only
/// when every slot is removed.
pub proof fn law_round_robin_live(removed: Seq<bool>, start: nat)
    ensures
        first_live(removed, start, 0) matches Some(k) ==> k < removed.len() && !removed[k as int],
        first_live(removed, start, 0) is None ==> forall|j: int| 0 <= j < removed.len() ==> #[trigger] removed[j],
{
    lemma_first_live(removed, start, 0);
    if first_live(removed, start, 0) is None {
        assert forall|j: int| 0 <= j < removed.len() implies #[trigger] removed[j] by {
            let n = removed.len() as int;
            let q = start as int / n;
            let r = start as int % n;
            vstd::arithmetic::div_mod::lemma_fundamental_div_mod(start as int, n);
            vstd::arithmetic::div_mod::lemma_mod_bound(start as int, n);
            let d: int = if j >= r {
                j - r
            } else {
                j - r + n
            };
            if j >= r {
                assert(start as int + d == q * n + j);
                vstd::arithmetic::div_mod::lemma_fundamental_div_mod_converse(start as int + d, n, q, j);
            } else {
                assert(start as int + d == (q + 1) * n + j) by (nonlinear_arith)
                    requires
                        start as int == n * q + r,
                        d == j - r + n,
                ;
                vstd::arithmetic::div_mod::lemma_fundamental_div_mod_converse(start as int + d, n, q + 1, j);
            }
            assert(((start + d as nat) % removed.len()) as int == j);
            assert(removed[((start + d as nat) % removed.len()) as int]);
        }
    }
}

/// The first slot, in cyclic order from `start_idx`, that is not removed.
pub fn select_round_robin(removed: &Vec<bool>, start_idx: usize) -> (r: Option<usize>)
    ensures
        r == (match first_live(removed@, start_idx as nat, 0) {
            Some(k) => Some(k as usize),
            None => None::<usize>,
        }),
{
    let len = removed.len();
    let mut i: usize = 0;
    while i < len
        invariant
            i <= len == removed@.len(),
            first_live(removed@, start_idx as nat, 0) == first_live(removed@, start_idx as nat, i as nat),
        decreases len - i,
    {
        let idx = ((start_idx as u128 + i as u128) % (len as u128)) as usize;
        if !removed[idx] {
            return Some(idx);
        }
        i = i + 1;
    }
    None
}

/// What the two random picks among backends come to: a fallback to the
/// cyclic pick when the first finds only removed slots, the first alone
/// when the second does, or both, to be compared by their weights.
#[derive(Clone, Copy, PartialEq, Eq, Debug, Structural)]
pub enum PickPair {
    Fallback(Option<usize>),
    One(usize),
    Two(usize, usize),
}

/// Moves `idx` on past removed slots, at most three times.
pub open spec fn probe(removed: Seq<bool>, idx: nat, attempts: nat) -> nat
    decreases 3 - attempts,
{
    if attempts >= 3 || !removed[idx as int] {
        idx
    } else {
        probe(removed, (idx + 1) % removed.len(), attempts + 1)
    }
}

/// The picks of `select_power_of_two` from the random values `r1` and `r2`.
pub open spec fn pick_pair(removed: Seq<bool>, r1: usize, r2: usize) -> Option<PickPair> {
    let n = removed.len();
    if n == 0 {
        None
    } else {
        let i1 = probe(removed, (r1 as nat) % n, 0);
        let i2 = probe(removed, (r2 as nat) % n, 0);
        if removed[i1 as int] {
            Some(
                PickPair::Fallback(
                    match first_live(removed, i1, 0) {
                        Some(k) => Some(k as usize),
                        None => None::<usize>,
                    },
                ),
            )
        } else if removed[i2 as int] {
            Some(PickPair::One(i1 as usize))
        } else {
            Some(PickPair::Two(i1 as usize, i2 as usize))
        }
    }
}

/// Moves `idx` on past removed slots, as `probe` says.
fn probe_live(removed: &Vec<bool>, idx: usize) -> (r: usize)
    requires
        idx < removed@.len(),
    ensures
        r == probe(removed@, idx as nat, 0),
        r < removed@.len(),
{
    let len = removed.len();
    let mut i = idx;
    let mut attempts: usize = 0;
    while removed[i] && attempts < 3
        invariant
            i < len == removed@.len(),
            attempts <= 3,
            probe(removed@, idx as nat, 0) == probe(removed@, i as nat, attempts as nat),
        decreases 3 - attempts,
    {
        i = (i + 1) % len;
        attempts = attempts + 1;
    }
    i
}

/// The two random picks among the slots, up to the comparison of their
/// weights, from the generator's values `r1` and `r2` taken as `usize`:
/// each pick moves on past removed slots, at most three times. `None`
/// without slots.
pub fn select_power_of_two(removed: &Vec<bool>, r1: usize, r2: usize) -> (r: Option<PickPair>)
    ensures
        r == pick_pair(removed@, r1, r2),
{
    let len = removed.len();
    if len == 0 {
        return None;
    }
    let i1 = probe_live(removed, r1 % len);
    let i2 = probe_live(removed, r2 % len);
    if removed[i1] {
        return Some(PickPair::Fallback(select_round_robin(removed, i1)));
    }
    if removed[i2] {
        return Some(PickPair::One(i1));
    }
    Some(PickPair::Two(i1, i2))
}

} // verus!
