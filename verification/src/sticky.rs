//! The sticky slots: a few backends that take the traffic for a while
//! each, so that a client's connections tend to reach the same addresses.
//! Once a second the slots are kept up: stale or isolated ones are dropped,
//! those whose interval has passed move to the least loaded unused backend,
//! and a new slot is added when there is none, or when there is room and
//! either the expansion interval has passed or the slots are crowded.
use vstd::prelude::*;

use crate::backend::{Backend, BackendState, usize_add_wrap};
use crate::balancer::{LoadBalancer, StickySlot};
use crate::config::{
    STICKY_BASE_INTERVAL_SECS, STICKY_INCREMENT_INTERVAL_SECS, STICKY_SLOT_EXPAND_INTERVAL_MS,
    STICKY_SLOT_TTL_MS,
};
use crate::net::SocketAddr;

verus! {

broadcast use vstd::seq_lib::group_seq_properties;

/// `a - b`, or 0 when `b` is later.
pub open spec fn since(a: u64, b: u64) -> u64 {
    if a >= b {
        (a - b) as u64
    } else {
        0
    }
}

/// Whether backend `id` can take a slot: it may take traffic and its
/// address holds no slot yet.
pub open spec fn slot_candidate(bs: Seq<Backend>, used: Seq<SocketAddr>, id: usize) -> bool {
    bs[id as int].selectable() && !used.contains(bs[id as int].addr)
}

/// The least loaded candidate among the first `n` of the pool `q`, the
/// first of equals.
pub open spec fn pick_unused(q: Seq<usize>, bs: Seq<Backend>, used: Seq<SocketAddr>, n: nat) -> Option<usize>
    decreases n,
{
    if n == 0 {
        None
    } else {
        let r = pick_unused(q, bs, used, (n - 1) as nat);
        let id = q[n - 1];
        if slot_candidate(bs, used, id) {
            match r {
                None => Some(id),
                Some(b) => if bs[id as int].connections < bs[b as int].connections {
                    Some(id)
                } else {
                    Some(b)
                },
            }
        } else {
            r
        }
    }
}

/// Whether a slot survives: its backend is not isolated and it was used
/// within its lifetime (wall clock).
pub open spec fn slot_alive(bs: Seq<Backend>, now_wall_ms: u64) -> spec_fn(StickySlot) -> bool {
    |s: StickySlot| bs[s.backend as int].state != BackendState::Isolated && since(now_wall_ms, s.last_access_ms)
        < STICKY_SLOT_TTL_MS
}

/// The addresses of the slots' backends.
pub open spec fn slot_addrs(slots: Seq<StickySlot>, bs: Seq<Backend>) -> Seq<SocketAddr> {
    slots.map_values(|s: StickySlot| bs[s.backend as int].addr)
}

/// The first `n` slots after those whose interval has passed move to an
/// unused backend of `q`; each move marks the new address used.
pub open spec fn switch_upto(
    slots: Seq<StickySlot>,
    q: Seq<usize>,
    bs: Seq<Backend>,
    used: Seq<SocketAddr>,
    now_mono_ms: u64,
    n: nat,
) -> (Seq<StickySlot>, Seq<SocketAddr>)
    decreases n,
{
    if n == 0 {
        (slots, used)
    } else {
        let (s1, u1) = switch_upto(slots, q, bs, used, now_mono_ms, (n - 1) as nat);
        let s = s1[n - 1];
        if since(now_mono_ms, s.last_switch_ms) >= s.interval_ms {
            match pick_unused(q, bs, u1, q.len()) {
                Some(b) => (
                    s1.update(n - 1, StickySlot { backend: b, last_switch_ms: now_mono_ms, ..s }),
                    u1.push(bs[b as int].addr),
                ),
                None => (s1, u1),
            }
        } else {
            (s1, u1)
        }
    }
}

/// The open connections of the first `n` slots' backends, summed with
/// wrapping.
pub open spec fn slot_conns(slots: Seq<StickySlot>, bs: Seq<Backend>, n: nat) -> usize
    decreases n,
{
    if n == 0 {
        0
    } else {
        usize_add_wrap(slot_conns(slots, bs, (n - 1) as nat), bs[slots[n - 1].backend as int].connections)
    }
}

/// The switch interval of the slot added at position `len`, in ms.
pub open spec fn slot_interval_ms(len: nat) -> nat {
    ((STICKY_BASE_INTERVAL_SECS + len * STICKY_INCREMENT_INTERVAL_SECS) * 1000) as nat
}

/// The slots after one upkeep over the pool `q`, and the new time of the
/// last expansion.
pub open spec fn spec_maintain(
    slots0: Seq<StickySlot>,
    last_expand_ms: u64,
    max_slots: usize,
    q: Seq<usize>,
    bs: Seq<Backend>,
    now_mono_ms: u64,
    now_wall_ms: u64,
) -> (Seq<StickySlot>, u64) {
    let kept = slots0.filter(slot_alive(bs, now_wall_ms));
    let (switched, _used) = switch_upto(kept, q, bs, slot_addrs(kept, bs), now_mono_ms, kept.len());
    let len = switched.len();
    let total = slot_conns(switched, bs, len);
    let expand = len == 0 || (len < max_slots && (since(now_wall_ms, last_expand_ms)
        >= STICKY_SLOT_EXPAND_INTERVAL_MS || len * len < total));
    if expand {
        match pick_unused(q, bs, slot_addrs(switched, bs), q.len()) {
            Some(b) => (
                switched.push(
                    StickySlot {
                        backend: b,
                        last_switch_ms: now_mono_ms,
                        last_access_ms: now_wall_ms,
                        interval_ms: slot_interval_ms(len) as u64,
                    },
                ),
                now_wall_ms,
            ),
            None => (switched, last_expand_ms),
        }
    } else {
        (switched, last_expand_ms)
    }
}

proof fn lemma_switch_len(
    slots: Seq<StickySlot>,
    q: Seq<usize>,
    bs: Seq<Backend>,
    used: Seq<SocketAddr>,
    now_mono_ms: u64,
    n: nat,
)
    requires
        n <= slots.len(),
    ensures
        switch_upto(slots, q, bs, used, now_mono_ms, n).0.len() == slots.len(),
    decreases n,
{
    if n > 0 {
        lemma_switch_len(slots, q, bs, used, now_mono_ms, (n - 1) as nat);
    }
}

/// The most slots the upkeep holds under the limit `max_slots`: the limit,
/// but at least one (a slot is added whenever there is none).
pub open spec fn slot_limit(max_slots: usize) -> nat {
    if max_slots == 0 {
        1
    } else {
        max_slots as nat
    }
}

/// The upkeep never holds more slots than its limit: from at most
/// `slot_limit(max_slots)` slots, it keeps at most that many.
proof fn lemma_sticky_slots_bounded(
    slots0: Seq<StickySlot>,
    last_expand_ms: u64,
    max_slots: usize,
    q: Seq<usize>,
    bs: Seq<Backend>,
    now_mono_ms: u64,
    now_wall_ms: u64,
)
    requires
        slots0.len() <= slot_limit(max_slots),
    ensures
        spec_maintain(slots0, last_expand_ms, max_slots, q, bs, now_mono_ms, now_wall_ms).0.len() <= slot_limit(
            max_slots,
        ),
{
    let kept = slots0.filter(slot_alive(bs, now_wall_ms));
    crate::seqs::lemma_filter_facts(slots0, slot_alive(bs, now_wall_ms));
    lemma_switch_len(kept, q, bs, slot_addrs(kept, bs), now_mono_ms, kept.len());
}

/// Whether backend `b` may take a slot while the addresses `used` are in
/// slots: it is active or warming, and its address is unused.
pub open spec fn open_for_slot(b: Backend, used: Seq<SocketAddr>) -> bool {
    (b.state == BackendState::Active || b.state == BackendState::Warming) && !used.contains(b.addr)
}

/// Whether position `p` of the pool holds the first of the least loaded
/// backends open for a slot among the first `n`.
pub open spec fn first_least_loaded(q: Seq<usize>, bs: Seq<Backend>, used: Seq<SocketAddr>, n: nat, p: int) -> bool {
    &&& 0 <= p < n
    &&& open_for_slot(bs[q[p] as int], used)
    &&& forall|k: int|
        0 <= k < n && open_for_slot(#[trigger] bs[q[k] as int], used) ==> bs[q[p] as int].connections
            <= bs[q[k] as int].connections && (k < p ==> bs[q[k] as int].connections > bs[q[p] as int].connections)
}

/// The pick for a slot among the pool `q`, with the addresses `used`
/// already in slots: the backend at the first position of the pool that
/// holds a least loaded backend open for a slot (active or warming, its
/// address unused); none exactly when no backend of the pool is open for a
/// slot.
pub proof fn law_pick_unused(q: Seq<usize>, bs: Seq<Backend>, used: Seq<SocketAddr>)
    ensures
        pick_unused(q, bs, used, q.len()) is None <==> forall|k: int|
            0 <= k < q.len() ==> !open_for_slot(#[trigger] bs[q[k] as int], used),
        pick_unused(q, bs, used, q.len()) matches Some(b) ==> exists|p: int|
            #[trigger] first_least_loaded(q, bs, used, q.len(), p) && q[p] == b,
{
    lemma_pick_unused_upto(q, bs, used, q.len());
}

/// The pick among the first `n` of the pool, as `law_pick_unused` says.
#[verifier::rlimit(30)]
proof fn lemma_pick_unused_upto(q: Seq<usize>, bs: Seq<Backend>, used: Seq<SocketAddr>, n: nat)
    requires
        n <= q.len(),
    ensures
        pick_unused(q, bs, used, n) is None <==> forall|k: int|
            0 <= k < n ==> !open_for_slot(#[trigger] bs[q[k] as int], used),
        pick_unused(q, bs, used, n) matches Some(b) ==> exists|p: int|
            #[trigger] first_least_loaded(q, bs, used, n, p) && q[p] == b,
    decreases n,
{
    if n > 0 {
        let m = (n - 1) as nat;
        lemma_pick_unused_upto(q, bs, used, m);
        let id = q[m as int];
        let ok = open_for_slot(bs[id as int], used);
        assert(slot_candidate(bs, used, id) == ok);
        match pick_unused(q, bs, used, m) {
            None => {
                if ok {
                    assert(first_least_loaded(q, bs, used, n, m as int)) by {
                        assert forall|k: int|
                            0 <= k < n && open_for_slot(#[trigger] bs[q[k] as int], used) implies bs[id as int].connections
                                <= bs[q[k] as int].connections && (k < m ==> bs[q[k] as int].connections
                                > bs[id as int].connections) by {
                            if k < m {
                                assert(!open_for_slot(bs[q[k] as int], used));
                            }
                        }
                    }
                }
            },
            Some(b) => {
                let p = choose|p: int| #[trigger] first_least_loaded(q, bs, used, m, p) && q[p] == b;
                if ok && bs[id as int].connections < bs[b as int].connections {
                    assert(first_least_loaded(q, bs, used, n, m as int));
                } else {
                    assert(first_least_loaded(q, bs, used, n, p));
                }
            },
        }
    }
}

/// The pick is a candidate of the pool.
proof fn lemma_pick_unused(q: Seq<usize>, bs: Seq<Backend>, used: Seq<SocketAddr>, n: nat)
    requires
        n <= q.len(),
    ensures
        pick_unused(q, bs, used, n) matches Some(b) ==> (q.contains(b) && slot_candidate(bs, used, b)),
    decreases n,
{
    if n > 0 {
        lemma_pick_unused(q, bs, used, (n - 1) as nat);
        assert(q[n - 1] == q[(n - 1) as int]);
    }
}

/// The addresses of filtered slots are among the addresses of all, and stay
/// distinct when those are.
proof fn lemma_filter_addrs(slots: Seq<StickySlot>, pred: spec_fn(StickySlot) -> bool, bs: Seq<Backend>)
    ensures
        forall|a: SocketAddr| #[trigger] slot_addrs(slots.filter(pred), bs).contains(a) ==> slot_addrs(
            slots,
            bs,
        ).contains(a),
        slot_addrs(slots, bs).no_duplicates() ==> slot_addrs(slots.filter(pred), bs).no_duplicates(),
    decreases slots.len(),
{
    reveal(Seq::filter);
    if slots.len() > 0 {
        let d = slots.drop_last();
        lemma_filter_addrs(d, pred, bs);
        crate::seqs::lemma_filter_facts(d, pred);
        let f = d.filter(pred);
        let all = slot_addrs(slots, bs);
        assert(slot_addrs(d, bs) =~= all.drop_last());
        assert forall|a: SocketAddr| #[trigger] slot_addrs(slots.filter(pred), bs).contains(a) implies all.contains(
            a,
        ) by {
            let g = slot_addrs(slots.filter(pred), bs);
            let j = choose|j: int| 0 <= j < g.len() && g[j] == a;
            if pred(slots.last()) && j == g.len() - 1 {
                assert(all[all.len() - 1] == a);
            } else {
                assert(slot_addrs(f, bs)[j] == a);
                assert(slot_addrs(f, bs).contains(a));
                let k = choose|k: int| 0 <= k < d.len() && slot_addrs(d, bs)[k] == a;
                assert(all[k] == a);
            }
        }
        if all.no_duplicates() {
            assert(slot_addrs(d, bs).no_duplicates()) by {
                assert forall|i: int, j: int|
                    0 <= i < d.len() && 0 <= j < d.len() && i != j implies slot_addrs(d, bs)[i] != slot_addrs(
                    d,
                    bs,
                )[j] by {
                    assert(slot_addrs(d, bs)[i] == all[i] && slot_addrs(d, bs)[j] == all[j]);
                }
            }
            if pred(slots.last()) {
                let la = bs[slots.last().backend as int].addr;
                assert(!slot_addrs(f, bs).contains(la)) by {
                    if slot_addrs(f, bs).contains(la) {
                        let k = choose|k: int| 0 <= k < d.len() && slot_addrs(d, bs)[k] == la;
                        assert(all[k] == all[all.len() - 1]);
                    }
                }
                assert(slot_addrs(slots.filter(pred), bs) =~= slot_addrs(f, bs).push(la));
                crate::seqs::lemma_push_no_dups(slot_addrs(f, bs), la);
            } else {
                assert(slot_addrs(slots.filter(pred), bs) =~= slot_addrs(f, bs));
            }
        }
    }
}

/// Moving slots keeps their count, keeps every address of a slot among
/// the used ones and the slots' addresses distinct, leaves the slots from
/// `n` on as they were, and gives a moved slot a candidate of the pool and
/// its last access unchanged.
proof fn lemma_switch_facts(
    slots: Seq<StickySlot>,
    q: Seq<usize>,
    bs: Seq<Backend>,
    used: Seq<SocketAddr>,
    now_mono_ms: u64,
    n: nat,
)
    requires
        n <= slots.len(),
        forall|a: SocketAddr| #[trigger] slot_addrs(slots, bs).contains(a) ==> used.contains(a),
        slot_addrs(slots, bs).no_duplicates(),
    ensures
        ({
            let (s, u) = switch_upto(slots, q, bs, used, now_mono_ms, n);
            &&& s.len() == slots.len()
            &&& forall|a: SocketAddr| #[trigger] slot_addrs(s, bs).contains(a) ==> u.contains(a)
            &&& slot_addrs(s, bs).no_duplicates()
            &&& forall|i: int| n <= i < s.len() ==> #[trigger] s[i] == slots[i]
            &&& forall|i: int|
                0 <= i < s.len() ==> #[trigger] s[i] == slots[i] || (q.contains(s[i].backend)
                    && bs[s[i].backend as int].selectable() && s[i].last_access_ms == slots[i].last_access_ms)
        }),
    decreases n,
{
    if n > 0 {
        lemma_switch_facts(slots, q, bs, used, now_mono_ms, (n - 1) as nat);
        let (s1, u1) = switch_upto(slots, q, bs, used, now_mono_ms, (n - 1) as nat);
        let s = s1[n - 1];
        if since(now_mono_ms, s.last_switch_ms) >= s.interval_ms {
            lemma_pick_unused(q, bs, u1, q.len());
            match pick_unused(q, bs, u1, q.len()) {
                Some(b) => {
                    let ns = StickySlot { backend: b, last_switch_ms: now_mono_ms, ..s };
                    let s2 = s1.update(n - 1, ns);
                    let a = bs[b as int].addr;
                    let u2 = u1.push(a);
                    let old_addrs = slot_addrs(s1, bs);
                    let new_addrs = slot_addrs(s2, bs);
                    assert(new_addrs =~= old_addrs.update(n - 1, a));
                    assert forall|x: SocketAddr| #[trigger] new_addrs.contains(x) implies u2.contains(x) by {
                        let k = choose|k: int| 0 <= k < new_addrs.len() && new_addrs[k] == x;
                        if k == n - 1 {
                            assert(u2[u2.len() - 1] == x);
                        } else {
                            assert(old_addrs[k] == x);
                            assert(old_addrs.contains(x));
                            let m = choose|m: int| 0 <= m < u1.len() && u1[m] == x;
                            assert(u2[m] == x);
                        }
                    }
                    assert forall|i: int, j: int|
                        0 <= i < new_addrs.len() && 0 <= j < new_addrs.len() && i != j implies new_addrs[i]
                        != new_addrs[j] by {
                        if i == n - 1 {
                            assert(old_addrs.contains(new_addrs[j])) by {
                                assert(old_addrs[j] == new_addrs[j]);
                            }
                        } else if j == n - 1 {
                            assert(old_addrs.contains(new_addrs[i])) by {
                                assert(old_addrs[i] == new_addrs[i]);
                            }
                        } else {
                            assert(old_addrs[i] == new_addrs[i] && old_addrs[j] == new_addrs[j]);
                        }
                    }
                    assert(s1[n - 1] == slots[n - 1]);
                },
                None => {},
            }
        }
    }
}

/// One upkeep of the sticky slots over the pool `q` (wall clock
/// `now_wall_ms`): it adds at most one slot, and holds no more than its
/// limit (at least one) when it held no more before; it keeps the slots' addresses
/// distinct; no slot it keeps has an isolated backend or was last used a
/// slot lifetime ago or more; and every slot it holds is either a slot it
/// had, unchanged, or holds a backend of `q` that may take traffic.
pub proof fn law_sticky_upkeep(
    slots0: Seq<StickySlot>,
    last_expand_ms: u64,
    max_slots: usize,
    q: Seq<usize>,
    bs: Seq<Backend>,
    now_mono_ms: u64,
    now_wall_ms: u64,
)
    ensures
        ({
            let r = spec_maintain(slots0, last_expand_ms, max_slots, q, bs, now_mono_ms, now_wall_ms).0;
            &&& r.len() <= slots0.len() + 1
            &&& slots0.len() <= slot_limit(max_slots) ==> r.len() <= slot_limit(max_slots)
            &&& slot_addrs(slots0, bs).no_duplicates() ==> slot_addrs(r, bs).no_duplicates()
            &&& forall|i: int|
                0 <= i < r.len() ==> bs[#[trigger] r[i].backend as int].state != BackendState::Isolated
            &&& forall|i: int| 0 <= i < r.len() ==> since(now_wall_ms, #[trigger] r[i].last_access_ms) < STICKY_SLOT_TTL_MS
            &&& forall|i: int|
                0 <= i < r.len() ==> slots0.contains(#[trigger] r[i]) || (q.contains(r[i].backend)
                    && bs[r[i].backend as int].selectable())
        }),
{
    if slots0.len() <= slot_limit(max_slots) {
        lemma_sticky_slots_bounded(slots0, last_expand_ms, max_slots, q, bs, now_mono_ms, now_wall_ms);
    }
    let alive = slot_alive(bs, now_wall_ms);
    let kept = slots0.filter(alive);
    crate::seqs::lemma_filter_facts(slots0, alive);
    lemma_filter_addrs(slots0, alive, bs);
    let used0 = slot_addrs(kept, bs);
    let (switched, _u) = switch_upto(kept, q, bs, used0, now_mono_ms, kept.len());
    let r = spec_maintain(slots0, last_expand_ms, max_slots, q, bs, now_mono_ms, now_wall_ms).0;
    if slot_addrs(kept, bs).no_duplicates() {
        lemma_switch_facts(kept, q, bs, used0, now_mono_ms, kept.len());
    } else {
        lemma_switch_len(kept, q, bs, used0, now_mono_ms, kept.len());
    }
    assert forall|i: int| 0 <= i < switched.len() implies {
        &&& bs[switched[i].backend as int].state != BackendState::Isolated
        &&& since(now_wall_ms, switched[i].last_access_ms) < STICKY_SLOT_TTL_MS
        &&& slots0.contains(switched[i]) || (q.contains(switched[i].backend) && bs[switched[i].backend as int].selectable())
    } by {
        assert(kept.contains(kept[i]));
        assert(alive(kept[i]));
        if !slot_addrs(kept, bs).no_duplicates() {
            lemma_switch_any(kept, q, bs, used0, now_mono_ms, kept.len());
        }
    }
    let len = switched.len();
    let total = slot_conns(switched, bs, len);
    let expand = len == 0 || (len < max_slots && (since(now_wall_ms, last_expand_ms)
        >= STICKY_SLOT_EXPAND_INTERVAL_MS || len * len < total));
    if expand {
        lemma_pick_unused(q, bs, slot_addrs(switched, bs), q.len());
        match pick_unused(q, bs, slot_addrs(switched, bs), q.len()) {
            Some(b) => {
                let ns = StickySlot {
                    backend: b,
                    last_switch_ms: now_mono_ms,
                    last_access_ms: now_wall_ms,
                    interval_ms: slot_interval_ms(len) as u64,
                };
                assert(r == switched.push(ns));
                assert(slot_addrs(r, bs) =~= slot_addrs(switched, bs).push(bs[b as int].addr));
                if slot_addrs(slots0, bs).no_duplicates() {
                    crate::seqs::lemma_push_no_dups(slot_addrs(switched, bs), bs[b as int].addr);
                }
                assert forall|i: int| 0 <= i < r.len() implies {
                    &&& bs[r[i].backend as int].state != BackendState::Isolated
                    &&& since(now_wall_ms, r[i].last_access_ms) < STICKY_SLOT_TTL_MS
                    &&& slots0.contains(r[i]) || (q.contains(r[i].backend) && bs[r[i].backend as int].selectable())
                } by {
                    if i < len {
                        assert(r[i] == switched[i]);
                    }
                }
            },
            None => {},
        }
    }
}

/// Moving slots, with nothing known of their addresses: a moved slot holds
/// a candidate of the pool and keeps its last access.
proof fn lemma_switch_any(
    slots: Seq<StickySlot>,
    q: Seq<usize>,
    bs: Seq<Backend>,
    used: Seq<SocketAddr>,
    now_mono_ms: u64,
    n: nat,
)
    requires
        n <= slots.len(),
    ensures
        ({
            let (s, u) = switch_upto(slots, q, bs, used, now_mono_ms, n);
            &&& s.len() == slots.len()
            &&& forall|i: int| n <= i < s.len() ==> #[trigger] s[i] == slots[i]
            &&& forall|i: int|
                0 <= i < s.len() ==> #[trigger] s[i] == slots[i] || (q.contains(s[i].backend)
                    && bs[s[i].backend as int].selectable() && s[i].last_access_ms == slots[i].last_access_ms)
        }),
    decreases n,
{
    if n > 0 {
        lemma_switch_any(slots, q, bs, used, now_mono_ms, (n - 1) as nat);
        let (s1, u1) = switch_upto(slots, q, bs, used, now_mono_ms, (n - 1) as nat);
        lemma_pick_unused(q, bs, u1, q.len());
        assert(s1[n - 1] == slots[n - 1]);
    }
}

/// Whether `a` is in `v`.
fn contains_addr(v: &Vec<SocketAddr>, a: SocketAddr) -> (r: bool)
    ensures
        r == v@.contains(a),
{
    let mut i: usize = 0;
    while i < v.len()
        invariant
            i <= v.len(),
            forall|k: int| 0 <= k < i ==> v@[k] != a,
        decreases v.len() - i,
    {
        if v[i] == a {
            return true;
        }
        i = i + 1;
    }
    false
}

impl LoadBalancer {
    /// The least loaded candidate of the pool, as `pick_unused` says.
    fn pick_unused_in(&self, q: &Vec<usize>, used: &Vec<SocketAddr>) -> (r: Option<usize>)
        requires
            self.wf(),
            forall|k: int| 0 <= k < q.len() ==> #[trigger] q@[k] < self.backends.len(),
        ensures
            r == pick_unused(q@, self.backends@, used@, q@.len()),
            r matches Some(b) ==> b < self.backends.len(),
    {
        let mut best: Option<usize> = None;
        let mut i: usize = 0;
        while i < q.len()
            invariant
                i <= q.len(),
                forall|k: int| 0 <= k < q.len() ==> #[trigger] q@[k] < self.backends.len(),
                best == pick_unused(q@, self.backends@, used@, i as nat),
                best matches Some(b) ==> b < self.backends.len(),
            decreases q.len() - i,
        {
            let id = q[i];
            proof {
                assert(q@[i as int] < self.backends.len());
            }
            let b = &self.backends[id];
            if b.is_selectable() && !contains_addr(used, b.addr) {
                best = match best {
                    None => Some(id),
                    Some(cur) => if b.connections < self.backends[cur].connections {
                        Some(id)
                    } else {
                        Some(cur)
                    },
                };
            }
            i = i + 1;
        }
        best
    }

    /// Keeps up the sticky slots over the primary (or backup) queue, as
    /// `spec_maintain` says.
    pub fn maintain_sticky_slots(&mut self, primary: bool, now_mono_ms: u64, now_wall_ms: u64)
        requires
            old(self).wf(),
        ensures
            final(self).wf(),
            (final(self).sticky_slots@, final(self).last_expand_ms) == spec_maintain(
                old(self).sticky_slots@,
                old(self).last_expand_ms,
                old(self).max_sticky_slots,
                if primary {
                    old(self).primary@
                } else {
                    old(self).backup@
                },
                old(self).backends@,
                now_mono_ms,
                now_wall_ms,
            ),
            final(self).backends@ == old(self).backends@,
            final(self).primary@ == old(self).primary@,
            final(self).backup@ == old(self).backup@,
            final(self).ip_set@ == old(self).ip_set@,
            final(self).primary_index == old(self).primary_index,
            final(self).primary_target == old(self).primary_target,
            final(self).backup_target == old(self).backup_target,
            final(self).min_active_target == old(self).min_active_target,
            final(self).max_sticky_slots == old(self).max_sticky_slots,
            final(self).sticky_slots.len() <= old(self).sticky_slots.len() + 1,
            old(self).sticky_slots.len() <= slot_limit(old(self).max_sticky_slots) ==> final(self).sticky_slots.len()
                <= slot_limit(old(self).max_sticky_slots),
            slot_addrs(old(self).sticky_slots@, old(self).backends@).no_duplicates() ==> slot_addrs(
                final(self).sticky_slots@,
                final(self).backends@,
            ).no_duplicates(),
            forall|i: int|
                0 <= i < final(self).sticky_slots.len() ==> final(self).backends@[#[trigger] final(self).sticky_slots@[i].backend
                    as int].state != BackendState::Isolated,
            forall|i: int|
                0 <= i < final(self).sticky_slots.len() ==> since(
                    now_wall_ms,
                    #[trigger] final(self).sticky_slots@[i].last_access_ms,
                ) < STICKY_SLOT_TTL_MS,
            forall|i: int|
                0 <= i < final(self).sticky_slots.len() ==> old(self).sticky_slots@.contains(
                    #[trigger] final(self).sticky_slots@[i],
                ) || ((if primary {
                    old(self).primary@
                } else {
                    old(self).backup@
                }).contains(final(self).sticky_slots@[i].backend) && final(self).backends@[
                    final(self).sticky_slots@[i].backend as int
                ].selectable()),
    {
        let q = if primary {
            self.primary.clone()
        } else {
            self.backup.clone()
        };
        proof {
            assert forall|k: int| 0 <= k < q.len() implies #[trigger] q@[k] < self.backends.len() by {
                assert(self.queued(q@[k]));
            }
        }
        let ghost bs = self.backends@;
        let ghost alive = slot_alive(bs, now_wall_ms);
        // Drop the stale and isolated slots.
        let mut kept: Vec<StickySlot> = Vec::new();
        let mut i: usize = 0;
        while i < self.sticky_slots.len()
            invariant
                self.wf(),
                bs == self.backends@,
                alive == slot_alive(bs, now_wall_ms),
                self.sticky_slots@ == old(self).sticky_slots@,
                i <= self.sticky_slots.len(),
                kept@ == self.sticky_slots@.take(i as int).filter(alive),
                forall|k: int| 0 <= k < kept.len() ==> #[trigger] kept@[k].backend < self.backends.len(),
            decreases self.sticky_slots.len() - i,
        {
            let s = self.sticky_slots[i];
            proof {
                crate::seqs::lemma_filter_take_step(self.sticky_slots@, alive, i as int);
                assert(s.backend < self.backends.len());
            }
            let b = &self.backends[s.backend];
            if !b.is_isolated() && now_wall_ms.saturating_sub(s.last_access_ms) < STICKY_SLOT_TTL_MS {
                kept.push(s);
            }
            i = i + 1;
        }
        proof {
            assert(self.sticky_slots@.take(self.sticky_slots.len() as int) =~= self.sticky_slots@);
            crate::seqs::lemma_filter_facts(self.sticky_slots@, alive);
        }
        let ghost k0 = kept@;
        // The addresses in use.
        let mut used: Vec<SocketAddr> = Vec::new();
        let mut j: usize = 0;
        while j < kept.len()
            invariant
                j <= kept.len(),
                bs == self.backends@,
                forall|k: int| 0 <= k < kept.len() ==> #[trigger] kept@[k].backend < bs.len(),
                used@ =~= slot_addrs(kept@.take(j as int), bs),
            decreases kept.len() - j,
        {
            used.push(self.backends[kept[j].backend].addr);
            j = j + 1;
            proof {
                assert(kept@.take(j as int) =~= kept@.take(j - 1).push(kept@[j - 1]));
            }
        }
        proof {
            assert(kept@.take(kept.len() as int) =~= kept@);
        }
        // Move the slots whose interval has passed.
        let mut m: usize = 0;
        while m < kept.len()
            invariant
                self.wf(),
                bs == self.backends@,
                forall|k: int| 0 <= k < q.len() ==> #[trigger] q@[k] < self.backends.len(),
                m <= kept.len() == k0.len(),
                (kept@, used@) == ({
                    let r = switch_upto(k0, q@, bs, slot_addrs(k0, bs), now_mono_ms, m as nat);
                    (r.0, r.1)
                }),
                forall|k: int| m <= k < kept.len() ==> kept@[k] == k0[k],
                forall|k: int| 0 <= k < kept.len() ==> #[trigger] kept@[k].backend < bs.len(),
            decreases kept.len() - m,
        {
            let s = kept[m];
            if now_mono_ms.saturating_sub(s.last_switch_ms) >= s.interval_ms {
                match self.pick_unused_in(&q, &used) {
                    Some(b) => {
                        used.push(self.backends[b].addr);
                        kept.set(m, StickySlot { backend: b, last_switch_ms: now_mono_ms, ..s });
                    },
                    None => {},
                }
            }
            m = m + 1;
        }
        // Count the connections of the slots.
        let mut total: usize = 0;
        let mut t: usize = 0;
        while t < kept.len()
            invariant
                t <= kept.len(),
                bs == self.backends@,
                forall|k: int| 0 <= k < kept.len() ==> #[trigger] kept@[k].backend < bs.len(),
                total == slot_conns(kept@, bs, t as nat),
            decreases kept.len() - t,
        {
            total = total.wrapping_add(self.backends[kept[t].backend].connections);
            t = t + 1;
        }
        let len = kept.len();
        proof {
            assert(len <= old(self).sticky_slots.len()) by {
                crate::seqs::lemma_filter_facts(old(self).sticky_slots@, alive);
            }
        }
        proof {
            let l = len as u128;
            assert(l * l < 0x1_0000_0000_0000_0000_0000_0000_0000_0000) by (nonlinear_arith)
                requires
                    l < 0x1_0000_0000_0000_0000,
            ;
        }
        let crowded = (len as u128) * (len as u128) < total as u128;
        let expand = len == 0 || (len < self.max_sticky_slots && (now_wall_ms.saturating_sub(
            self.last_expand_ms,
        ) >= STICKY_SLOT_EXPAND_INTERVAL_MS || crowded));
        let ghost switched = kept@;
        if expand {
            let mut used2: Vec<SocketAddr> = Vec::new();
            let mut u: usize = 0;
            while u < kept.len()
                invariant
                    u <= kept.len(),
                    bs == self.backends@,
                    forall|k: int| 0 <= k < kept.len() ==> #[trigger] kept@[k].backend < bs.len(),
                    used2@ =~= slot_addrs(kept@.take(u as int), bs),
                decreases kept.len() - u,
            {
                used2.push(self.backends[kept[u].backend].addr);
                u = u + 1;
                proof {
                    assert(kept@.take(u as int) =~= kept@.take(u - 1).push(kept@[u - 1]));
                }
            }
            proof {
                assert(kept@.take(kept.len() as int) =~= kept@);
            }
            match self.pick_unused_in(&q, &used2) {
                Some(b) => {
                    proof {
                        let l = len as u128;
                        assert(l * 5 <= 0x5_0000_0000_0000_0000) by (nonlinear_arith)
                            requires
                                l < 0x1_0000_0000_0000_0000,
                        ;
                    }
                    let wide: u128 = ((STICKY_BASE_INTERVAL_SECS as u128) + (len as u128)
                        * (STICKY_INCREMENT_INTERVAL_SECS as u128)) * 1000;
                    let interval_ms: u64 = wide as u64;
                    kept.push(
                        StickySlot {
                            backend: b,
                            last_switch_ms: now_mono_ms,
                            last_access_ms: now_wall_ms,
                            interval_ms,
                        },
                    );
                    self.last_expand_ms = now_wall_ms;
                },
                None => {},
            }
        }
        self.sticky_slots = kept;
        proof {
            law_sticky_upkeep(
                old(self).sticky_slots@,
                old(self).last_expand_ms,
                old(self).max_sticky_slots,
                q@,
                bs,
                now_mono_ms,
                now_wall_ms,
            );
            assert forall|i: int| 0 <= i < self.sticky_slots.len() implies #[trigger] self.sticky_slots@[i].backend < self.backends.len() by {}
            assert forall|x: usize| #[trigger] self.queued(x) implies x < self.backends.len() && self.has_ip(self.backends@[x as int].addr.ip) by {
                assert(old(self).queued(x));
            }
            assert forall|a: usize, b: usize| self.queued(a) && self.queued(b) && a != b
                implies self.backends@[a as int].addr.ip != self.backends@[b as int].addr.ip by {
                assert(old(self).queued(a) && old(self).queued(b));
            }
        }
    }

    /// One tick of the sticky upkeep: over the primary queue when it has
    /// backends, else over the backup queue when it has any.
    pub fn sticky_tick(&mut self, now_mono_ms: u64, now_wall_ms: u64)
        requires
            old(self).wf(),
        ensures
            final(self).wf(),
            old(self).primary.len() > 0 ==> (final(self).sticky_slots@, final(self).last_expand_ms) == spec_maintain(
                old(self).sticky_slots@,
                old(self).last_expand_ms,
                old(self).max_sticky_slots,
                old(self).primary@,
                old(self).backends@,
                now_mono_ms,
                now_wall_ms,
            ),
            old(self).primary.len() == 0 && old(self).backup.len() > 0 ==> (final(self).sticky_slots@, final(self).last_expand_ms) == spec_maintain(
                old(self).sticky_slots@,
                old(self).last_expand_ms,
                old(self).max_sticky_slots,
                old(self).backup@,
                old(self).backends@,
                now_mono_ms,
                now_wall_ms,
            ),
            old(self).primary.len() == 0 && old(self).backup.len() == 0 ==> final(self).sticky_slots@ == old(self).sticky_slots@
                && final(self).last_expand_ms == old(self).last_expand_ms,
            final(self).backends@ == old(self).backends@,
            final(self).primary@ == old(self).primary@,
            final(self).backup@ == old(self).backup@,
            final(self).ip_set@ == old(self).ip_set@,
    {
        if self.primary.len() > 0 {
            self.maintain_sticky_slots(true, now_mono_ms, now_wall_ms);
        } else if self.backup.len() > 0 {
            self.maintain_sticky_slots(false, now_mono_ms, now_wall_ms);
        }
    }
}

} // verus!
