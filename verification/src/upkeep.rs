//! The balancer's upkeep: measurements recorded on backends, warming
//! backends turned active, removed backends cleared out, the worst primary
//! evicted for a backup, and the decisions of a health check.
//!
//! A backend's score is a real number; the caller ranks the primaries by
//! score and passes one key per primary, in queue order, that orders them
//! as their scores do.
use vstd::prelude::*;

use crate::backend::{Backend, BackendState, opt_view, usize_sub_wrap};
use crate::balancer::LoadBalancer;
use crate::config::{EVICT_THRESHOLD, SAMPLE_WINDOW};
use crate::seqs::{lemma_filter_facts, lemma_filter_take_step, lemma_push_no_dups, lemma_take_skip_no_dups};

verus! {

broadcast use vstd::seq_lib::group_seq_properties;

/// A change to one backend.
pub enum BackendOp {
    RecordDelay { sample_bits: u32, blended_bits: u32 },
    RecordLoss { sample_bits: u32, blended_bits: u32 },
    SetColo(Option<String>),
    Success,
    Failure,
    MarkActive(u64),
    MarkIsolated(u64),
    MarkRemoved(u64),
}

/// The sample count after one more sample, up to the window.
pub open spec fn bumped(c: usize) -> usize {
    crate::backend::next_sample_count(c)
}

/// A backend after a change.
pub open spec fn op_result(b: Backend, op: BackendOp) -> Backend {
    match op {
        BackendOp::RecordDelay { sample_bits, blended_bits } => Backend {
            sample_count: bumped(b.sample_count),
            avg_delay_bits: if b.sample_count == 0 {
                sample_bits
            } else {
                blended_bits
            },
            ..b
        },
        BackendOp::RecordLoss { sample_bits, blended_bits } => Backend {
            sample_count: bumped(b.sample_count),
            avg_loss_bits: if b.sample_count == 0 {
                sample_bits
            } else {
                blended_bits
            },
            ..b
        },
        BackendOp::SetColo(colo) => Backend { colo, ..b },
        BackendOp::Success => Backend { consecutive_failures: 0, ..b },
        BackendOp::Failure => Backend {
            consecutive_failures: if b.consecutive_failures == u32::MAX {
                0
            } else {
                (b.consecutive_failures + 1) as u32
            },
            ..b
        },
        BackendOp::MarkActive(t) => Backend {
            state: BackendState::Active,
            entered_state_at_ms: t,
            consecutive_failures: 0,
            ..b
        },
        BackendOp::MarkIsolated(t) => Backend {
            state: BackendState::Isolated,
            entered_state_at_ms: t,
            ..b
        },
        BackendOp::MarkRemoved(t) => Backend { state: BackendState::Removed, entered_state_at_ms: t, ..b },
    }
}

/// The queues and the backends, as one value.
pub struct Pools {
    pub backends: Seq<Backend>,
    pub primary: Seq<usize>,
    pub backup: Seq<usize>,
}

/// Whether backend `id` is not removed.
pub open spec fn not_removed(bs: Seq<Backend>) -> spec_fn(usize) -> bool {
    |id: usize| bs[id as int].state != BackendState::Removed
}

/// Whether backend `id` is at an address other than `ip`.
pub open spec fn not_at(bs: Seq<Backend>, ip: crate::net::IpAddr) -> spec_fn(usize) -> bool {
    |id: usize| bs[id as int].addr.ip != ip
}

/// Whether backend `id` may take traffic.
pub open spec fn is_selectable(bs: Seq<Backend>) -> spec_fn(usize) -> bool {
    |id: usize| bs[id as int].selectable()
}

/// The position in `q` of the worst of its first `n` backends that are not
/// removed: the one with the greatest key, the last of equals.
pub open spec fn worst_upto(q: Seq<usize>, bs: Seq<Backend>, keys: Seq<u64>, n: nat) -> Option<nat>
    decreases n,
{
    if n == 0 {
        None
    } else {
        let k = (n - 1) as nat;
        let r = worst_upto(q, bs, keys, k);
        if bs[q[k as int] as int].state == BackendState::Removed {
            r
        } else {
            match r {
                None => Some(k),
                Some(w) => if keys[k as int] >= keys[w as int] {
                    Some(k)
                } else {
                    Some(w)
                },
            }
        }
    }
}

/// Whether position `p` of the queue `q` holds the last of its backends
/// that are not removed with the greatest key, among the first `n`.
pub open spec fn last_greatest_key(q: Seq<usize>, bs: Seq<Backend>, keys: Seq<u64>, n: nat, p: int) -> bool {
    &&& 0 <= p < n
    &&& bs[q[p] as int].state != BackendState::Removed
    &&& forall|k: int|
        0 <= k < n && (#[trigger] bs[q[k] as int]).state != BackendState::Removed ==> keys[k] <= keys[p] && (p < k
            ==> keys[k] < keys[p])
}

/// The primary to evict: the position of the last backend that is not
/// removed with the greatest key (the worst score); none exactly when every
/// backend of the queue is removed.
pub proof fn law_worst_primary(q: Seq<usize>, bs: Seq<Backend>, keys: Seq<u64>)
    ensures
        worst_upto(q, bs, keys, q.len()) is None <==> forall|k: int|
            0 <= k < q.len() ==> (#[trigger] bs[q[k] as int]).state == BackendState::Removed,
        worst_upto(q, bs, keys, q.len()) matches Some(p) ==> last_greatest_key(q, bs, keys, q.len(), p as int),
{
    lemma_worst_upto(q, bs, keys, q.len());
}

/// The worst among the first `n`, as `law_worst_primary` says.
proof fn lemma_worst_upto(q: Seq<usize>, bs: Seq<Backend>, keys: Seq<u64>, n: nat)
    requires
        n <= q.len(),
    ensures
        worst_upto(q, bs, keys, n) is None <==> forall|k: int|
            0 <= k < n ==> (#[trigger] bs[q[k] as int]).state == BackendState::Removed,
        worst_upto(q, bs, keys, n) matches Some(p) ==> last_greatest_key(q, bs, keys, n, p as int),
    decreases n,
{
    if n > 0 {
        let m = (n - 1) as nat;
        lemma_worst_upto(q, bs, keys, m);
        if bs[q[m as int] as int].state != BackendState::Removed {
            match worst_upto(q, bs, keys, m) {
                None => {
                    assert(last_greatest_key(q, bs, keys, n, m as int)) by {
                        assert forall|k: int|
                            0 <= k < n && (#[trigger] bs[q[k] as int]).state != BackendState::Removed implies keys[k]
                                <= keys[m as int] && (m < k ==> keys[k] < keys[m as int]) by {
                            if k < m {
                                assert(bs[q[k] as int].state == BackendState::Removed);
                            }
                        }
                    }
                },
                Some(w) => {
                    if keys[m as int] >= keys[w as int] {
                        assert(last_greatest_key(q, bs, keys, n, m as int));
                    } else {
                        assert(last_greatest_key(q, bs, keys, n, w as int));
                    }
                },
            }
        }
    }
}

/// The queues after the worst primary is evicted: it is marked removed
/// and every removed backend leaves the primary queue; the first backup, if
/// any, is made active and joins the primary queue at its end.
pub open spec fn spec_evict(p: Pools, keys: Seq<u64>, now_ms: u64) -> Pools {
    match worst_upto(p.primary, p.backends, keys, p.primary.len()) {
        None => p,
        Some(pos) => {
            let w = p.primary[pos as int];
            let bs1 = p.backends.update(w as int, op_result(p.backends[w as int], BackendOp::MarkRemoved(now_ms)));
            let kept = p.primary.filter(not_removed(bs1));
            if p.backup.len() > 0 {
                let up = p.backup[0];
                Pools {
                    backends: bs1.update(up as int, op_result(bs1[up as int], BackendOp::MarkActive(now_ms))),
                    primary: kept.push(up),
                    backup: p.backup.skip(1),
                }
            } else {
                Pools { backends: bs1, primary: kept, backup: p.backup }
            }
        },
    }
}

/// The queues after backend `id` is isolated: when the primaries that may
/// take traffic would fall below `min_active`, the worst primary is evicted
/// first; then `id` is marked isolated.
pub open spec fn spec_isolate(p: Pools, id: usize, min_active: usize, keys: Seq<u64>, now_ms: u64) -> Pools {
    let active = p.primary.filter(is_selectable(p.backends)).len() as usize;
    let p1 = if usize_sub_wrap(active, 1) < min_active {
        spec_evict(p, keys, now_ms)
    } else {
        p
    };
    Pools {
        backends: p1.backends.update(id as int, op_result(p1.backends[id as int], BackendOp::MarkIsolated(now_ms))),
        ..p1
    }
}

/// The number of backups that a refill moves.
pub open spec fn refill_count(primary_len: nat, backup_len: nat, target: nat) -> nat {
    if primary_len >= target {
        0
    } else if target - primary_len < backup_len {
        (target - primary_len) as nat
    } else {
        backup_len
    }
}

/// The queues after a refill from the backups.
pub open spec fn spec_refill(p: Pools, target: usize) -> Pools {
    let k = refill_count(p.primary.len(), p.backup.len(), target as nat);
    Pools {
        backends: p.backends,
        primary: p.primary + p.backup.take(k as int),
        backup: p.backup.skip(k as int),
    }
}

/// What a health probe saw, as the balancer needs it: the data center did
/// not match the filter; a measurement, with whether the backend's means now
/// exceed the limits; or no answer, with whether its loss rate now exceeds
/// the limit.
#[derive(Clone, Copy, PartialEq, Eq, Debug, Structural)]
pub enum HealthObservation {
    ColoMismatch,
    Measured { over_limits: bool },
    NoResponse { loss_over_limit: bool },
}

/// Why a backend is removed.
#[derive(Clone, Copy, PartialEq, Eq, Debug, Structural)]
pub enum RemoveReason {
    ColoMismatch,
    Underperforming,
    Unresponsive,
}

/// What a health check does to a backend.
#[derive(Clone, Copy, PartialEq, Eq, Debug, Structural)]
pub enum HealthAction {
    Nothing,
    Recover,
    Isolate,
    Remove(RemoveReason),
}

/// The decision of a health check on a backend, after the probe's
/// measurements are recorded: only a backend with a full window of samples
/// is judged; a primary that fails is isolated, a backup removed; a
/// backend without answers fails on its loss rate or after three failures in
/// a row.
pub open spec fn spec_health_action(b: Backend, obs: HealthObservation, is_primary: bool) -> HealthAction {
    match obs {
        HealthObservation::ColoMismatch => HealthAction::Remove(RemoveReason::ColoMismatch),
        HealthObservation::Measured { over_limits } => if b.sample_count < SAMPLE_WINDOW {
            HealthAction::Nothing
        } else if over_limits {
            if is_primary {
                HealthAction::Isolate
            } else {
                HealthAction::Remove(RemoveReason::Underperforming)
            }
        } else {
            HealthAction::Recover
        },
        HealthObservation::NoResponse { loss_over_limit } => {
            let over = loss_over_limit || b.consecutive_failures >= 3;
            if b.sample_count >= SAMPLE_WINDOW && over {
                if is_primary {
                    HealthAction::Isolate
                } else {
                    HealthAction::Remove(RemoveReason::Unresponsive)
                }
            } else {
                HealthAction::Nothing
            }
        },
    }
}

/// What a health check decides: a data-center mismatch removes the backend
/// whatever its samples; otherwise a backend with fewer than a window (50)
/// of samples is left alone; with a full window, a measurement over the
/// limits, or a missed answer with the loss rate over its limit or three
/// failures in a row, isolates a primary and removes a backup (for the
/// cause seen), a measurement within the limits recovers the backend, and
/// a missed answer short of those leaves it alone.
pub proof fn law_health_action(b: Backend, obs: HealthObservation, is_primary: bool)
    ensures
        obs is ColoMismatch ==> spec_health_action(b, obs, is_primary) == HealthAction::Remove(
            RemoveReason::ColoMismatch,
        ),
        !(obs is ColoMismatch) && b.sample_count < 50 ==> spec_health_action(b, obs, is_primary)
            == HealthAction::Nothing,
        b.sample_count >= 50 ==> (obs matches HealthObservation::Measured { over_limits } ==> spec_health_action(
            b,
            obs,
            is_primary,
        ) == if !over_limits {
            HealthAction::Recover
        } else if is_primary {
            HealthAction::Isolate
        } else {
            HealthAction::Remove(RemoveReason::Underperforming)
        }),
        b.sample_count >= 50 ==> (obs matches HealthObservation::NoResponse { loss_over_limit } ==> spec_health_action(
            b,
            obs,
            is_primary,
        ) == if !(loss_over_limit || b.consecutive_failures >= 3) {
            HealthAction::Nothing
        } else if is_primary {
            HealthAction::Isolate
        } else {
            HealthAction::Remove(RemoveReason::Unresponsive)
        }),
{
}

/// The queues after a health check's decision on backend `id`: isolation;
/// removal, refilling the primary queue when `id` is a primary; recovery,
/// which clears the failure streak and makes an isolated backend active.
pub open spec fn spec_apply_health(
    p: Pools,
    id: usize,
    action: HealthAction,
    is_primary: bool,
    min_active: usize,
    target: usize,
    keys: Seq<u64>,
    now_ms: u64,
) -> Pools {
    match action {
        HealthAction::Isolate => spec_isolate(p, id, min_active, keys, now_ms),
        HealthAction::Remove(_) => {
            let p1 = Pools {
                backends: p.backends.update(id as int, op_result(p.backends[id as int], BackendOp::MarkRemoved(now_ms))),
                ..p
            };
            if is_primary {
                spec_refill(p1, target)
            } else {
                p1
            }
        },
        HealthAction::Recover => {
            let b1 = op_result(p.backends[id as int], BackendOp::Success);
            let b2 = if b1.state == BackendState::Isolated {
                op_result(b1, BackendOp::MarkActive(now_ms))
            } else {
                b1
            };
            Pools { backends: p.backends.update(id as int, b2), ..p }
        },
        HealthAction::Nothing => p,
    }
}

impl LoadBalancer {
    /// The queues and backends of this balancer.
    pub open spec fn pools(self) -> Pools {
        Pools { backends: self.backends@, primary: self.primary@, backup: self.backup@ }
    }

    /// The backend `id`.
    pub fn backend(&self, id: usize) -> (r: &Backend)
        requires
            id < self.backends.len(),
        ensures
            *r == self.backends@[id as int],
    {
        &self.backends[id]
    }

    /// Applies a change to backend `id`.
    pub fn apply_op(&mut self, id: usize, op: BackendOp)
        requires
            old(self).wf(),
            id < old(self).backends.len(),
        ensures
            final(self).wf(),
            final(self).backends@ == old(self).backends@.update(id as int, op_result(old(self).backends@[id as int], op)),
            final(self).primary@ == old(self).primary@,
            final(self).backup@ == old(self).backup@,
            final(self).ip_set@ == old(self).ip_set@,
            final(self).sticky_slots@ == old(self).sticky_slots@,
            final(self).primary_index == old(self).primary_index,
            final(self).primary_target == old(self).primary_target,
            final(self).backup_target == old(self).backup_target,
            final(self).min_active_target == old(self).min_active_target,
    {
        let mut b = self.backends.remove(id);
        let ghost b0 = b;
        let ghost op_g = op;
        match op {
            BackendOp::RecordDelay { sample_bits, blended_bits } => {
                b.record_delay(sample_bits, blended_bits);
            },
            BackendOp::RecordLoss { sample_bits, blended_bits } => {
                b.record_loss(sample_bits, blended_bits);
            },
            BackendOp::SetColo(colo) => {
                b.set_colo(colo);
            },
            BackendOp::Success => {
                b.record_success();
            },
            BackendOp::Failure => {
                b.record_failure();
            },
            BackendOp::MarkActive(t) => {
                b.mark_active(t);
            },
            BackendOp::MarkIsolated(t) => {
                b.mark_isolated(t);
            },
            BackendOp::MarkRemoved(t) => {
                b.mark_removed(t);
            },
        }
        proof {
            assert(b == op_result(b0, op_g));
        }
        self.backends.insert(id, b);
        proof {
            assert(self.backends@ =~= old(self).backends@.update(id as int, op_result(old(self).backends@[id as int], op_g)));
            self.lemma_wf_conns_only(*old(self));
        }
    }

    /// Records a delay sample on backend `id`: the caller gives the bit
    /// patterns of the sample and of its blend into the mean. Gives whether it
    /// was the first sample.
    pub fn record_delay(&mut self, id: usize, sample_bits: u32, blended_bits: u32) -> (is_first: bool)
        requires
            old(self).wf(),
            id < old(self).backends.len(),
        ensures
            final(self).wf(),
            is_first == (old(self).backends@[id as int].sample_count == 0),
            final(self).backends@ == old(self).backends@.update(id as int, op_result(old(self).backends@[id as int], BackendOp::RecordDelay { sample_bits, blended_bits })),
            final(self).primary@ == old(self).primary@,
            final(self).backup@ == old(self).backup@,
            final(self).ip_set@ == old(self).ip_set@,
            final(self).sticky_slots@ == old(self).sticky_slots@,
    {
        let is_first = self.backends[id].sample_count == 0;
        self.apply_op(id, BackendOp::RecordDelay { sample_bits, blended_bits });
        is_first
    }

    /// Records a loss sample on backend `id`, like `record_delay`.
    pub fn record_loss(&mut self, id: usize, sample_bits: u32, blended_bits: u32) -> (is_first: bool)
        requires
            old(self).wf(),
            id < old(self).backends.len(),
        ensures
            final(self).wf(),
            is_first == (old(self).backends@[id as int].sample_count == 0),
            final(self).backends@ == old(self).backends@.update(id as int, op_result(old(self).backends@[id as int], BackendOp::RecordLoss { sample_bits, blended_bits })),
            final(self).primary@ == old(self).primary@,
            final(self).backup@ == old(self).backup@,
            final(self).ip_set@ == old(self).ip_set@,
            final(self).sticky_slots@ == old(self).sticky_slots@,
    {
        let is_first = self.backends[id].sample_count == 0;
        self.apply_op(id, BackendOp::RecordLoss { sample_bits, blended_bits });
        is_first
    }

    /// Turns every warming backend of the primary (or backup) queue whose
    /// warming period has passed active.
    pub fn check_warming_backends(&mut self, primary: bool, now_ms: u64)
        requires
            old(self).wf(),
        ensures
            final(self).wf(),
            final(self).backends@.len() == old(self).backends@.len(),
            forall|k: int| 0 <= k < old(self).backends@.len() ==> #[trigger] final(self).backends@[k] == (
                if (if primary {
                    old(self).primary@
                } else {
                    old(self).backup@
                }).contains(k as usize) && old(self).backends@[k].warming_expired(now_ms) {
                    op_result(old(self).backends@[k], BackendOp::MarkActive(now_ms))
                } else {
                    old(self).backends@[k]
                }),
            final(self).primary@ == old(self).primary@,
            final(self).backup@ == old(self).backup@,
            final(self).ip_set@ == old(self).ip_set@,
            final(self).sticky_slots@ == old(self).sticky_slots@,
            final(self).primary_index == old(self).primary_index,
            final(self).primary_target == old(self).primary_target,
            final(self).backup_target == old(self).backup_target,
            final(self).min_active_target == old(self).min_active_target,
    {
        let q = if primary {
            self.primary.clone()
        } else {
            self.backup.clone()
        };
        let ghost bs0 = self.backends@;
        let mut i: usize = 0;
        while i < q.len()
            invariant
                self.wf(),
                i <= q.len(),
                q@ == (if primary {
                    old(self).primary@
                } else {
                    old(self).backup@
                }),
                q@.no_duplicates(),
                forall|x: usize| q@.contains(x) ==> self.queued(x),
                bs0 == old(self).backends@,
                self.backends@.len() == bs0.len(),
                forall|k: int| 0 <= k < bs0.len() ==> #[trigger] self.backends@[k] == (if q@.take(i as int).contains(k as usize) && bs0[k].warming_expired(now_ms) {
                    op_result(bs0[k], BackendOp::MarkActive(now_ms))
                } else {
                    bs0[k]
                }),
                self.primary@ == old(self).primary@,
                self.backup@ == old(self).backup@,
                self.ip_set@ == old(self).ip_set@,
                self.sticky_slots@ == old(self).sticky_slots@,
                self.primary_index == old(self).primary_index,
                self.primary_target == old(self).primary_target,
                self.backup_target == old(self).backup_target,
                self.min_active_target == old(self).min_active_target,
            decreases q.len() - i,
        {
            let id = q[i];
            proof {
                assert(q@.contains(id));
                assert(self.queued(id));
                assert(!q@.take(i as int).contains(id)) by {
                    if q@.take(i as int).contains(id) {
                        let j = choose|j: int| 0 <= j < i && q@.take(i as int)[j] == id;
                        assert(q@[j] == q@[i as int]);
                    }
                }
                assert(self.backends@[id as int] == bs0[id as int]);
            }
            if self.backends[id].check_warming_expired(now_ms) {
                self.apply_op(id, BackendOp::MarkActive(now_ms));
            }
            i = i + 1;
            proof {
                assert forall|x: usize| #[trigger] q@.take(i as int).contains(x) <==> (q@.take(i - 1).contains(x) || x == id) by {
                    assert(q@.take(i as int) =~= q@.take(i - 1).push(id));
                }
            }
        }
        proof {
            assert(q@.take(q.len() as int) =~= q@);
        }
    }

    /// Whether `ip` is the address of a queued backend that is removed.
    pub open spec fn removed_ip(self, ip: crate::net::IpAddr) -> bool {
        exists|id: usize| #[trigger] self.queued(id) && self.backends@[id as int].state == BackendState::Removed
            && self.backends@[id as int].addr.ip == ip
    }

    /// A balancer whose queues hold a subset of a well-formed one's, without
    /// duplicates or overlap, over backends with the same addresses, is
    /// well-formed.
    pub(crate) proof fn lemma_wf_sub(self, old_self: LoadBalancer)
        requires
            old_self.wf(),
            self.backends@.len() == old_self.backends@.len(),
            forall|k: int| 0 <= k < self.backends@.len() ==> (#[trigger] self.backends@[k]).addr == old_self.backends@[k].addr,
            self.ip_set@ == old_self.ip_set@,
            self.sticky_slots.len() == old_self.sticky_slots.len(),
            forall|k: int| 0 <= k < self.sticky_slots.len() ==> (#[trigger] self.sticky_slots@[k]).backend == old_self.sticky_slots@[k].backend,
            self.primary@.no_duplicates(),
            self.backup@.no_duplicates(),
            forall|x: usize| #[trigger] self.queued(x) ==> old_self.queued(x),
            forall|x: usize| #[trigger] self.primary@.contains(x) ==> !self.backup@.contains(x),
        ensures
            self.wf(),
    {
        assert forall|i: int| 0 <= i < self.sticky_slots.len() implies #[trigger] self.sticky_slots@[i].backend < self.backends.len() by {
            assert(old_self.sticky_slots@[i].backend < old_self.backends.len());
        }
        assert forall|x: usize| #[trigger] self.queued(x) implies x < self.backends.len() && self.has_ip(self.backends@[x as int].addr.ip) by {
            assert(old_self.queued(x));
            assert(old_self.has_ip(old_self.backends@[x as int].addr.ip));
        }
        assert forall|a: usize, b: usize| self.queued(a) && self.queued(b) && a != b
            implies self.backends@[a as int].addr.ip != self.backends@[b as int].addr.ip by {
            assert(old_self.queued(a) && old_self.queued(b));
        }
    }

    /// The ids of `q` whose backends are not removed; the addresses of those
    /// that are removed are added to `removed_ips`.
    fn keep_unremoved(&self, q: &Vec<usize>, removed_ips: &mut Vec<crate::net::IpAddr>) -> (kept: Vec<usize>)
        requires
            self.wf(),
            forall|x: usize| q@.contains(x) ==> self.queued(x),
        ensures
            kept@ == q@.filter(not_removed(self.backends@)),
            forall|ip: crate::net::IpAddr| #[trigger] final(removed_ips)@.contains(ip) <==> (old(removed_ips)@.contains(ip)
                || exists|j: int| 0 <= j < q@.len() && self.backends@[q@[j] as int].state == BackendState::Removed
                    && self.backends@[q@[j] as int].addr.ip == ip),
    {
        let ghost pred = not_removed(self.backends@);
        let mut kept: Vec<usize> = Vec::new();
        let mut i: usize = 0;
        while i < q.len()
            invariant
                self.wf(),
                forall|x: usize| q@.contains(x) ==> self.queued(x),
                i <= q.len(),
                pred == not_removed(self.backends@),
                kept@ == q@.take(i as int).filter(pred),
                forall|ip: crate::net::IpAddr| #[trigger] removed_ips@.contains(ip) <==> (old(removed_ips)@.contains(ip)
                    || exists|j: int| 0 <= j < i && self.backends@[q@[j] as int].state == BackendState::Removed
                        && self.backends@[q@[j] as int].addr.ip == ip),
            decreases q.len() - i,
        {
            let id = q[i];
            proof {
                assert(q@.contains(id));
                assert(self.queued(id));
                lemma_filter_take_step(q@, pred, i as int);
            }
            let ghost before = removed_ips@;
            if self.backends[id].is_removed() {
                removed_ips.push(self.backends[id].addr.ip);
            } else {
                kept.push(id);
            }
            i = i + 1;
            proof {
                assert forall|ip: crate::net::IpAddr| #[trigger] removed_ips@.contains(ip) <==> (old(removed_ips)@.contains(ip)
                    || exists|j: int| 0 <= j < i && self.backends@[q@[j] as int].state == BackendState::Removed
                        && self.backends@[q@[j] as int].addr.ip == ip) by {
                    if exists|j: int| 0 <= j < i && self.backends@[q@[j] as int].state == BackendState::Removed
                        && self.backends@[q@[j] as int].addr.ip == ip {
                        let j = choose|j: int| 0 <= j < i && self.backends@[q@[j] as int].state == BackendState::Removed
                            && self.backends@[q@[j] as int].addr.ip == ip;
                        if j == i - 1 {
                            assert(removed_ips@.last() == ip);
                        } else {
                            assert(before.contains(ip));
                        }
                    }
                }
            }
        }
        proof {
            assert(q@.take(q.len() as int) =~= q@);
        }
        kept
    }

    /// Drops every removed backend from both queues and frees their addresses.
    /// Gives how many left the queues; when any did, the prober is told to
    /// resume.
    pub fn cleanup_removed(&mut self) -> (removed: usize)
        requires
            old(self).wf(),
        ensures
            final(self).wf(),
            final(self).primary@ == old(self).primary@.filter(not_removed(old(self).backends@)),
            final(self).backup@ == old(self).backup@.filter(not_removed(old(self).backends@)),
            final(self).ip_set@ == old(self).ip_set@.filter(|ip: crate::net::IpAddr| !old(self).removed_ip(ip)),
            removed == crate::backend::usize_add_wrap(
                (old(self).primary@.len() - final(self).primary@.len()) as usize,
                (old(self).backup@.len() - final(self).backup@.len()) as usize,
            ),
            final(self).backends@ == old(self).backends@,
            final(self).sticky_slots@ == old(self).sticky_slots@,
            final(self).primary_index == old(self).primary_index,
            final(self).primary_target == old(self).primary_target,
            final(self).backup_target == old(self).backup_target,
            final(self).min_active_target == old(self).min_active_target,
    {
        let ghost old_self = *self;
        let mut removed_ips: Vec<crate::net::IpAddr> = Vec::new();
        let p = self.primary.clone();
        let b = self.backup.clone();
        proof {
            assert forall|x: usize| p@.contains(x) implies self.queued(x) by {}
            assert forall|x: usize| b@.contains(x) implies self.queued(x) by {}
        }
        let kept_p = self.keep_unremoved(&p, &mut removed_ips);
        let kept_b = self.keep_unremoved(&b, &mut removed_ips);
        proof {
            assert forall|ip: crate::net::IpAddr| #[trigger] removed_ips@.contains(ip) <==> old_self.removed_ip(ip) by {
                if removed_ips@.contains(ip) {
                    if exists|j: int| 0 <= j < p@.len() && self.backends@[p@[j] as int].state == BackendState::Removed
                        && self.backends@[p@[j] as int].addr.ip == ip {
                        let j = choose|j: int| 0 <= j < p@.len() && self.backends@[p@[j] as int].state == BackendState::Removed
                            && self.backends@[p@[j] as int].addr.ip == ip;
                        assert(old_self.queued(p@[j]));
                    } else {
                        let j = choose|j: int| 0 <= j < b@.len() && self.backends@[b@[j] as int].state == BackendState::Removed
                            && self.backends@[b@[j] as int].addr.ip == ip;
                        assert(old_self.queued(b@[j]));
                    }
                }
                if old_self.removed_ip(ip) {
                    let id = choose|id: usize| #[trigger] old_self.queued(id) && old_self.backends@[id as int].state == BackendState::Removed
                        && old_self.backends@[id as int].addr.ip == ip;
                    if p@.contains(id) {
                        let j = choose|j: int| 0 <= j < p@.len() && p@[j] == id;
                        assert(self.backends@[p@[j] as int].addr.ip == ip);
                    } else {
                        let j = choose|j: int| 0 <= j < b@.len() && b@[j] == id;
                        assert(self.backends@[b@[j] as int].addr.ip == ip);
                    }
                }
            }
        }
        let ghost ippred = |ip: crate::net::IpAddr| !old_self.removed_ip(ip);
        let mut new_ips: Vec<crate::net::IpAddr> = Vec::new();
        let mut i: usize = 0;
        while i < self.ip_set.len()
            invariant
                i <= self.ip_set.len(),
                self.ip_set@ == old_self.ip_set@,
                ippred == (|ip: crate::net::IpAddr| !old_self.removed_ip(ip)),
                forall|ip: crate::net::IpAddr| #[trigger] removed_ips@.contains(ip) <==> old_self.removed_ip(ip),
                new_ips@ == self.ip_set@.take(i as int).filter(ippred),
            decreases self.ip_set.len() - i,
        {
            let ip = self.ip_set[i];
            proof {
                lemma_filter_take_step(self.ip_set@, ippred, i as int);
            }
            let mut found = false;
            let mut k: usize = 0;
            while k < removed_ips.len()
                invariant
                    k <= removed_ips.len(),
                    found <==> exists|j: int| 0 <= j < k && removed_ips@[j] == ip,
                decreases removed_ips.len() - k,
            {
                if removed_ips[k] == ip {
                    found = true;
                }
                k = k + 1;
            }
            proof {
                assert(found <==> removed_ips@.contains(ip));
            }
            if !found {
                new_ips.push(ip);
            }
            i = i + 1;
        }
        proof {
            assert(self.ip_set@.take(self.ip_set.len() as int) =~= self.ip_set@);
            lemma_filter_facts(old_self.primary@, not_removed(old_self.backends@));
            lemma_filter_facts(old_self.backup@, not_removed(old_self.backends@));
            lemma_filter_facts(old_self.ip_set@, ippred);
        }
        let removed = (self.primary.len() - kept_p.len()).wrapping_add(self.backup.len() - kept_b.len());
        self.primary = kept_p;
        self.backup = kept_b;
        self.ip_set = new_ips;
        proof {
            assert forall|x: usize| #[trigger] self.queued(x) implies old_self.queued(x) by {}
            assert forall|x: usize| #[trigger] self.primary@.contains(x) implies !self.backup@.contains(x) by {
                assert(old_self.primary@.contains(x));
            }
            assert forall|x: usize| #[trigger] self.queued(x) implies self.has_ip(self.backends@[x as int].addr.ip) by {
                assert(old_self.queued(x));
                let ip = self.backends@[x as int].addr.ip;
                assert(old_self.has_ip(ip));
                assert(!old_self.removed_ip(ip)) by {
                    if old_self.removed_ip(ip) {
                        let y = choose|y: usize| #[trigger] old_self.queued(y) && old_self.backends@[y as int].state == BackendState::Removed
                            && old_self.backends@[y as int].addr.ip == ip;
                        assert(old_self.backends@[x as int].state != BackendState::Removed);
                        assert(x != y);
                    }
                }
            }
            assert forall|x: usize| #[trigger] self.queued(x) implies x < self.backends.len() by {
                assert(old_self.queued(x));
            }
            assert forall|a: usize, b: usize| self.queued(a) && self.queued(b) && a != b
                implies self.backends@[a as int].addr.ip != self.backends@[b as int].addr.ip by {
                assert(old_self.queued(a) && old_self.queued(b));
            }
        }
        removed
    }

    /// The ids of `q` whose backends are not at `ip`.
    fn keep_not_at(&self, q: &Vec<usize>, ip: crate::net::IpAddr) -> (kept: Vec<usize>)
        requires
            forall|x: usize| q@.contains(x) ==> x < self.backends.len(),
        ensures
            kept@ == q@.filter(not_at(self.backends@, ip)),
    {
        let ghost pred = not_at(self.backends@, ip);
        let mut kept: Vec<usize> = Vec::new();
        let mut i: usize = 0;
        while i < q.len()
            invariant
                forall|x: usize| q@.contains(x) ==> x < self.backends.len(),
                i <= q.len(),
                pred == not_at(self.backends@, ip),
                kept@ == q@.take(i as int).filter(pred),
            decreases q.len() - i,
        {
            let id = q[i];
            proof {
                assert(q@.contains(id));
                lemma_filter_take_step(q@, pred, i as int);
            }
            if self.backends[id].addr.ip != ip {
                kept.push(id);
            }
            i = i + 1;
        }
        proof {
            assert(q@.take(q.len() as int) =~= q@);
        }
        kept
    }

    /// Takes every backend at `ip` out of both queues and frees the address.
    /// The prober is told to resume.
    pub fn remove_backend(&mut self, ip: crate::net::IpAddr)
        requires
            old(self).wf(),
        ensures
            final(self).wf(),
            final(self).primary@ == old(self).primary@.filter(not_at(old(self).backends@, ip)),
            final(self).backup@ == old(self).backup@.filter(not_at(old(self).backends@, ip)),
            final(self).ip_set@ == old(self).ip_set@.filter(|x: crate::net::IpAddr| x != ip),
            !final(self).has_ip(ip),
            final(self).backends@ == old(self).backends@,
            final(self).sticky_slots@ == old(self).sticky_slots@,
            final(self).primary_target == old(self).primary_target,
            final(self).backup_target == old(self).backup_target,
    {
        let ghost old_self = *self;
        let p = self.primary.clone();
        let b = self.backup.clone();
        proof {
            assert forall|x: usize| p@.contains(x) implies x < self.backends.len() by {
                assert(self.queued(x));
            }
            assert forall|x: usize| b@.contains(x) implies x < self.backends.len() by {
                assert(self.queued(x));
            }
        }
        let kept_p = self.keep_not_at(&p, ip);
        let kept_b = self.keep_not_at(&b, ip);
        let ghost ippred = |x: crate::net::IpAddr| x != ip;
        let mut new_ips: Vec<crate::net::IpAddr> = Vec::new();
        let mut i: usize = 0;
        while i < self.ip_set.len()
            invariant
                i <= self.ip_set.len(),
                self.ip_set@ == old_self.ip_set@,
                ippred == (|x: crate::net::IpAddr| x != ip),
                new_ips@ == self.ip_set@.take(i as int).filter(ippred),
            decreases self.ip_set.len() - i,
        {
            proof {
                lemma_filter_take_step(self.ip_set@, ippred, i as int);
            }
            if self.ip_set[i] != ip {
                new_ips.push(self.ip_set[i]);
            }
            i = i + 1;
        }
        proof {
            assert(self.ip_set@.take(self.ip_set.len() as int) =~= self.ip_set@);
            lemma_filter_facts(old_self.primary@, not_at(old_self.backends@, ip));
            lemma_filter_facts(old_self.backup@, not_at(old_self.backends@, ip));
            lemma_filter_facts(old_self.ip_set@, ippred);
        }
        self.primary = kept_p;
        self.backup = kept_b;
        self.ip_set = new_ips;
        proof {
            assert forall|x: usize| #[trigger] self.queued(x) implies old_self.queued(x) by {}
            assert forall|x: usize| #[trigger] self.primary@.contains(x) implies !self.backup@.contains(x) by {
                assert(old_self.primary@.contains(x));
            }
            assert forall|x: usize| #[trigger] self.queued(x) implies self.has_ip(self.backends@[x as int].addr.ip) by {
                assert(old_self.queued(x));
                assert(old_self.has_ip(self.backends@[x as int].addr.ip));
            }
            assert forall|x: usize| #[trigger] self.queued(x) implies x < self.backends.len() by {
                assert(old_self.queued(x));
            }
            assert forall|a: usize, c: usize| self.queued(a) && self.queued(c) && a != c
                implies self.backends@[a as int].addr.ip != self.backends@[c as int].addr.ip by {
                assert(old_self.queued(a) && old_self.queued(c));
            }
        }
    }

    /// The position of the worst primary, as `worst_upto` says of the whole
    /// queue.
    pub fn worst_primary(&self, keys: &Vec<u64>) -> (r: Option<usize>)
        requires
            self.wf(),
            keys.len() == self.primary.len(),
        ensures
            match r {
                Some(pos) => worst_upto(self.primary@, self.backends@, keys@, self.primary@.len()) == Some(pos as nat) && pos < self.primary.len(),
                None => worst_upto(self.primary@, self.backends@, keys@, self.primary@.len()) is None,
            },
    {
        let mut best: Option<usize> = None;
        let mut i: usize = 0;
        while i < self.primary.len()
            invariant
                self.wf(),
                keys.len() == self.primary.len(),
                i <= self.primary.len(),
                match best {
                    Some(pos) => worst_upto(self.primary@, self.backends@, keys@, i as nat) == Some(pos as nat) && pos < i,
                    None => worst_upto(self.primary@, self.backends@, keys@, i as nat) is None,
                },
            decreases self.primary.len() - i,
        {
            let id = self.primary[i];
            proof {
                assert(self.queued(id));
            }
            if !self.backends[id].is_removed() {
                best = match best {
                    None => Some(i),
                    Some(w) => if keys[i] >= keys[w] {
                        Some(i)
                    } else {
                        Some(w)
                    },
                };
            }
            i = i + 1;
        }
        best
    }

    /// Evicts the worst primary, as `spec_evict` says; gives the evicted id.
    /// The prober is told to resume in any case.
    pub fn evict_worst_and_refill(&mut self, keys: &Vec<u64>, now_ms: u64) -> (r: Option<usize>)
        requires
            old(self).wf(),
            keys.len() == old(self).primary.len(),
        ensures
            final(self).wf(),
            final(self).pools() == spec_evict(old(self).pools(), keys@, now_ms),
            final(self).backends@.len() == old(self).backends@.len(),
            match worst_upto(old(self).primary@, old(self).backends@, keys@, old(self).primary@.len()) {
                Some(pos) => r == Some(old(self).primary@[pos as int]),
                None => r is None,
            },
            final(self).ip_set@ == old(self).ip_set@,
            final(self).sticky_slots@ == old(self).sticky_slots@,
            final(self).primary_index == old(self).primary_index,
            final(self).primary_target == old(self).primary_target,
            final(self).backup_target == old(self).backup_target,
            final(self).min_active_target == old(self).min_active_target,
    {
        let ghost p0 = self.pools();
        let pos = match self.worst_primary(keys) {
            None => return None,
            Some(pos) => pos,
        };
        let w = self.primary[pos];
        proof {
            assert(self.queued(w));
        }
        self.apply_op(w, BackendOp::MarkRemoved(now_ms));
        let ghost bs1 = self.backends@;
        let ghost s1 = *self;
        let p = self.primary.clone();
        let mut dropped: Vec<crate::net::IpAddr> = Vec::new();
        proof {
            assert forall|x: usize| p@.contains(x) implies self.queued(x) by {}
        }
        let kept = self.keep_unremoved(&p, &mut dropped);
        self.primary = kept;
        proof {
            lemma_filter_facts(p@, not_removed(bs1));
            assert forall|x: usize| #[trigger] self.primary@.contains(x) implies !self.backup@.contains(x) by {
                assert(s1.primary@.contains(x));
            }
            assert forall|x: usize| #[trigger] self.queued(x) implies s1.queued(x) by {}
            self.lemma_wf_sub(s1);
        }
        if self.backup.len() > 0 {
            let ghost s2 = *self;
            let up = self.backup.remove(0);
            proof {
                assert(s2.queued(up));
                assert(self.backup@ == s2.backup@.skip(1));
                lemma_take_skip_no_dups(s2.backup@, 1);
                assert(s2.backup@.take(1).contains(up)) by {
                    assert(s2.backup@.take(1)[0] == up);
                }
                assert forall|x: usize| #[trigger] self.queued(x) implies s2.queued(x) by {}
                assert forall|x: usize| #[trigger] self.primary@.contains(x) implies !self.backup@.contains(x) by {}
                self.lemma_wf_sub(s2);
            }
            self.apply_op(up, BackendOp::MarkActive(now_ms));
            let ghost s3 = *self;
            proof {
                assert(!s3.primary@.contains(up));
                assert(!s3.backup@.contains(up));
                lemma_push_no_dups(s3.primary@, up);
            }
            self.primary.push(up);
            proof {
                assert forall|x: usize| #[trigger] self.queued(x) implies s2.queued(x) by {}
                assert forall|x: usize| #[trigger] self.primary@.contains(x) implies !self.backup@.contains(x) by {}
                self.lemma_wf_sub(s2);
                assert(self.pools().backends =~= spec_evict(p0, keys@, now_ms).backends);
            }
        }
        Some(w)
    }

    /// Isolates backend `id`, as `spec_isolate` says.
    pub fn isolate_backend(&mut self, id: usize, keys: &Vec<u64>, now_ms: u64)
        requires
            old(self).wf(),
            id < old(self).backends.len(),
            keys.len() == old(self).primary.len(),
        ensures
            final(self).wf(),
            final(self).pools() == spec_isolate(old(self).pools(), id, old(self).min_active_target, keys@, now_ms),
            final(self).backends@.len() == old(self).backends@.len(),
            final(self).ip_set@ == old(self).ip_set@,
            final(self).sticky_slots@ == old(self).sticky_slots@,
            final(self).primary_target == old(self).primary_target,
            final(self).backup_target == old(self).backup_target,
            final(self).min_active_target == old(self).min_active_target,
    {
        let active = self.count_active();
        if active.wrapping_sub(1) < self.min_active_target {
            self.evict_worst_and_refill(keys, now_ms);
        }
        self.apply_op(id, BackendOp::MarkIsolated(now_ms));
    }

    /// Judges backend `id` after a forwarded connection: with enough samples
    /// and a mean over the limits (`over_limits`, which the caller compares),
    /// the backend is isolated. Gives whether it was.
    pub fn check_and_evict(&mut self, id: usize, over_limits: bool, keys: &Vec<u64>, now_ms: u64) -> (r: bool)
        requires
            old(self).wf(),
            id < old(self).backends.len(),
            keys.len() == old(self).primary.len(),
        ensures
            final(self).wf(),
            r == (old(self).backends@[id as int].sample_count >= EVICT_THRESHOLD && over_limits),
            r ==> final(self).pools() == spec_isolate(old(self).pools(), id, old(self).min_active_target, keys@, now_ms),
            !r ==> final(self).pools() == old(self).pools(),
            final(self).ip_set@ == old(self).ip_set@,
            final(self).sticky_slots@ == old(self).sticky_slots@,
            final(self).primary_target == old(self).primary_target,
            final(self).backup_target == old(self).backup_target,
            final(self).min_active_target == old(self).min_active_target,
    {
        if self.backends[id].get_sample_count() < EVICT_THRESHOLD {
            return false;
        }
        if over_limits {
            self.isolate_backend(id, keys, now_ms);
            true
        } else {
            false
        }
    }

    /// The decision of a health check on backend `id`, as
    /// `spec_health_action` says.
    pub fn health_action(&self, id: usize, obs: HealthObservation, is_primary: bool) -> (r: HealthAction)
        requires
            id < self.backends.len(),
        ensures
            r == spec_health_action(self.backends@[id as int], obs, is_primary),
    {
        let b = &self.backends[id];
        match obs {
            HealthObservation::ColoMismatch => HealthAction::Remove(RemoveReason::ColoMismatch),
            HealthObservation::Measured { over_limits } => {
                if b.sample_count < SAMPLE_WINDOW {
                    HealthAction::Nothing
                } else if over_limits {
                    if is_primary {
                        HealthAction::Isolate
                    } else {
                        HealthAction::Remove(RemoveReason::Underperforming)
                    }
                } else {
                    HealthAction::Recover
                }
            },
            HealthObservation::NoResponse { loss_over_limit } => {
                let over = loss_over_limit || b.consecutive_failures >= 3;
                if b.sample_count >= SAMPLE_WINDOW && over {
                    if is_primary {
                        HealthAction::Isolate
                    } else {
                        HealthAction::Remove(RemoveReason::Unresponsive)
                    }
                } else {
                    HealthAction::Nothing
                }
            },
        }
    }

    /// Carries out a health check's decision on backend `id`, as
    /// `spec_apply_health` says. Gives whether the backend was isolated or
    /// removed.
    pub fn apply_health_action(
        &mut self,
        id: usize,
        action: HealthAction,
        is_primary: bool,
        keys: &Vec<u64>,
        now_ms: u64,
    ) -> (r: bool)
        requires
            old(self).wf(),
            id < old(self).backends.len(),
            keys.len() == old(self).primary.len(),
        ensures
            final(self).wf(),
            r == (action is Isolate || action is Remove),
            final(self).pools() == spec_apply_health(
                old(self).pools(),
                id,
                action,
                is_primary,
                old(self).min_active_target,
                old(self).primary_target,
                keys@,
                now_ms,
            ),
            final(self).ip_set@ == old(self).ip_set@,
            final(self).sticky_slots@ == old(self).sticky_slots@,
            final(self).primary_target == old(self).primary_target,
            final(self).backup_target == old(self).backup_target,
            final(self).min_active_target == old(self).min_active_target,
    {
        match action {
            HealthAction::Isolate => {
                self.isolate_backend(id, keys, now_ms);
                true
            },
            HealthAction::Remove(_) => {
                self.apply_op(id, BackendOp::MarkRemoved(now_ms));
                if is_primary {
                    let ghost before = self.pools();
                    self.refill_from_backup();
                    proof {
                        assert(self.pools() == spec_refill(before, self.primary_target));
                    }
                }
                true
            },
            HealthAction::Recover => {
                self.apply_op(id, BackendOp::Success);
                if self.backends[id].is_isolated() {
                    self.apply_op(id, BackendOp::MarkActive(now_ms));
                }
                proof {
                    assert(self.backends@ =~= spec_apply_health(old(self).pools(), id, action, is_primary, old(self).min_active_target, old(self).primary_target, keys@, now_ms).backends);
                }
                false
            },
            HealthAction::Nothing => false,
        }
    }

    /// The number of primaries that may take traffic.
    pub fn count_active(&self) -> (r: usize)
        requires
            self.wf(),
        ensures
            r == self.primary@.filter(is_selectable(self.backends@)).len(),
    {
        let ghost pred = is_selectable(self.backends@);
        let mut n: usize = 0;
        let mut i: usize = 0;
        while i < self.primary.len()
            invariant
                self.wf(),
                i <= self.primary.len(),
                pred == is_selectable(self.backends@),
                n == self.primary@.take(i as int).filter(pred).len(),
                n <= i,
            decreases self.primary.len() - i,
        {
            let id = self.primary[i];
            proof {
                assert(self.queued(id));
                lemma_filter_take_step(self.primary@, pred, i as int);
            }
            if self.backends[id].is_selectable() {
                n = n + 1;
            }
            i = i + 1;
        }
        proof {
            assert(self.primary@.take(self.primary.len() as int) =~= self.primary@);
        }
        n
    }
}

} // verus!
