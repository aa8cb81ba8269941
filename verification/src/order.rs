//! Ordering the backup queue by score, best first.
//!
//! Scores are real numbers; the caller passes one key per backup, in queue
//! order, that orders the backups as their scores do. Equal keys keep their
//! queue order, as a stable sort does.
use vstd::prelude::*;

use crate::balancer::LoadBalancer;

verus! {

broadcast use vstd::seq_lib::group_seq_properties;

/// Whether position `a` comes before position `b`: a smaller key, or an
/// equal key and an earlier position.
pub open spec fn before(keys: Seq<u64>, a: int, b: int) -> bool {
    keys[a] < keys[b] || (keys[a] == keys[b] && a < b)
}

/// Whether some position of `perm` holds `k`.
pub open spec fn has_preimage(perm: Seq<usize>, n: nat, k: usize) -> bool {
    exists|i: int| 0 <= i < n && #[trigger] perm[i] == k
}

/// Whether `perm` is a permutation of `0..n`.
pub open spec fn is_perm(perm: Seq<usize>, n: nat) -> bool {
    &&& perm.len() == n
    &&& forall|i: int| 0 <= i < n ==> #[trigger] perm[i] < n
    &&& forall|i: int, j: int| 0 <= i < n && 0 <= j < n && i != j ==> perm[i] != perm[j]
    &&& forall|k: usize| k < n ==> #[trigger] has_preimage(perm, n, k)
}

/// Whether `q2` is `q` stably sorted by `keys`.
pub open spec fn sorted_by_keys(q: Seq<usize>, keys: Seq<u64>, q2: Seq<usize>) -> bool {
    exists|perm: Seq<usize>| {
        &&& is_perm(perm, q.len())
        &&& q2.len() == q.len()
        &&& forall|i: int| 0 <= i < q.len() ==> #[trigger] q2[i] == q[perm[i] as int]
        &&& forall|i: int, j: int| 0 <= i < j < q.len() ==> before(keys, perm[i] as int, perm[j] as int)
    }
}

/// The permutation of `0..n` that sorts by `keys`.
fn sort_perm(keys: &Vec<u64>) -> (perm: Vec<usize>)
    ensures
        is_perm(perm@, keys.len() as nat),
        forall|i: int, j: int| 0 <= i < j < keys.len() ==> before(keys@, perm@[i] as int, perm@[j] as int),
{
    let n = keys.len();
    let mut perm: Vec<usize> = Vec::new();
    let mut k: usize = 0;
    while k < n
        invariant
            k <= n,
            perm@.len() == k,
            forall|i: int| 0 <= i < k ==> perm@[i] == i,
        decreases n - k,
    {
        perm.push(k);
        k = k + 1;
    }
    proof {
        assert forall|x: usize| x < n implies #[trigger] has_preimage(perm@, n as nat, x) by {
            assert(perm@[x as int] == x);
        }
    }
    let mut i: usize = 1;
    while i < n
        invariant
            n == keys.len(),
            1 <= i || n == 0,
            i <= n || n == 0,
            is_perm(perm@, n as nat),
            forall|a: int, b: int| 0 <= a < b < i ==> before(keys@, perm@[a] as int, perm@[b] as int),
        decreases n - i,
    {
        let mut j: usize = i;
        while j > 0 && !(keys[perm[j - 1]] < keys[perm[j]] || (keys[perm[j - 1]] == keys[perm[j]]
            && perm[j - 1] < perm[j]))
            invariant
                n == keys.len(),
                0 <= j <= i < n,
                is_perm(perm@, n as nat),
                forall|a: int, b: int| 0 <= a < b <= i && a != j && b != j ==> before(keys@, perm@[a] as int, perm@[b] as int),
                forall|b: int| j < b <= i ==> before(keys@, perm@[j as int] as int, perm@[b] as int),
            decreases j,
        {
            let x = perm[j - 1];
            let y = perm[j];
            let ghost p0 = perm@;
            perm.set(j - 1, y);
            perm.set(j, x);
            proof {
                assert(perm@ == p0.update(j - 1, y).update(j as int, x));
                assert forall|k: usize| k < n implies #[trigger] has_preimage(perm@, n as nat, k) by {
                    assert(has_preimage(p0, n as nat, k));
                    let t = choose|t: int| 0 <= t < n && p0[t] == k;
                    if t == j - 1 {
                        assert(perm@[j as int] == k);
                    } else if t == j {
                        assert(perm@[j - 1] == k);
                    } else {
                        assert(perm@[t] == k);
                    }
                }
                assert forall|a: int, b: int| 0 <= a < n && 0 <= b < n && a != b implies perm@[a] != perm@[b] by {
                    let sa = if a == j - 1 { j as int } else if a == j { j - 1 } else { a };
                    let sb = if b == j - 1 { j as int } else if b == j { j - 1 } else { b };
                    assert(perm@[a] == p0[sa]);
                    assert(perm@[b] == p0[sb]);
                }
            }
            j = j - 1;
        }
        proof {
            assert(j > 0 ==> before(keys@, perm@[j - 1] as int, perm@[j as int] as int));
            assert forall|a: int, b: int| 0 <= a < b <= i implies before(keys@, perm@[a] as int, perm@[b] as int) by {
                if b == j && a < j - 1 {
                    assert(before(keys@, perm@[a] as int, perm@[j - 1] as int));
                }
            }
        }
        i = i + 1;
    }
    perm
}

impl LoadBalancer {
    /// Orders the backup queue by `keys`, smallest first, keeping the queue
    /// order among equal keys.
    pub fn sort_backup(&mut self, keys: &Vec<u64>)
        requires
            old(self).wf(),
            keys.len() == old(self).backup.len(),
        ensures
            final(self).wf(),
            sorted_by_keys(old(self).backup@, keys@, final(self).backup@),
            final(self).backends@ == old(self).backends@,
            final(self).primary@ == old(self).primary@,
            final(self).ip_set@ == old(self).ip_set@,
            final(self).sticky_slots@ == old(self).sticky_slots@,
            final(self).primary_index == old(self).primary_index,
            final(self).primary_target == old(self).primary_target,
            final(self).backup_target == old(self).backup_target,
            final(self).min_active_target == old(self).min_active_target,
    {
        let perm = sort_perm(keys);
        let n = self.backup.len();
        let mut q: Vec<usize> = Vec::new();
        let mut i: usize = 0;
        while i < n
            invariant
                n == self.backup.len() == keys.len(),
                is_perm(perm@, n as nat),
                i <= n,
                q@.len() == i,
                forall|t: int| 0 <= t < i ==> #[trigger] q@[t] == self.backup@[perm@[t] as int],
            decreases n - i,
        {
            q.push(self.backup[perm[i]]);
            i = i + 1;
        }
        let ghost old_self = *self;
        let ghost b0 = self.backup@;
        self.backup = q;
        proof {
            assert(sorted_by_keys(b0, keys@, self.backup@));
            assert forall|x: usize| #[trigger] self.backup@.contains(x) <==> b0.contains(x) by {
                if self.backup@.contains(x) {
                    let t = choose|t: int| 0 <= t < n && self.backup@[t] == x;
                    assert(b0[perm@[t] as int] == x);
                }
                if b0.contains(x) {
                    let k = choose|k: int| 0 <= k < n && b0[k] == x;
                    assert(has_preimage(perm@, n as nat, k as usize));
                    let t = choose|t: int| 0 <= t < n && #[trigger] perm@[t] == k as usize;
                    assert(self.backup@[t] == x);
                }
            }
            assert(self.backup@.no_duplicates()) by {
                assert forall|a: int, b: int| 0 <= a < n && 0 <= b < n && a != b implies self.backup@[a] != self.backup@[b] by {
                    assert(perm@[a] != perm@[b]);
                }
            }
            assert forall|x: usize| #[trigger] self.queued(x) implies old_self.queued(x) by {}
            assert forall|x: usize| #[trigger] self.primary@.contains(x) implies !self.backup@.contains(x) by {}
            self.lemma_wf_sub(old_self);
        }
    }
}

} // verus!
