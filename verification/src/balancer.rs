//! The load balancer's pools: a primary queue that takes traffic, a backup
//! queue that refills it, the set of addresses already taken, and the sticky
//! slots that pin traffic to a few backends at a time.
//!
//! Backends live in an arena and are named by their index in it; a backend
//! leaves the queues but keeps its index, so a caller that still holds the
//! index (an open connection) can release it.
use vstd::prelude::*;

use crate::backend::{
    Backend, BackendState, clone_opt_string, opt_view, usize_add_wrap, usize_sub_wrap,
};
use crate::config::{MAX_BACKUP_TARGET, MAX_STICKY_SLOTS};
use crate::net::{IpAddr, SocketAddr};
use crate::seqs::{lemma_concat_no_dups, lemma_push_no_dups, lemma_take_skip_no_dups};

verus! {

broadcast use vstd::seq_lib::group_seq_properties;

/// What `try_add_backend` did with an address.
#[derive(Clone, Copy, PartialEq, Eq, Debug, Structural)]
pub enum AddResult {
    AddedToPrimary,
    AddedToBackup,
    QueueFull,
    AlreadyExists,
}

/// A sticky slot: a backend that takes the traffic for a while. Times are
/// the monotonic clock (`last_switch_ms`) and the wall clock
/// (`last_access_ms`) in milliseconds.
#[derive(Clone, Copy, PartialEq, Eq, Debug, Structural)]
pub struct StickySlot {
    pub backend: usize,
    pub last_switch_ms: u64,
    pub last_access_ms: u64,
    pub interval_ms: u64,
}

/// The balancer's state. The thresholds are the bit patterns of the
/// caller's real-valued limits.
pub struct LoadBalancer {
    pub backends: Vec<Backend>,
    pub primary: Vec<usize>,
    pub backup: Vec<usize>,
    pub ip_set: Vec<IpAddr>,
    pub primary_index: usize,
    pub primary_target: usize,
    pub backup_target: usize,
    pub min_active_target: usize,
    pub health_check_url: String,
    pub tls_port: u16,
    pub http_port: u16,
    pub timeout_ms: u64,
    pub delay_threshold_bits: u32,
    pub loss_threshold_bits: u32,
    pub colo_filter: Option<Vec<String>>,
    pub sticky_slots: Vec<StickySlot>,
    pub last_expand_ms: u64,
    pub next_health_check_ms: u64,
    pub next_primary_health_check_ms: u64,
    pub max_sticky_slots: usize,
}

/// The backup target for a primary target: half of it rounded up, at most
/// the largest backup queue, and at least 2.
pub open spec fn backup_target_for(primary_target: usize) -> usize {
    let half: int = primary_target / 2 + primary_target % 2;
    let capped: int = if half < MAX_BACKUP_TARGET {
        half
    } else {
        MAX_BACKUP_TARGET as int
    };
    if capped > 2 {
        capped as usize
    } else {
        2
    }
}

/// The backup target for a primary target, as `backup_target_for` says.
pub fn backup_target_of(primary_target: usize) -> (r: usize)
    ensures
        r == backup_target_for(primary_target),
{
    let half = primary_target / 2 + primary_target % 2;
    let capped = if half < MAX_BACKUP_TARGET {
        half
    } else {
        MAX_BACKUP_TARGET
    };
    if capped > 2 {
        capped
    } else {
        2
    }
}

/// The backup target is never below 2 nor above the largest backup queue.
pub proof fn law_backup_target_bounds(primary_target: usize)
    ensures
        2 <= backup_target_for(primary_target) <= MAX_BACKUP_TARGET,
{
}

/// `b` with one more open connection.
pub open spec fn conn_added(b: Backend) -> Backend {
    Backend { connections: usize_add_wrap(b.connections, 1), ..b }
}

/// `b` with one open connection fewer.
pub open spec fn conn_released(b: Backend) -> Backend {
    Backend { connections: usize_sub_wrap(b.connections, 1), ..b }
}

/// The two-choice pick over `n` candidates from the rotating `index`: the
/// candidate at `index` and the one half way round; the one with fewer
/// connections wins, the first on a tie. Gives the winner's position and the
/// next index (unchanged for one candidate).
pub open spec fn p2c_pick(n: nat, index: usize, conns: spec_fn(nat) -> usize) -> (nat, usize) {
    if n == 1 {
        (0, index)
    } else {
        let i = (index as nat) % n;
        let j = (i + n / 2) % n;
        let pos = if conns(i) <= conns(j) {
            i
        } else {
            j
        };
        (pos, crate::ip::usize_inc(index))
    }
}

/// `(i + n / 2) % n` for `i < n`.
fn half_way(i: usize, n: usize) -> (r: usize)
    requires
        i < n,
    ensures
        r as nat == (i as nat + n as nat / 2) % (n as nat),
{
    let h = n / 2;
    if i >= n - h {
        proof {
            assert((i as nat + h as nat) % (n as nat) == (i + h - n) as nat) by (nonlinear_arith)
                requires
                    i < n,
                    i + h >= n,
                    h <= n,
            ;
        }
        i - (n - h)
    } else {
        proof {
            assert((i as nat + h as nat) % (n as nat) == (i + h) as nat) by (nonlinear_arith)
                requires
                    i + h < n,
            ;
        }
        i + h
    }
}

/// Moving the rotating index on by one wraps at the end of `usize`.
proof fn lemma_index_wraps(index: usize)
    ensures
        crate::ip::usize_inc(index) as int == (index as int + 1) % (usize::MAX as int + 1),
{
    let m = usize::MAX as int + 1;
    if index == usize::MAX {
        vstd::arithmetic::div_mod::lemma_mod_self_0(m);
    } else {
        vstd::arithmetic::div_mod::lemma_small_mod((index as int + 1) as nat, m as nat);
    }
}

/// The two-choice pick over `n` candidates from the rotating index
/// `index`: with one candidate it takes that one and leaves the index; with
/// more it looks at the candidate at `index % n` and the one half way round
/// from it, takes the one with fewer connections (the first on a tie), and
/// moves the index on by one, wrapping at the end of `usize`.
pub proof fn law_p2c_pick(n: nat, index: usize, conns: spec_fn(nat) -> usize)
    requires
        n >= 1,
    ensures
        p2c_pick(n, index, conns).0 < n,
        n == 1 ==> p2c_pick(n, index, conns) == (0nat, index),
        n >= 2 ==> p2c_pick(n, index, conns).1 as int == (index as int + 1) % (usize::MAX as int + 1),
        n >= 2 ==> ({
            let i = (index as int % n as int) as nat;
            let j = ((i + n / 2) as int % n as int) as nat;
            let pos = p2c_pick(n, index, conns).0;
            &&& pos == i || pos == j
            &&& conns(pos) <= conns(i) && conns(pos) <= conns(j)
            &&& conns(i) <= conns(j) ==> pos == i
        }),
{
    if n >= 2 {
        let i = (index as int % n as int) as nat;
        assert(i < n);
        assert(((i + n / 2) as int % n as int) < n);
        let m = usize::MAX as int + 1;
        if index == usize::MAX {
            vstd::arithmetic::div_mod::lemma_mod_self_0(m);
        } else {
            vstd::arithmetic::div_mod::lemma_small_mod((index as int + 1) as nat, m as nat);
        }
    }
}

impl LoadBalancer {
    /// The ids in the two queues, primary first.
    pub open spec fn pooled(self) -> Seq<usize> {
        self.primary@ + self.backup@
    }

    /// Whether `id` is in one of the queues.
    pub open spec fn queued(self, id: usize) -> bool {
        self.primary@.contains(id) || self.backup@.contains(id)
    }

    /// Whether `other` keeps everything of `self` but the arena, the queues
    /// and the taken addresses: the settings, the round-robin position, the
    /// sticky slots and the upkeep times.
    pub open spec fn keeps_settings(self, other: LoadBalancer) -> bool {
        &&& other.primary_index == self.primary_index
        &&& other.primary_target == self.primary_target
        &&& other.backup_target == self.backup_target
        &&& other.min_active_target == self.min_active_target
        &&& other.health_check_url == self.health_check_url
        &&& other.tls_port == self.tls_port
        &&& other.http_port == self.http_port
        &&& other.timeout_ms == self.timeout_ms
        &&& other.delay_threshold_bits == self.delay_threshold_bits
        &&& other.loss_threshold_bits == self.loss_threshold_bits
        &&& other.colo_filter == self.colo_filter
        &&& other.sticky_slots == self.sticky_slots
        &&& other.last_expand_ms == self.last_expand_ms
        &&& other.next_health_check_ms == self.next_health_check_ms
        &&& other.next_primary_health_check_ms == self.next_primary_health_check_ms
        &&& other.max_sticky_slots == self.max_sticky_slots
    }

    /// How many candidates a selection looks among: the sticky slots when
    /// there are any, else the primary queue when it has backends, else the
    /// backup queue.
    pub open spec fn looked_at_len(self) -> nat {
        if self.sticky_slots.len() > 0 {
            self.sticky_slots.len() as nat
        } else if self.primary.len() > 0 {
            self.primary.len() as nat
        } else {
            self.backup.len() as nat
        }
    }

    /// Whether `ip` is taken.
    pub open spec fn has_ip(self, ip: IpAddr) -> bool {
        self.ip_set@.contains(ip)
    }

    /// The balancer's invariant: queued ids and slot ids name backends; no
    /// id is queued twice; the taken addresses are distinct and hold every
    /// queued backend's address; queued backends have distinct addresses.
    pub open spec fn wf(self) -> bool {
        &&& self.primary@.no_duplicates()
        &&& self.backup@.no_duplicates()
        &&& forall|id: usize| #[trigger] self.primary@.contains(id) ==> !self.backup@.contains(id)
        &&& forall|id: usize| #[trigger] self.queued(id) ==> id < self.backends.len()
        &&& forall|i: int| 0 <= i < self.sticky_slots.len() ==> #[trigger] self.sticky_slots@[i].backend < self.backends.len()
        &&& self.ip_set@.no_duplicates()
        &&& forall|id: usize| #[trigger] self.queued(id) ==> self.has_ip(self.backends@[id as int].addr.ip)
        &&& forall|a: usize, b: usize| #![trigger self.queued(a), self.queued(b)] self.queued(a) && self.queued(b) && a != b
            ==> self.backends@[a as int].addr.ip != self.backends@[b as int].addr.ip
    }

    /// A balancer with empty queues for `primary_target` backends; `now_ms` is
    /// the wall clock.
    pub fn new(primary_target: usize, now_ms: u64) -> (r: LoadBalancer)
        ensures
            r.wf(),
            r.backends@.len() == 0,
            r.primary@.len() == 0,
            r.backup@.len() == 0,
            r.ip_set@.len() == 0,
            r.sticky_slots@.len() == 0,
            r.primary_index == 0,
            r.primary_target == primary_target,
            r.backup_target == backup_target_for(primary_target),
            r.min_active_target == primary_target / 2 + primary_target % 2,
            r.health_check_url@.len() == 0,
            r.tls_port == 443,
            r.http_port == 80,
            r.timeout_ms == 2000,
            r.delay_threshold_bits == 0,
            r.loss_threshold_bits == 0,
            r.colo_filter is None,
            r.last_expand_ms == now_ms,
            r.next_health_check_ms == now_ms,
            r.next_primary_health_check_ms == now_ms,
            r.max_sticky_slots == MAX_STICKY_SLOTS,
    {
        LoadBalancer {
            backends: Vec::new(),
            primary: Vec::new(),
            backup: Vec::new(),
            ip_set: Vec::new(),
            primary_index: 0,
            primary_target,
            backup_target: backup_target_of(primary_target),
            min_active_target: primary_target / 2 + primary_target % 2,
            health_check_url: String::new(),
            tls_port: 443,
            http_port: 80,
            timeout_ms: 2000,
            delay_threshold_bits: 0,
            loss_threshold_bits: 0,
            colo_filter: None,
            sticky_slots: Vec::new(),
            last_expand_ms: now_ms,
            next_health_check_ms: now_ms,
            next_primary_health_check_ms: now_ms,
            max_sticky_slots: MAX_STICKY_SLOTS,
        }
    }

    /// Sets the delay limit.
    pub fn with_delay_threshold(self, bits: u32) -> (r: LoadBalancer)
        ensures
            r == (LoadBalancer { delay_threshold_bits: bits, ..self }),
    {
        LoadBalancer { delay_threshold_bits: bits, ..self }
    }

    /// Sets the loss limit.
    pub fn with_loss_threshold(self, bits: u32) -> (r: LoadBalancer)
        ensures
            r == (LoadBalancer { loss_threshold_bits: bits, ..self }),
    {
        LoadBalancer { loss_threshold_bits: bits, ..self }
    }

    /// Sets the data-center filter.
    pub fn with_colo_filter(self, colo_filter: Option<Vec<String>>) -> (r: LoadBalancer)
        ensures
            r == (LoadBalancer { colo_filter, ..self }),
    {
        LoadBalancer { colo_filter, ..self }
    }

    /// The delay limit.
    pub fn get_delay_threshold(&self) -> (r: u32)
        ensures
            r == self.delay_threshold_bits,
    {
        self.delay_threshold_bits
    }

    /// Sets the health-check URL.
    pub fn with_health_check_url(self, url: String) -> (r: LoadBalancer)
        ensures
            r == (LoadBalancer { health_check_url: url, ..self }),
    {
        LoadBalancer { health_check_url: url, ..self }
    }

    /// Sets the forwarding ports.
    pub fn with_ports(self, tls_port: u16, http_port: u16) -> (r: LoadBalancer)
        ensures
            r == (LoadBalancer { tls_port, http_port, ..self }),
    {
        LoadBalancer { tls_port, http_port, ..self }
    }

    /// Sets the probe timeout.
    pub fn with_timeout(self, timeout_ms: u64) -> (r: LoadBalancer)
        ensures
            r == (LoadBalancer { timeout_ms, ..self }),
    {
        LoadBalancer { timeout_ms, ..self }
    }

    /// Sets the largest number of sticky slots.
    pub fn with_max_sticky_slots(self, max_sticky_slots: usize) -> (r: LoadBalancer)
        ensures
            r == (LoadBalancer { max_sticky_slots, ..self }),
    {
        LoadBalancer { max_sticky_slots, ..self }
    }

    /// Whether `ip` is taken.
    pub fn contains(&self, ip: IpAddr) -> (r: bool)
        ensures
            r == self.has_ip(ip),
    {
        let mut i: usize = 0;
        while i < self.ip_set.len()
            invariant
                i <= self.ip_set.len(),
                forall|k: int| 0 <= k < i ==> self.ip_set@[k] != ip,
            decreases self.ip_set.len() - i,
        {
            if self.ip_set[i] == ip {
                return true;
            }
            i = i + 1;
        }
        false
    }

    /// Whether the primary queue has reached its target.
    pub fn primary_full(&self) -> (r: bool)
        ensures
            r == (self.primary.len() >= self.primary_target),
    {
        self.primary.len() >= self.primary_target
    }

    /// Whether the backup queue has reached its target.
    pub fn backup_full(&self) -> (r: bool)
        ensures
            r == (self.backup.len() >= self.backup_target),
    {
        self.backup.len() >= self.backup_target
    }

    /// Whether probing should wait: both queues full.
    pub fn should_pause(&self) -> (r: bool)
        ensures
            r == (self.primary.len() >= self.primary_target && self.backup.len()
                >= self.backup_target),
    {
        self.primary_full() && self.backup_full()
    }

    /// The number of backups.
    pub fn get_backup_count(&self) -> (r: usize)
        ensures
            r == self.backup.len(),
    {
        self.backup.len()
    }

    /// The number of primaries.
    pub fn get_primary_count(&self) -> (r: usize)
        ensures
            r == self.primary.len(),
    {
        self.primary.len()
    }

    /// The primary target.
    pub fn get_primary_target(&self) -> (r: usize)
        ensures
            r == self.primary_target,
    {
        self.primary_target
    }

    /// The backup target.
    pub fn get_backup_target(&self) -> (r: usize)
        ensures
            r == self.backup_target,
    {
        self.backup_target
    }

    /// Sets the delay limit.
    pub fn update_delay_threshold(&mut self, bits: u32)
        ensures
            *final(self) == (LoadBalancer { delay_threshold_bits: bits, ..*old(self) }),
    {
        self.delay_threshold_bits = bits;
    }

    /// Sets the loss limit.
    pub fn update_loss_threshold(&mut self, bits: u32)
        ensures
            *final(self) == (LoadBalancer { loss_threshold_bits: bits, ..*old(self) }),
    {
        self.loss_threshold_bits = bits;
    }

    /// Sets the primary target and the backup target that goes with it.
    pub fn update_primary_target(&mut self, primary_target: usize)
        ensures
            *final(self) == (LoadBalancer {
                primary_target,
                backup_target: backup_target_for(primary_target),
                ..*old(self)
            }),
    {
        self.primary_target = primary_target;
        self.backup_target = backup_target_of(primary_target);
    }

    /// Sets when the next backup health check is due (wall clock, ms).
    pub fn set_next_health_check_ms(&mut self, ms: u64)
        ensures
            *final(self) == (LoadBalancer { next_health_check_ms: ms, ..*old(self) }),
    {
        self.next_health_check_ms = ms;
    }

    /// Sets when the next primary health check is due (wall clock, ms).
    pub fn set_next_primary_health_check_ms(&mut self, ms: u64)
        ensures
            *final(self) == (LoadBalancer { next_primary_health_check_ms: ms, ..*old(self) }),
    {
        self.next_primary_health_check_ms = ms;
    }

    /// Whole seconds until the next backup health check, 0 when it is due.
    pub fn get_next_health_check_secs(&self, now_ms: u64) -> (r: u64)
        ensures
            r == (if self.next_health_check_ms > now_ms {
                ((self.next_health_check_ms - now_ms) / 1000) as u64
            } else {
                0
            }),
    {
        if self.next_health_check_ms > now_ms {
            (self.next_health_check_ms - now_ms) / 1000
        } else {
            0
        }
    }

    /// Adds a new backend with the given metrics to the arena, and takes its
    /// address.
    fn push_backend(
        &mut self,
        addr: SocketAddr,
        delay_bits: u32,
        loss_bits: u32,
        colo: Option<String>,
        now_ms: u64,
    ) -> (id: usize)
        requires
            old(self).wf(),
            !old(self).has_ip(addr.ip),
            old(self).backends.len() < usize::MAX,
        ensures
            id == old(self).backends.len(),
            final(self).backends@.len() == old(self).backends@.len() + 1,
            forall|k: int| 0 <= k < id ==> final(self).backends@[k] == old(self).backends@[k],
            final(self).backends@[id as int].addr == addr,
            opt_view(final(self).backends@[id as int].colo) == opt_view(colo),
            final(self).backends@[id as int].connections == 0,
            final(self).backends@[id as int].avg_delay_bits == delay_bits,
            final(self).backends@[id as int].avg_loss_bits == loss_bits,
            final(self).backends@[id as int].sample_count == 0,
            final(self).backends@[id as int].state == BackendState::Warming,
            final(self).backends@[id as int].entered_state_at_ms == now_ms,
            final(self).backends@[id as int].consecutive_failures == 0,
            final(self).ip_set@ == old(self).ip_set@.push(addr.ip),
            final(self).primary@ == old(self).primary@,
            final(self).backup@ == old(self).backup@,
            final(self).sticky_slots@ == old(self).sticky_slots@,
            final(self).primary_target == old(self).primary_target,
            final(self).backup_target == old(self).backup_target,
            final(self).primary_index == old(self).primary_index,
            old(self).keeps_settings(*final(self)),
    {
        let b = Backend::new_with_initial(addr, delay_bits, loss_bits, colo, now_ms);
        let id = self.backends.len();
        self.backends.push(b);
        self.ip_set.push(addr.ip);
        id
    }

    /// Queues a new backend at the end of the primary queue, unless its address
    /// is taken.
    pub fn add_to_primary(
        &mut self,
        addr: SocketAddr,
        delay_bits: u32,
        loss_bits: u32,
        colo: Option<String>,
        now_ms: u64,
    )
        requires
            old(self).wf(),
            old(self).backends.len() < usize::MAX,
        ensures
            final(self).wf(),
            old(self).has_ip(addr.ip) ==> final(self).backends@ == old(self).backends@
                && final(self).primary@ == old(self).primary@ && final(self).ip_set@ == old(self).ip_set@,
            !old(self).has_ip(addr.ip) ==> {
                let id = old(self).backends.len();
                &&& final(self).primary@ == old(self).primary@.push(id)
                &&& final(self).ip_set@ == old(self).ip_set@.push(addr.ip)
                &&& final(self).backends@.len() == id + 1
                &&& final(self).backends@.take(id as int) == old(self).backends@
                &&& final(self).backends@[id as int].addr == addr
                &&& final(self).backends@[id as int].state == BackendState::Warming
                &&& final(self).backends@[id as int].avg_delay_bits == delay_bits
                &&& final(self).backends@[id as int].avg_loss_bits == loss_bits
                &&& opt_view(final(self).backends@[id as int].colo) == opt_view(colo)
                &&& final(self).backends@[id as int].connections == 0
                &&& final(self).backends@[id as int].sample_count == 0
                &&& final(self).backends@[id as int].consecutive_failures == 0
                &&& final(self).backends@[id as int].entered_state_at_ms == now_ms
            },
            final(self).backup@ == old(self).backup@,
            final(self).sticky_slots@ == old(self).sticky_slots@,
            final(self).primary_target == old(self).primary_target,
            final(self).backup_target == old(self).backup_target,
            old(self).keeps_settings(*final(self)),
    {
        if self.contains(addr.ip) {
            return;
        }
        let ghost old_self = *self;
        let id = self.push_backend(addr, delay_bits, loss_bits, colo, now_ms);
        self.primary.push(id);
        proof {
            assert(self.backends@.take(id as int) =~= old_self.backends@);
            self.lemma_wf_after_push(old_self, id, true);
        }
    }

    /// Queues a new backend at the end of the backup queue, unless its address
    /// is taken.
    pub fn add_to_backup(
        &mut self,
        addr: SocketAddr,
        delay_bits: u32,
        loss_bits: u32,
        colo: Option<String>,
        now_ms: u64,
    )
        requires
            old(self).wf(),
            old(self).backends.len() < usize::MAX,
        ensures
            final(self).wf(),
            old(self).has_ip(addr.ip) ==> final(self).backends@ == old(self).backends@
                && final(self).backup@ == old(self).backup@ && final(self).ip_set@ == old(self).ip_set@,
            !old(self).has_ip(addr.ip) ==> {
                let id = old(self).backends.len();
                &&& final(self).backup@ == old(self).backup@.push(id)
                &&& final(self).ip_set@ == old(self).ip_set@.push(addr.ip)
                &&& final(self).backends@.len() == id + 1
                &&& final(self).backends@.take(id as int) == old(self).backends@
                &&& final(self).backends@[id as int].addr == addr
                &&& final(self).backends@[id as int].state == BackendState::Warming
                &&& final(self).backends@[id as int].avg_delay_bits == delay_bits
                &&& final(self).backends@[id as int].avg_loss_bits == loss_bits
                &&& opt_view(final(self).backends@[id as int].colo) == opt_view(colo)
                &&& final(self).backends@[id as int].connections == 0
                &&& final(self).backends@[id as int].sample_count == 0
                &&& final(self).backends@[id as int].consecutive_failures == 0
                &&& final(self).backends@[id as int].entered_state_at_ms == now_ms
            },
            final(self).primary@ == old(self).primary@,
            final(self).sticky_slots@ == old(self).sticky_slots@,
            final(self).primary_target == old(self).primary_target,
            final(self).backup_target == old(self).backup_target,
            old(self).keeps_settings(*final(self)),
    {
        if self.contains(addr.ip) {
            return;
        }
        let ghost old_self = *self;
        let id = self.push_backend(addr, delay_bits, loss_bits, colo, now_ms);
        self.backup.push(id);
        proof {
            assert(self.backends@.take(id as int) =~= old_self.backends@);
            self.lemma_wf_after_push(old_self, id, false);
        }
    }

    /// Queuing a backend with a fresh address keeps the invariant.
    proof fn lemma_wf_after_push(self, old_self: LoadBalancer, id: usize, to_primary: bool)
        requires
            old_self.wf(),
            id == old_self.backends.len(),
            self.backends@.len() == id + 1,
            forall|k: int| 0 <= k < id ==> self.backends@[k] == old_self.backends@[k],
            !old_self.has_ip(self.backends@[id as int].addr.ip),
            self.ip_set@ == old_self.ip_set@.push(self.backends@[id as int].addr.ip),
            self.sticky_slots@ == old_self.sticky_slots@,
            to_primary ==> self.primary@ == old_self.primary@.push(id) && self.backup@ == old_self.backup@,
            !to_primary ==> self.backup@ == old_self.backup@.push(id) && self.primary@ == old_self.primary@,
        ensures
            self.wf(),
    {
        let ip = self.backends@[id as int].addr.ip;
        assert(!old_self.queued(id));
        if to_primary {
            assert(!old_self.primary@.contains(id));
            lemma_push_no_dups(old_self.primary@, id);
        } else {
            assert(!old_self.backup@.contains(id));
            lemma_push_no_dups(old_self.backup@, id);
        }
        assert forall|x: usize| #[trigger] self.queued(x) implies x == id || old_self.queued(x) by {}
        lemma_push_no_dups(old_self.ip_set@, ip);
        assert forall|x: usize| #[trigger] self.queued(x) implies self.has_ip(self.backends@[x as int].addr.ip) by {
            if x != id {
                assert(old_self.queued(x));
                assert(old_self.has_ip(old_self.backends@[x as int].addr.ip));
            }
        }
        assert forall|a: usize, b: usize| self.queued(a) && self.queued(b) && a != b
            implies self.backends@[a as int].addr.ip != self.backends@[b as int].addr.ip by {
            if a != id && b != id {
                assert(old_self.queued(a) && old_self.queued(b));
            } else if a == id {
                assert(old_self.queued(b));
                assert(old_self.has_ip(old_self.backends@[b as int].addr.ip));
            } else {
                assert(old_self.queued(a));
                assert(old_self.has_ip(old_self.backends@[a as int].addr.ip));
            }
        }
    }

    /// Takes a measured address into the first queue with room, unless its
    /// address is taken: the new backend starts warming with the measured delay
    /// and no loss.
    pub fn try_add_backend(
        &mut self,
        addr: SocketAddr,
        delay_bits: u32,
        colo: Option<String>,
        now_ms: u64,
    ) -> (r: AddResult)
        requires
            old(self).wf(),
            old(self).backends.len() < usize::MAX,
        ensures
            final(self).wf(),
            r == (if old(self).has_ip(addr.ip) {
                AddResult::AlreadyExists
            } else if old(self).primary.len() < old(self).primary_target {
                AddResult::AddedToPrimary
            } else if old(self).backup.len() < old(self).backup_target {
                AddResult::AddedToBackup
            } else {
                AddResult::QueueFull
            }),
            (r == AddResult::AlreadyExists || r == AddResult::QueueFull) ==> final(self).backends@
                == old(self).backends@ && final(self).primary@ == old(self).primary@ && final(self).backup@ == old(self).backup@ && final(self).ip_set@ == old(self).ip_set@,
            r == AddResult::AddedToPrimary ==> {
                let id = old(self).backends.len();
                &&& final(self).primary@ == old(self).primary@.push(id)
                &&& final(self).backup@ == old(self).backup@
                &&& final(self).ip_set@ == old(self).ip_set@.push(addr.ip)
                &&& final(self).backends@.take(id as int) == old(self).backends@
                &&& final(self).backends@.len() == id + 1
                &&& final(self).backends@[id as int].addr == addr
                &&& final(self).backends@[id as int].state == BackendState::Warming
                &&& final(self).backends@[id as int].avg_delay_bits == delay_bits
                &&& final(self).backends@[id as int].avg_loss_bits == 0
                &&& opt_view(final(self).backends@[id as int].colo) == opt_view(colo)
                &&& final(self).backends@[id as int].connections == 0
                &&& final(self).backends@[id as int].sample_count == 0
                &&& final(self).backends@[id as int].consecutive_failures == 0
                &&& final(self).backends@[id as int].entered_state_at_ms == now_ms
            },
            r == AddResult::AddedToBackup ==> {
                let id = old(self).backends.len();
                &&& final(self).backup@ == old(self).backup@.push(id)
                &&& final(self).primary@ == old(self).primary@
                &&& final(self).ip_set@ == old(self).ip_set@.push(addr.ip)
                &&& final(self).backends@.take(id as int) == old(self).backends@
                &&& final(self).backends@.len() == id + 1
                &&& final(self).backends@[id as int].addr == addr
                &&& final(self).backends@[id as int].state == BackendState::Warming
                &&& final(self).backends@[id as int].avg_delay_bits == delay_bits
                &&& final(self).backends@[id as int].avg_loss_bits == 0
                &&& opt_view(final(self).backends@[id as int].colo) == opt_view(colo)
                &&& final(self).backends@[id as int].connections == 0
                &&& final(self).backends@[id as int].sample_count == 0
                &&& final(self).backends@[id as int].consecutive_failures == 0
                &&& final(self).backends@[id as int].entered_state_at_ms == now_ms
            },
            old(self).primary.len() <= old(self).primary_target ==> final(self).primary.len() <= final(self).primary_target,
            old(self).backup.len() <= old(self).backup_target ==> final(self).backup.len() <= final(self).backup_target,
            r != AddResult::QueueFull ==> final(self).has_ip(addr.ip),
            final(self).sticky_slots@ == old(self).sticky_slots@,
            final(self).primary_target == old(self).primary_target,
            final(self).backup_target == old(self).backup_target,
            old(self).keeps_settings(*final(self)),
    {
        if self.contains(addr.ip) {
            return AddResult::AlreadyExists;
        }
        if self.primary.len() < self.primary_target {
            self.add_to_primary(addr, delay_bits, 0, colo, now_ms);
            AddResult::AddedToPrimary
        } else if self.backup.len() < self.backup_target {
            self.add_to_backup(addr, delay_bits, 0, colo, now_ms);
            AddResult::AddedToBackup
        } else {
            AddResult::QueueFull
        }
    }

    /// Hands out a backend: from the sticky slots when there are any, else from
    /// the primary queue, else from the backup queue, by the two-choice pick;
    /// the chosen backend gets one more connection, and a chosen slot is
    /// stamped with `now_ms` (wall clock).
    pub fn select(&mut self, now_ms: u64) -> (r: Option<usize>)
        requires
            old(self).wf(),
        ensures
            final(self).wf(),
            final(self).primary@ == old(self).primary@,
            final(self).backup@ == old(self).backup@,
            final(self).ip_set@ == old(self).ip_set@,
            final(self).primary_target == old(self).primary_target,
            final(self).backup_target == old(self).backup_target,
            final(self).sticky_slots.len() == old(self).sticky_slots.len(),
            r is None <==> (old(self).sticky_slots.len() == 0 && old(self).primary.len() == 0
                && old(self).backup.len() == 0),
            final(self).primary_index as int == (if old(self).looked_at_len() >= 2 {
                (old(self).primary_index as int + 1) % (usize::MAX as int + 1)
            } else {
                old(self).primary_index as int
            }),
            r matches Some(id) ==> id < old(self).backends.len() && final(self).backends@
                == old(self).backends@.update(id as int, conn_added(old(self).backends@[id as int])),
            old(self).sticky_slots.len() > 0 ==> {
                let slots = old(self).sticky_slots@;
                let pick = p2c_pick(
                    slots.len(),
                    old(self).primary_index,
                    |k: nat| old(self).backends@[slots[k as int].backend as int].connections,
                );
                &&& r == Some(slots[pick.0 as int].backend)
                &&& final(self).primary_index == pick.1
                &&& final(self).sticky_slots@ == slots.update(
                    pick.0 as int,
                    StickySlot { last_access_ms: now_ms, ..slots[pick.0 as int] },
                )
            },
            old(self).sticky_slots.len() == 0 && old(self).primary.len() > 0 ==> {
                let q = old(self).primary@;
                let pick = p2c_pick(
                    q.len(),
                    old(self).primary_index,
                    |k: nat| old(self).backends@[q[k as int] as int].connections,
                );
                &&& r == Some(q[pick.0 as int])
                &&& final(self).primary_index == pick.1
                &&& final(self).sticky_slots@ == old(self).sticky_slots@
            },
            old(self).sticky_slots.len() == 0 && old(self).primary.len() == 0 && old(self).backup.len() > 0 ==> {
                let q = old(self).backup@;
                let pick = p2c_pick(
                    q.len(),
                    old(self).primary_index,
                    |k: nat| old(self).backends@[q[k as int] as int].connections,
                );
                &&& r == Some(q[pick.0 as int])
                &&& final(self).primary_index == pick.1
                &&& final(self).sticky_slots@ == old(self).sticky_slots@
            },
            r is None ==> final(self).backends@ == old(self).backends@ && final(self).primary_index
                == old(self).primary_index,
    {
        proof {
            lemma_index_wraps(self.primary_index);
        }
        let n = self.sticky_slots.len();
        if n > 0 {
            let (pos, next_index) = self.pick_slot();
            let slot = self.sticky_slots[pos];
            self.sticky_slots.set(pos, StickySlot { last_access_ms: now_ms, ..slot });
            self.primary_index = next_index;
            let id = slot.backend;
            self.add_connection(id);
            proof {
                self.lemma_wf_conns_only(*old(self));
            }
            return Some(id);
        }
        if self.primary.len() > 0 {
            let (pos, next_index) = self.pick_in(true);
            let id = self.primary[pos];
            proof {
                assert(self.queued(id));
            }
            self.primary_index = next_index;
            self.add_connection(id);
            proof {
                self.lemma_wf_conns_only(*old(self));
            }
            return Some(id);
        }
        if self.backup.len() > 0 {
            let (pos, next_index) = self.pick_in(false);
            let id = self.backup[pos];
            proof {
                assert(self.queued(id));
            }
            self.primary_index = next_index;
            self.add_connection(id);
            proof {
                self.lemma_wf_conns_only(*old(self));
            }
            return Some(id);
        }
        None
    }

    /// A balancer that differs from a well-formed one only in what its
    /// backends hold besides their addresses, the rotating index and slot
    /// stamps is well-formed.
    pub(crate) proof fn lemma_wf_conns_only(self, old_self: LoadBalancer)
        requires
            old_self.wf(),
            self.primary@ == old_self.primary@,
            self.backup@ == old_self.backup@,
            self.ip_set@ == old_self.ip_set@,
            self.backends@.len() == old_self.backends@.len(),
            forall|k: int| 0 <= k < self.backends@.len() ==> (#[trigger] self.backends@[k]).addr == old_self.backends@[k].addr,
            self.sticky_slots.len() == old_self.sticky_slots.len(),
            forall|k: int| 0 <= k < self.sticky_slots.len() ==> (#[trigger] self.sticky_slots@[k]).backend == old_self.sticky_slots@[k].backend,
        ensures
            self.wf(),
    {
        assert forall|i: int| 0 <= i < self.sticky_slots.len() implies #[trigger] self.sticky_slots@[i].backend < self.backends.len() by {
            assert(old_self.sticky_slots@[i].backend < old_self.backends.len());
        }
        assert forall|x: usize| #[trigger] self.queued(x) implies x < self.backends.len() && self.has_ip(self.backends@[x as int].addr.ip) by {
            assert(old_self.queued(x));
            assert(old_self.has_ip(old_self.backends@[x as int].addr.ip));
        }
        assert forall|a: usize, b: usize| self.queued(a) && self.queued(b) && a != b
            implies self.backends@[a as int].addr.ip != self.backends@[b as int].addr.ip by {
            assert(old_self.queued(a) && old_self.queued(b));
        }
    }

    /// One more connection on backend `id`.
    fn add_connection(&mut self, id: usize)
        requires
            id < old(self).backends.len(),
        ensures
            final(self).backends@ == old(self).backends@.update(id as int, conn_added(old(self).backends@[id as int])),
            final(self).primary@ == old(self).primary@,
            final(self).backup@ == old(self).backup@,
            final(self).ip_set@ == old(self).ip_set@,
            final(self).sticky_slots@ == old(self).sticky_slots@,
            final(self).primary_index == old(self).primary_index,
            final(self).primary_target == old(self).primary_target,
            final(self).backup_target == old(self).backup_target,
    {
        let mut b = self.backends.remove(id);
        let ghost b0 = b;
        b.fetch_add_connection(1);
        proof {
            assert(b == conn_added(b0));
        }
        self.backends.insert(id, b);
        proof {
            assert(self.backends@ =~= old(self).backends@.update(id as int, conn_added(old(self).backends@[id as int])));
        }
    }

    /// The two-choice pick among the sticky slots.
    fn pick_slot(&self) -> (r: (usize, usize))
        requires
            self.wf(),
            self.sticky_slots.len() > 0,
        ensures
            ({
                let slots = self.sticky_slots@;
                let pick = p2c_pick(
                    slots.len(),
                    self.primary_index,
                    |k: nat| self.backends@[slots[k as int].backend as int].connections,
                );
                r.0 as nat == pick.0 && r.1 == pick.1
            }),
            r.0 < self.sticky_slots.len(),
    {
        let n = self.sticky_slots.len();
        if n == 1 {
            return (0, self.primary_index);
        }
        let i = self.primary_index % n;
        let j = half_way(i, n);
        let ci = self.backends[self.sticky_slots[i].backend].connections;
        let cj = self.backends[self.sticky_slots[j].backend].connections;
        let pos = if ci <= cj {
            i
        } else {
            j
        };
        (pos, self.primary_index.wrapping_add(1))
    }

    /// The two-choice pick in the primary (or the backup) queue.
    fn pick_in(&self, primary: bool) -> (r: (usize, usize))
        requires
            self.wf(),
            primary ==> self.primary.len() > 0,
            !primary ==> self.backup.len() > 0,
        ensures
            ({
                let q = if primary {
                    self.primary@
                } else {
                    self.backup@
                };
                let pick = p2c_pick(
                    q.len(),
                    self.primary_index,
                    |k: nat| self.backends@[q[k as int] as int].connections,
                );
                r.0 as nat == pick.0 && r.1 == pick.1 && r.0 < q.len()
            }),
    {
        let q = if primary {
            &self.primary
        } else {
            &self.backup
        };
        let n = q.len();
        if n == 1 {
            return (0, self.primary_index);
        }
        let i = self.primary_index % n;
        let j = half_way(i, n);
        proof {
            if primary {
                assert(self.queued(self.primary@[i as int]));
                assert(self.queued(self.primary@[j as int]));
            } else {
                assert(self.queued(self.backup@[i as int]));
                assert(self.queued(self.backup@[j as int]));
            }
        }
        let ci = self.backends[q[i]].connections;
        let cj = self.backends[q[j]].connections;
        let pos = if ci <= cj {
            i
        } else {
            j
        };
        (pos, self.primary_index.wrapping_add(1))
    }

    /// Gives back a connection of backend `id`.
    pub fn release(&mut self, id: usize)
        requires
            old(self).wf(),
            id < old(self).backends.len(),
        ensures
            final(self).wf(),
            final(self).backends@ == old(self).backends@.update(id as int, conn_released(old(self).backends@[id as int])),
            final(self).primary@ == old(self).primary@,
            final(self).backup@ == old(self).backup@,
            final(self).ip_set@ == old(self).ip_set@,
            final(self).sticky_slots@ == old(self).sticky_slots@,
            final(self).primary_index == old(self).primary_index,
            final(self).primary_target == old(self).primary_target,
            final(self).backup_target == old(self).backup_target,
    {
        let mut b = self.backends.remove(id);
        let ghost b0 = b;
        b.fetch_sub_connection(1);
        proof {
            assert(b == conn_released(b0));
        }
        self.backends.insert(id, b);
        proof {
            assert(self.backends@ =~= old(self).backends@.update(id as int, conn_released(old(self).backends@[id as int])));
            self.lemma_wf_conns_only(*old(self));
        }
    }

    /// Moves backups to the end of the primary queue, oldest first, until the
    /// primary queue reaches its target or no backup is left. Gives the number
    /// moved; the prober is told to resume in any case.
    pub fn refill_from_backup(&mut self) -> (promoted: usize)
        requires
            old(self).wf(),
        ensures
            final(self).wf(),
            promoted == (if old(self).primary.len() >= old(self).primary_target {
                0
            } else if old(self).primary_target - old(self).primary.len() < old(self).backup.len() {
                (old(self).primary_target - old(self).primary.len()) as usize
            } else {
                old(self).backup.len()
            }),
            final(self).primary@ == old(self).primary@ + old(self).backup@.take(promoted as int),
            final(self).min_active_target == old(self).min_active_target,
            final(self).primary_index == old(self).primary_index,
            final(self).backup@ == old(self).backup@.skip(promoted as int),
            final(self).backends@ == old(self).backends@,
            final(self).ip_set@ == old(self).ip_set@,
            final(self).sticky_slots@ == old(self).sticky_slots@,
            final(self).primary_target == old(self).primary_target,
            final(self).backup_target == old(self).backup_target,
    {
        let ghost p0 = self.primary@;
        let ghost b0 = self.backup@;
        let mut promoted: usize = 0;
        while self.primary.len() < self.primary_target && self.backup.len() > 0
            invariant
                promoted <= b0.len(),
                self.primary@ == p0 + b0.take(promoted as int),
                self.backup@ == b0.skip(promoted as int),
                self.backends@ == old(self).backends@,
                self.ip_set@ == old(self).ip_set@,
                self.sticky_slots@ == old(self).sticky_slots@,
                self.primary_target == old(self).primary_target,
                self.backup_target == old(self).backup_target,
                self.min_active_target == old(self).min_active_target,
                self.primary_index == old(self).primary_index,
                p0 == old(self).primary@,
                b0 == old(self).backup@,
                p0.len() + promoted <= self.primary_target || promoted == 0,
            decreases self.backup.len(),
        {
            let id = self.backup.remove(0);
            self.primary.push(id);
            promoted = promoted + 1;
            proof {
                assert(b0.take(promoted as int) =~= b0.take(promoted - 1).push(b0[promoted - 1]));
                assert(self.backup@ =~= b0.skip(promoted as int));
            }
        }
        proof {
            let k = promoted as int;
            lemma_take_skip_no_dups(b0, k);
            assert forall|x: usize| p0.contains(x) implies !b0.take(k).contains(x) by {}
            lemma_concat_no_dups(p0, b0.take(k));
            assert forall|x: usize| #[trigger] self.queued(x) <==> old(self).queued(x) by {
                if b0.contains(x) {
                    let j = choose|j: int| 0 <= j < b0.len() && b0[j] == x;
                    if j < k {
                        assert(b0.take(k)[j] == x);
                    } else {
                        assert(b0.skip(k)[j - k] == x);
                    }
                }
            }
            assert forall|id: usize| #[trigger] self.primary@.contains(id) implies !self.backup@.contains(id) by {
                if p0.contains(id) {
                    assert(!b0.contains(id));
                }
            }
            assert forall|a: usize, b: usize| self.queued(a) && self.queued(b) && a != b
                implies self.backends@[a as int].addr.ip != self.backends@[b as int].addr.ip by {
                assert(old(self).queued(a) && old(self).queued(b));
            }
        }
        promoted
    }

    /// The ids of the primary queue.
    pub fn get_primary_backends(&self) -> (r: Vec<usize>)
        ensures
            r@ == self.primary@,
    {
        self.primary.clone()
    }

    /// The ids of the backup queue.
    pub fn get_backup_backends(&self) -> (r: Vec<usize>)
        ensures
            r@ == self.backup@,
    {
        self.backup.clone()
    }

    /// The addresses of the sticky slots' backends, in slot order.
    pub fn get_sticky_ips(&self) -> (r: Vec<IpAddr>)
        requires
            self.wf(),
        ensures
            r@.len() == self.sticky_slots@.len(),
            forall|k: int| 0 <= k < r@.len() ==> r@[k] == self.backends@[self.sticky_slots@[k].backend as int].addr.ip,
    {
        let mut r: Vec<IpAddr> = Vec::new();
        let mut k: usize = 0;
        while k < self.sticky_slots.len()
            invariant
                self.wf(),
                k <= self.sticky_slots.len(),
                r@.len() == k,
                forall|j: int| 0 <= j < k ==> r@[j] == self.backends@[self.sticky_slots@[j].backend as int].addr.ip,
            decreases self.sticky_slots.len() - k,
        {
            let id = self.sticky_slots[k].backend;
            r.push(self.backends[id].addr.ip);
            k = k + 1;
        }
        r
    }
}

/// Giving back the connection that `select` handed out leaves the backends
/// as they were: `select` turns the backends `bs` into
/// `bs.update(id, conn_added(bs[id]))`, and `release(id)` then restores `bs`.
pub proof fn law_release_undoes_select(bs: Seq<Backend>, id: int)
    requires
        0 <= id < bs.len(),
    ensures
        ({
            let s = bs.update(id, conn_added(bs[id]));
            s.update(id, conn_released(s[id]))
        }) == bs,
{
    let s = bs.update(id, conn_added(bs[id]));
    assert(conn_released(conn_added(bs[id])) == bs[id]);
    assert(s.update(id, conn_released(s[id])) =~= bs);
}

} // verus!
