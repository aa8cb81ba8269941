//! One forwarding target: its address, its state in the balancer's life
//! cycle, its open connections, its failure streak, and the bit patterns of
//! its two moving averages (mean delay and loss rate), which the caller
//! computes.
use vstd::prelude::*;

use crate::config::{SAMPLE_WINDOW, WARMING_DURATION_SECS};
use crate::net::SocketAddr;

verus! {

/// The bit pattern of the metric a new backend starts with (-1).
pub const UNSET_METRIC_BITS: u32 = 0xbf80_0000;

/// Where a backend is in its life cycle.
#[derive(Clone, Copy, PartialEq, Eq, Debug, Structural)]
pub enum BackendState {
    Warming,
    Active,
    Isolated,
    Removed,
}

/// A forwarding target.
pub struct Backend {
    pub addr: SocketAddr,
    pub colo: Option<String>,
    pub connections: usize,
    pub avg_delay_bits: u32,
    pub avg_loss_bits: u32,
    pub sample_count: usize,
    pub state: BackendState,
    pub entered_state_at_ms: u64,
    pub consecutive_failures: u32,
}

/// The view of an optional string.
pub open spec fn opt_view(s: Option<String>) -> Option<Seq<char>> {
    match s {
        Some(v) => Some(v@),
        None => None,
    }
}

/// A copy of an optional string.
pub fn clone_opt_string(s: &Option<String>) -> (r: Option<String>)
    ensures
        opt_view(r) == opt_view(*s),
{
    match s {
        Some(v) => Some(v.clone()),
        None => None,
    }
}

/// The sample count after one more sample: 1 after the first, then one
/// more each time up to the window.
pub open spec fn next_sample_count(c: usize) -> usize {
    if c == 0 {
        1
    } else if c + 1 < SAMPLE_WINDOW {
        (c + 1) as usize
    } else {
        SAMPLE_WINDOW
    }
}

/// A backend never counts more samples than the window: each sample adds
/// one until the window is full.
pub proof fn law_sample_count_bounded(c: usize)
    requires
        c <= SAMPLE_WINDOW,
    ensures
        next_sample_count(c) <= SAMPLE_WINDOW,
        0 < next_sample_count(c),
        c < SAMPLE_WINDOW ==> next_sample_count(c) == c + 1,
{
}

/// `x + y` wrapped to the width of `usize`.
pub open spec fn usize_add_wrap(x: usize, y: usize) -> usize {
    if x + y > usize::MAX {
        (x + y - (usize::MAX + 1)) as usize
    } else {
        (x + y) as usize
    }
}

/// `x - y` wrapped to the width of `usize`.
pub open spec fn usize_sub_wrap(x: usize, y: usize) -> usize {
    if x - y < 0 {
        (x - y + (usize::MAX + 1)) as usize
    } else {
        (x - y) as usize
    }
}

impl Backend {
    /// A new, warming backend with unset metrics; `now_ms` is the monotonic
    /// clock.
    pub fn new(addr: SocketAddr, now_ms: u64) -> (r: Backend)
        ensures
            r.addr == addr,
            r.colo is None,
            r.connections == 0,
            r.avg_delay_bits == UNSET_METRIC_BITS,
            r.avg_loss_bits == UNSET_METRIC_BITS,
            r.sample_count == 0,
            r.state == BackendState::Warming,
            r.entered_state_at_ms == now_ms,
            r.consecutive_failures == 0,
    {
        Backend {
            addr,
            colo: None,
            connections: 0,
            avg_delay_bits: UNSET_METRIC_BITS,
            avg_loss_bits: UNSET_METRIC_BITS,
            sample_count: 0,
            state: BackendState::Warming,
            entered_state_at_ms: now_ms,
            consecutive_failures: 0,
        }
    }

    /// A new, warming backend with the given metrics and data center.
    pub fn new_with_initial(
        addr: SocketAddr,
        initial_delay_bits: u32,
        initial_loss_bits: u32,
        colo: Option<String>,
        now_ms: u64,
    ) -> (r: Backend)
        ensures
            r.addr == addr,
            opt_view(r.colo) == opt_view(colo),
            r.connections == 0,
            r.avg_delay_bits == initial_delay_bits,
            r.avg_loss_bits == initial_loss_bits,
            r.sample_count == 0,
            r.state == BackendState::Warming,
            r.entered_state_at_ms == now_ms,
            r.consecutive_failures == 0,
    {
        Backend {
            addr,
            colo,
            connections: 0,
            avg_delay_bits: initial_delay_bits,
            avg_loss_bits: initial_loss_bits,
            sample_count: 0,
            state: BackendState::Warming,
            entered_state_at_ms: now_ms,
            consecutive_failures: 0,
        }
    }

    /// Sets the data center.
    pub fn set_colo(&mut self, colo: Option<String>)
        ensures
            *final(self) == (Backend { colo, ..*old(self) }),
    {
        self.colo = colo;
    }

    /// The data center.
    pub fn get_colo(&self) -> (r: Option<String>)
        ensures
            opt_view(r) == opt_view(self.colo),
    {
        clone_opt_string(&self.colo)
    }

    /// Records a delay sample: the first sample replaces the mean, later ones
    /// blend into it; the caller gives the bit patterns of both outcomes, the
    /// sample itself and the blend.
    pub fn record_delay(&mut self, sample_bits: u32, blended_bits: u32) -> (is_first: bool)
        ensures
            is_first == (old(self).sample_count == 0),
            final(self).sample_count == next_sample_count(old(self).sample_count),
            *final(self) == (Backend {
                sample_count: next_sample_count(old(self).sample_count),
                avg_delay_bits: if is_first {
                    sample_bits
                } else {
                    blended_bits
                },
                ..*old(self)
            }),
    {
        let is_first = self.sample_count == 0;
        self.sample_count = if self.sample_count == 0 {
            1
        } else if self.sample_count < SAMPLE_WINDOW - 1 {
            self.sample_count + 1
        } else {
            SAMPLE_WINDOW
        };
        self.avg_delay_bits = if is_first {
            sample_bits
        } else {
            blended_bits
        };
        is_first
    }

    /// Records a loss sample, like `record_delay` for the loss rate.
    pub fn record_loss(&mut self, sample_bits: u32, blended_bits: u32) -> (is_first: bool)
        ensures
            is_first == (old(self).sample_count == 0),
            final(self).sample_count == next_sample_count(old(self).sample_count),
            *final(self) == (Backend {
                sample_count: next_sample_count(old(self).sample_count),
                avg_loss_bits: if is_first {
                    sample_bits
                } else {
                    blended_bits
                },
                ..*old(self)
            }),
    {
        let is_first = self.sample_count == 0;
        self.sample_count = if self.sample_count == 0 {
            1
        } else if self.sample_count < SAMPLE_WINDOW - 1 {
            self.sample_count + 1
        } else {
            SAMPLE_WINDOW
        };
        self.avg_loss_bits = if is_first {
            sample_bits
        } else {
            blended_bits
        };
        is_first
    }

    /// The number of samples.
    pub fn get_sample_count(&self) -> (r: usize)
        ensures
            r == self.sample_count,
    {
        self.sample_count
    }

    pub fn is_removed(&self) -> (r: bool)
        ensures
            r == (self.state == BackendState::Removed),
    {
        self.state == BackendState::Removed
    }

    pub fn is_warming(&self) -> (r: bool)
        ensures
            r == (self.state == BackendState::Warming),
    {
        self.state == BackendState::Warming
    }

    pub fn is_active(&self) -> (r: bool)
        ensures
            r == (self.state == BackendState::Active),
    {
        self.state == BackendState::Active
    }

    pub fn is_isolated(&self) -> (r: bool)
        ensures
            r == (self.state == BackendState::Isolated),
    {
        self.state == BackendState::Isolated
    }

    /// Whether the backend may take traffic: active or warming.
    pub open spec fn selectable(self) -> bool {
        self.state == BackendState::Active || self.state == BackendState::Warming
    }

    /// Whether the backend may take traffic.
    pub fn is_selectable(&self) -> (r: bool)
        ensures
            r == self.selectable(),
    {
        self.state == BackendState::Active || self.state == BackendState::Warming
    }

    /// Enters `state` at `now_ms`.
    fn enter(&mut self, state: BackendState, now_ms: u64)
        ensures
            *final(self) == (Backend { state, entered_state_at_ms: now_ms, ..*old(self) }),
    {
        self.state = state;
        self.entered_state_at_ms = now_ms;
    }

    /// Marks the backend removed.
    pub fn mark_removed(&mut self, now_ms: u64)
        ensures
            *final(self) == (Backend {
                state: BackendState::Removed,
                entered_state_at_ms: now_ms,
                ..*old(self)
            }),
    {
        self.enter(BackendState::Removed, now_ms);
    }

    /// Marks the backend active and clears its failure streak.
    pub fn mark_active(&mut self, now_ms: u64)
        ensures
            *final(self) == (Backend {
                state: BackendState::Active,
                entered_state_at_ms: now_ms,
                consecutive_failures: 0,
                ..*old(self)
            }),
    {
        self.enter(BackendState::Active, now_ms);
        self.consecutive_failures = 0;
    }

    /// Marks the backend isolated.
    pub fn mark_isolated(&mut self, now_ms: u64)
        ensures
            *final(self) == (Backend {
                state: BackendState::Isolated,
                entered_state_at_ms: now_ms,
                ..*old(self)
            }),
    {
        self.enter(BackendState::Isolated, now_ms);
    }

    /// Clears the failure streak.
    pub fn record_success(&mut self)
        ensures
            *final(self) == (Backend { consecutive_failures: 0, ..*old(self) }),
    {
        self.consecutive_failures = 0;
    }

    /// Lengthens the failure streak, wrapping.
    pub fn record_failure(&mut self)
        ensures
            *final(self) == (Backend {
                consecutive_failures: if old(self).consecutive_failures == u32::MAX {
                    0
                } else {
                    (old(self).consecutive_failures + 1) as u32
                },
                ..*old(self)
            }),
    {
        self.consecutive_failures = self.consecutive_failures.wrapping_add(1);
    }


    /// The failure streak.
    pub fn consecutive_failures(&self) -> (r: u32)
        ensures
            r == self.consecutive_failures,
    {
        self.consecutive_failures
    }

    /// Whether the warming period has passed: warming, and at least the
    /// warming duration in whole seconds since the state was entered.
    pub open spec fn warming_expired(self, now_ms: u64) -> bool {
        self.state == BackendState::Warming && (if now_ms >= self.entered_state_at_ms {
            (now_ms - self.entered_state_at_ms) / 1000
        } else {
            0
        }) >= WARMING_DURATION_SECS
    }

    /// Whether the warming period has passed, as `warming_expired` says.
    pub fn check_warming_expired(&self, now_ms: u64) -> (r: bool)
        ensures
            r == self.warming_expired(now_ms),
    {
        if self.is_warming() {
            let elapsed = now_ms.saturating_sub(self.entered_state_at_ms) / 1000;
            elapsed >= WARMING_DURATION_SECS
        } else {
            false
        }
    }

    /// The open connections.
    pub fn connections(&self) -> (r: usize)
        ensures
            r == self.connections,
    {
        self.connections
    }

    /// Adds to the open connections, wrapping.
    pub fn fetch_add_connection(&mut self, val: usize)
        ensures
            *final(self) == (Backend {
                connections: usize_add_wrap(old(self).connections, val),
                ..*old(self)
            }),
    {
        self.connections = self.connections.wrapping_add(val);
    }

    /// Takes from the open connections, wrapping.
    pub fn fetch_sub_connection(&mut self, val: usize)
        ensures
            *final(self) == (Backend {
                connections: usize_sub_wrap(old(self).connections, val),
                ..*old(self)
            }),
    {
        self.connections = self.connections.wrapping_sub(val);
    }

}

} // verus!
