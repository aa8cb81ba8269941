//! The tuning constants of the balancer and the prober.
//!
//! The smoothing factor of the moving averages (2 / (window + 1)) and the
//! largest score ratio (5) are real numbers; the caller holds them.
use vstd::prelude::*;

verus! {

/// The window of the moving averages, in samples.
pub const SAMPLE_WINDOW: usize = 50;

/// The sample count from which a backend is judged for eviction
/// (40% of the window).
pub const EVICT_THRESHOLD: usize = 20;

/// The largest backup queue.
pub const MAX_BACKUP_TARGET: usize = 10;

/// Probes per address in one measurement.
pub const PING_TIMES: u8 = 4;

/// Health probes run at once.
pub const HEALTH_CHECK_CONCURRENCY: usize = 2;

/// The period of the backup queue's health check, in milliseconds.
pub const HEALTH_CHECK_INTERVAL_MS: u64 = 25000;

/// The period of the primary queue's health check, in milliseconds.
pub const PRIMARY_HEALTH_CHECK_INTERVAL_MS: u64 = 120000;

/// How long a new backend stays warming, in seconds.
pub const WARMING_DURATION_SECS: u64 = 60;

/// The first sticky slot's switch interval, in seconds.
pub const STICKY_BASE_INTERVAL_SECS: u64 = 10;

/// What each further sticky slot adds to its switch interval, in seconds.
pub const STICKY_INCREMENT_INTERVAL_SECS: u64 = 5;

/// The default largest number of sticky slots.
pub const MAX_STICKY_SLOTS: usize = 5;

/// How long an unused sticky slot lives, in milliseconds.
pub const STICKY_SLOT_TTL_MS: u64 = 15000;

/// The least time between two sticky slot expansions, in milliseconds.
pub const STICKY_SLOT_EXPAND_INTERVAL_MS: u64 = 10000;

/// The integer tuning constants, in one value.
#[derive(Clone, Copy, PartialEq, Eq, Debug, Structural)]
pub struct Config {
    pub sample_window: usize,
    pub evict_threshold: usize,
    pub max_backup_target: usize,
    pub ping_times: u8,
    pub health_check_concurrency: usize,
    pub health_check_interval_ms: u64,
    pub warming_duration_secs: u64,
    pub sticky_base_interval_secs: u64,
    pub sticky_increment_interval_secs: u64,
    pub max_sticky_slots: usize,
    pub sticky_slot_ttl_ms: u64,
    pub sticky_slot_expand_interval_ms: u64,
}

impl Config {
    /// The constants above.
    pub fn new() -> (r: Config)
        ensures
            r == (Config {
                sample_window: SAMPLE_WINDOW,
                evict_threshold: EVICT_THRESHOLD,
                max_backup_target: MAX_BACKUP_TARGET,
                ping_times: PING_TIMES,
                health_check_concurrency: HEALTH_CHECK_CONCURRENCY,
                health_check_interval_ms: HEALTH_CHECK_INTERVAL_MS,
                warming_duration_secs: WARMING_DURATION_SECS,
                sticky_base_interval_secs: STICKY_BASE_INTERVAL_SECS,
                sticky_increment_interval_secs: STICKY_INCREMENT_INTERVAL_SECS,
                max_sticky_slots: MAX_STICKY_SLOTS,
                sticky_slot_ttl_ms: STICKY_SLOT_TTL_MS,
                sticky_slot_expand_interval_ms: STICKY_SLOT_EXPAND_INTERVAL_MS,
            }),
    {
        Config {
            sample_window: SAMPLE_WINDOW,
            evict_threshold: EVICT_THRESHOLD,
            max_backup_target: MAX_BACKUP_TARGET,
            ping_times: PING_TIMES,
            health_check_concurrency: HEALTH_CHECK_CONCURRENCY,
            health_check_interval_ms: HEALTH_CHECK_INTERVAL_MS,
            warming_duration_secs: WARMING_DURATION_SECS,
            sticky_base_interval_secs: STICKY_BASE_INTERVAL_SECS,
            sticky_increment_interval_secs: STICKY_INCREMENT_INTERVAL_SECS,
            max_sticky_slots: MAX_STICKY_SLOTS,
            sticky_slot_ttl_ms: STICKY_SLOT_TTL_MS,
            sticky_slot_expand_interval_ms: STICKY_SLOT_EXPAND_INTERVAL_MS,
        }
    }
}

} // verus!
