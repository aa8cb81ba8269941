use cfnat::backend::{Backend, BackendState, UNSET_METRIC_BITS};
use cfnat::balancer::{backup_target_of, AddResult, LoadBalancer};
use cfnat::net::{IpAddr, SocketAddr};
use cfnat::upkeep::{BackendOp, HealthAction, HealthObservation, RemoveReason};

fn addr(last: u32) -> SocketAddr {
    SocketAddr { ip: IpAddr::V4(0x0a00_0000 | last), port: 443, scope_id: 0 }
}

fn filled() -> LoadBalancer {
    let mut lb = LoadBalancer::new(2, 1000);
    assert_eq!(lb.try_add_backend(addr(1), 100, None, 1000), AddResult::AddedToPrimary);
    assert_eq!(lb.try_add_backend(addr(2), 200, Some("HKG".to_string()), 1000), AddResult::AddedToPrimary);
    assert_eq!(lb.try_add_backend(addr(3), 300, None, 1000), AddResult::AddedToBackup);
    assert_eq!(lb.try_add_backend(addr(4), 400, None, 1000), AddResult::AddedToBackup);
    lb
}

#[test]
fn targets() {
    assert_eq!(backup_target_of(0), 2);
    assert_eq!(backup_target_of(3), 2);
    assert_eq!(backup_target_of(7), 4);
    assert_eq!(backup_target_of(10), 5);
    assert_eq!(backup_target_of(100), 10);
    let lb = LoadBalancer::new(10, 5);
    assert_eq!(lb.get_primary_target(), 10);
    assert_eq!(lb.get_backup_target(), 5);
    assert_eq!(lb.min_active_target, 5);
    assert_eq!(lb.get_next_health_check_secs(5), 0);
}

#[test]
fn queues_fill_in_order_and_refuse_duplicates() {
    let mut lb = filled();
    assert_eq!(lb.try_add_backend(addr(5), 500, None, 1000), AddResult::QueueFull);
    assert_eq!(lb.try_add_backend(SocketAddr { port: 80, ..addr(1) }, 1, None, 1000), AddResult::AlreadyExists);
    assert!(lb.contains(IpAddr::V4(0x0a00_0001)));
    assert!(!lb.contains(IpAddr::V4(0x0a00_0005)));
    assert!(lb.primary_full() && lb.backup_full() && lb.should_pause());
    assert_eq!(lb.get_primary_backends(), vec![0, 1]);
    assert_eq!(lb.get_backup_backends(), vec![2, 3]);
    assert_eq!(lb.get_primary_count(), 2);
    assert_eq!(lb.get_backup_count(), 2);
    let b = &lb.backends[1];
    assert_eq!(b.state, BackendState::Warming);
    assert_eq!(b.avg_delay_bits, 200);
    assert_eq!(b.avg_loss_bits, 0);
    assert_eq!(b.get_colo(), Some("HKG".to_string()));
}

#[test]
fn select_alternates_and_release_undoes_it() {
    let mut lb = filled();
    assert_eq!(lb.select(2000), Some(0));
    assert_eq!(lb.select(2000), Some(1));
    assert_eq!(lb.select(2000), Some(0));
    assert_eq!(lb.backends[0].connections(), 2);
    lb.release(0);
    assert_eq!(lb.backends[0].connections(), 1);
    lb.release(0);
    lb.release(1);
    assert_eq!(lb.backends[0].connections(), 0);
    assert_eq!(lb.backends[1].connections(), 0);
}

#[test]
fn select_from_empty_queues() {
    let mut lb = LoadBalancer::new(3, 0);
    assert_eq!(lb.select(1), None);
}

#[test]
fn refill_moves_oldest_backups() {
    let mut lb = filled();
    lb.update_primary_target(4);
    assert_eq!(lb.refill_from_backup(), 2);
    assert_eq!(lb.get_primary_backends(), vec![0, 1, 2, 3]);
    assert!(lb.get_backup_backends().is_empty());
    assert_eq!(lb.refill_from_backup(), 0);
}

#[test]
fn evicting_the_worst_primary_promotes_a_backup() {
    let mut lb = filled();
    let keys = vec![10u64, 20u64];
    assert_eq!(lb.worst_primary(&keys), Some(1));
    assert_eq!(lb.evict_worst_and_refill(&keys, 3000), Some(1));
    assert!(lb.backends[1].is_removed());
    assert_eq!(lb.get_primary_backends(), vec![0, 2]);
    assert_eq!(lb.get_backup_backends(), vec![3]);
    assert!(lb.backends[2].is_active());
}

#[test]
fn cleanup_frees_removed_addresses() {
    let mut lb = filled();
    lb.apply_op(3, BackendOp::MarkRemoved(50));
    assert_eq!(lb.cleanup_removed(), 1);
    assert_eq!(lb.get_backup_backends(), vec![2]);
    assert!(!lb.contains(IpAddr::V4(0x0a00_0004)));
    assert!(lb.contains(IpAddr::V4(0x0a00_0003)));
    assert_eq!(lb.try_add_backend(addr(4), 9, None, 60), AddResult::AddedToBackup);
}

#[test]
fn health_decisions() {
    let mut lb = filled();
    assert_eq!(lb.health_action(0, HealthObservation::ColoMismatch, true), HealthAction::Remove(RemoveReason::ColoMismatch));
    assert_eq!(lb.health_action(0, HealthObservation::Measured { over_limits: true }, true), HealthAction::Nothing);
    for _ in 0..60 {
        lb.record_delay(0, 1, 2);
        lb.record_delay(2, 1, 2);
    }
    assert_eq!(lb.backends[0].get_sample_count(), 50);
    assert_eq!(lb.health_action(0, HealthObservation::Measured { over_limits: true }, true), HealthAction::Isolate);
    assert_eq!(
        lb.health_action(2, HealthObservation::Measured { over_limits: true }, false),
        HealthAction::Remove(RemoveReason::Underperforming)
    );
    assert_eq!(lb.health_action(0, HealthObservation::Measured { over_limits: false }, true), HealthAction::Recover);
    assert_eq!(lb.health_action(0, HealthObservation::NoResponse { loss_over_limit: false }, true), HealthAction::Nothing);
    lb.apply_op(0, BackendOp::Failure);
    lb.apply_op(0, BackendOp::Failure);
    lb.apply_op(0, BackendOp::Failure);
    assert_eq!(lb.health_action(0, HealthObservation::NoResponse { loss_over_limit: false }, true), HealthAction::Isolate);
    assert_eq!(
        lb.health_action(2, HealthObservation::NoResponse { loss_over_limit: true }, false),
        HealthAction::Remove(RemoveReason::Unresponsive)
    );
}

#[test]
fn applying_health_decisions() {
    let mut lb = filled();
    let keys = vec![1u64, 1u64];
    assert!(lb.apply_health_action(0, HealthAction::Isolate, true, &keys, 10));
    assert!(lb.backends[0].is_isolated());
    assert!(!lb.apply_health_action(0, HealthAction::Recover, true, &keys, 20));
    assert!(lb.backends[0].is_active());
    assert_eq!(lb.backends[0].entered_state_at_ms, 20);
    let keys = vec![1u64, 1u64];
    assert!(lb.apply_health_action(1, HealthAction::Remove(RemoveReason::Unresponsive), true, &keys, 30));
    assert!(lb.backends[1].is_removed());
    assert_eq!(lb.get_primary_backends(), vec![0, 1]);
    assert_eq!(lb.count_active(), 1);
    assert!(!lb.apply_health_action(2, HealthAction::Nothing, false, &keys, 40));
}

#[test]
fn isolation_keeps_enough_active_primaries() {
    let mut lb = filled();
    for _ in 0..25 {
        lb.record_loss(1, 3, 4);
    }
    let keys = vec![5u64, 7u64];
    assert!(!lb.check_and_evict(0, true, &keys, 100));
    assert!(!lb.check_and_evict(1, false, &keys, 100));
    assert!(lb.check_and_evict(1, true, &keys, 100));
    assert!(lb.backends[1].is_removed() || lb.backends[1].is_isolated());
}

#[test]
fn warming_backends_become_active() {
    let mut lb = filled();
    lb.check_warming_backends(true, 60_999);
    assert!(lb.backends[0].is_warming());
    lb.check_warming_backends(true, 61_000);
    assert!(lb.backends[0].is_active() && lb.backends[1].is_active());
    assert!(lb.backends[2].is_warming());
}

#[test]
fn sorting_backups_by_key() {
    let mut lb = filled();
    lb.sort_backup(&vec![9u64, 3u64]);
    assert_eq!(lb.get_backup_backends(), vec![3, 2]);
    lb.sort_backup(&vec![5u64, 5u64]);
    assert_eq!(lb.get_backup_backends(), vec![3, 2]);
}

#[test]
fn sticky_slots_grow_and_take_traffic() {
    let mut lb = filled();
    lb.sticky_tick(5000, 1000);
    assert_eq!(lb.sticky_slots.len(), 1);
    assert_eq!(lb.sticky_slots[0].backend, 0);
    assert_eq!(lb.sticky_slots[0].interval_ms, 10_000);
    assert_eq!(lb.last_expand_ms, 1000);
    lb.sticky_tick(6000, 11_000);
    assert_eq!(lb.sticky_slots.len(), 2);
    assert_eq!(lb.sticky_slots[1].backend, 1);
    assert_eq!(lb.sticky_slots[1].interval_ms, 15_000);
    assert_eq!(lb.get_sticky_ips(), vec![IpAddr::V4(0x0a00_0001), IpAddr::V4(0x0a00_0002)]);
    let picked = lb.select(12_000).unwrap();
    assert!(picked == 0 || picked == 1);
    lb.sticky_tick(6000, 40_000);
    assert_eq!(lb.sticky_slots.len(), 1);
}

#[test]
fn backend_records_and_states() {
    let mut b = Backend::new(addr(9), 7);
    assert_eq!(b.avg_delay_bits, UNSET_METRIC_BITS);
    assert!(b.is_warming() && b.is_selectable());
    assert!(b.record_delay(11, 22));
    assert_eq!(b.avg_delay_bits, 11);
    assert!(!b.record_delay(33, 44));
    assert_eq!(b.avg_delay_bits, 44);
    assert_eq!(b.get_sample_count(), 2);
    b.record_failure();
    b.record_failure();
    assert_eq!(b.consecutive_failures(), 2);
    b.record_success();
    assert_eq!(b.consecutive_failures(), 0);
    b.mark_isolated(9);
    assert!(b.is_isolated() && !b.is_selectable());
    b.mark_active(10);
    assert!(b.is_active());
    b.mark_removed(11);
    assert!(b.is_removed());
    b.fetch_sub_connection(1);
    assert_eq!(b.connections(), usize::MAX);
    b.fetch_add_connection(1);
    assert_eq!(b.connections(), 0);
    assert!(!Backend::new(addr(9), 0).check_warming_expired(59_999));
    assert!(Backend::new(addr(9), 0).check_warming_expired(60_000));
}

#[test]
fn removing_an_address_frees_it() {
    let mut lb = filled();
    lb.remove_backend(IpAddr::V4(0x0a00_0002));
    assert_eq!(lb.get_primary_backends(), vec![0]);
    assert!(!lb.contains(IpAddr::V4(0x0a00_0002)));
    lb.remove_backend(IpAddr::V4(0x0a00_0003));
    assert_eq!(lb.get_backup_backends(), vec![3]);
    lb.remove_backend(IpAddr::V4(99));
    assert_eq!(lb.get_primary_count(), 1);
    assert_eq!(lb.get_backup_count(), 1);
    assert_eq!(lb.try_add_backend(addr(2), 5, None, 0), AddResult::AddedToPrimary);
}

fn cand(last: u32, delay: u32) -> cfnat::httping::Candidate {
    cfnat::httping::Candidate { addr: addr(last), delay_bits: delay, colo: None, success_count: 4 }
}

#[test]
fn cached_candidates_fill_the_queues_in_order() {
    let mut lb = LoadBalancer::new(1, 0);
    let mut cache = std::collections::VecDeque::new();
    cache.push_back(cand(1, 10));
    cache.push_back(cand(2, 20));
    cache.push_back(cand(2, 30));
    cache.push_back(cand(4, 40));
    let r = cfnat::httping::fill_from_cache(&mut cache, &mut lb, 5);
    assert_eq!(r, vec![AddResult::AddedToPrimary, AddResult::AddedToBackup]);
    assert_eq!(cache.len(), 2);
    assert_eq!(cache[0].delay_bits, 30);
    assert_eq!(lb.get_primary_backends(), vec![0]);
    assert_eq!(lb.get_backup_backends(), vec![1]);
    assert_eq!(lb.backends[1].avg_delay_bits, 20);
    assert_eq!(lb.backends[1].entered_state_at_ms, 5);
}

#[test]
fn probe_results_are_offered_or_cached() {
    let mut lb = LoadBalancer::new(1, 0);
    let mut cache = std::collections::VecDeque::new();
    assert_eq!(cfnat::httping::offer_result(&mut cache, &mut lb, cand(1, 1), true, true, 0), None);
    assert_eq!(cfnat::httping::offer_result(&mut cache, &mut lb, cand(1, 1), false, false, 0), None);
    assert_eq!(cfnat::httping::offer_result(&mut cache, &mut lb, cand(1, 1), false, true, 0), Some(AddResult::AddedToPrimary));
    assert_eq!(cfnat::httping::offer_result(&mut cache, &mut lb, cand(2, 1), false, true, 0), Some(AddResult::AddedToBackup));
    assert_eq!(cfnat::httping::offer_result(&mut cache, &mut lb, cand(3, 1), false, true, 0), Some(AddResult::AddedToBackup));
    assert_eq!(cfnat::httping::offer_result(&mut cache, &mut lb, cand(4, 1), false, true, 0), Some(AddResult::QueueFull));
    assert_eq!(cache.len(), 1);
    assert_eq!(cfnat::httping::offer_result(&mut cache, &mut lb, cand(1, 1), false, true, 0), Some(AddResult::AlreadyExists));
    assert_eq!(cache.len(), 1);
    assert_eq!(lb.backends.len(), 3);
}

#[test]
fn sticky_slots_stay_within_their_limit() {
    let mut lb = filled().with_max_sticky_slots(1);
    for t in 0..40u64 {
        lb.sticky_tick(t * 1000, t * 11_000);
        assert!(lb.sticky_slots.len() <= 1);
    }
    assert_eq!(lb.sticky_slots.len(), 1);
}

#[test]
fn new_backends_start_idle_and_share_the_picks() {
    let mut lb = LoadBalancer::new(2, 0);
    let a = SocketAddr { ip: IpAddr::V4(0x0101_0101), port: 443, scope_id: 0 };
    let b = SocketAddr { ip: IpAddr::V4(0x0202_0202), port: 443, scope_id: 0 };
    lb.add_to_primary(a, 10, 0, None, 0);
    lb.add_to_primary(b, 10, 0, None, 0);
    assert_eq!(lb.backends[0].connections(), 0);
    assert_eq!(lb.backends[1].connections(), 0);
    let s1 = lb.select(5).unwrap();
    assert_eq!(lb.backends[s1].addr, a);
    let s2 = lb.select(5).unwrap();
    assert_eq!(lb.backends[s2].addr, b);
    assert_eq!(lb.backends[0].connections(), 1);
    assert_eq!(lb.backends[1].connections(), 1);
}

#[test]
fn sticky_upkeep_keeps_addresses_distinct_and_grows_by_one_at_most() {
    let mut lb = LoadBalancer::new(4, 0);
    for k in 1..=4u32 {
        assert_eq!(lb.try_add_backend(addr(k), 100 * k, None, 0), AddResult::AddedToPrimary);
    }
    let mut prev = 0usize;
    for t in 1..30u64 {
        lb.sticky_tick(t * 7_000, t * 9_000);
        let ips = lb.get_sticky_ips();
        assert!(ips.len() <= prev + 1);
        for i in 0..ips.len() {
            for j in 0..i {
                assert_ne!(ips[i], ips[j]);
            }
        }
        for s in lb.sticky_slots.iter() {
            assert!(lb.backends[s.backend].is_selectable());
            assert!(t * 9_000 - s.last_access_ms < 15_000);
        }
        prev = ips.len();
    }
    assert!(prev >= 1);
}

#[test]
fn probe_cache_never_holds_more_than_a_window() {
    let mut lb = LoadBalancer::new(1, 0);
    let mut cache = std::collections::VecDeque::new();
    assert_eq!(cfnat::httping::offer_result(&mut cache, &mut lb, cand(1, 1), false, true, 0), Some(AddResult::AddedToPrimary));
    assert_eq!(cfnat::httping::offer_result(&mut cache, &mut lb, cand(2, 1), false, true, 0), Some(AddResult::AddedToBackup));
    assert_eq!(cfnat::httping::offer_result(&mut cache, &mut lb, cand(3, 1), false, true, 0), Some(AddResult::AddedToBackup));
    for k in 10..100u32 {
        let r = cfnat::httping::offer_result(&mut cache, &mut lb, cand(k, 1), false, true, 0);
        assert_eq!(r, Some(AddResult::QueueFull));
        assert!(cache.len() <= 50);
    }
    assert_eq!(cache.len(), 50);
    assert_eq!(cache[49].addr, addr(59));
    assert_eq!(cfnat::httping::offer_result(&mut cache, &mut lb, cand(200, 1), true, true, 0), None);
    assert_eq!(cache.len(), 50);
}

#[test]
fn adding_backends_leaves_the_round_robin_and_settings_alone() {
    let mut lb = LoadBalancer::new(2, 0).with_max_sticky_slots(3);
    lb.primary_index = 1;
    lb.last_expand_ms = 77;
    lb.set_next_health_check_ms(900);
    lb.add_to_primary(addr(1), 10, 0, None, 0);
    lb.add_to_backup(addr(2), 10, 0, None, 0);
    assert_eq!(lb.try_add_backend(addr(3), 10, None, 0), AddResult::AddedToPrimary);
    assert_eq!(lb.primary_index, 1);
    assert_eq!(lb.last_expand_ms, 77);
    assert_eq!(lb.max_sticky_slots, 3);
    assert_eq!(lb.next_health_check_ms, 900);
}

#[test]
fn a_zero_slot_limit_still_keeps_one_slot() {
    let mut lb = filled().with_max_sticky_slots(0);
    for t in 1..20u64 {
        lb.sticky_tick(t * 20_000, t * 1_000);
        assert_eq!(lb.sticky_slots.len(), 1);
    }
}
