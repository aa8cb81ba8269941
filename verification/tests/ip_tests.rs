use cfnat::ip::{calculate_sample_count, IpCidr, IpPool, IpSource};
use cfnat::net::IpAddr;

fn strings(v: &[&str]) -> Vec<String> {
    v.iter().map(|s| s.to_string()).collect()
}

#[test]
fn cidr_parsing_and_range() {
    let c = IpCidr::parse("1.2.3.77/24").unwrap();
    assert_eq!(c, IpCidr::V4(0x0102_034d, 24));
    assert_eq!(c.prefix_len(), 24);
    assert!(!c.is_single_host());
    assert_eq!(c.range_u128(), (0x0102_0300, 0x0102_03ff));
    assert_eq!(IpCidr::parse("0.0.0.0/0").unwrap().range_u128(), (0, 0xffff_ffff));
    assert_eq!(IpCidr::parse("::/0").unwrap().range_u128(), (0, u128::MAX));
    assert!(IpCidr::parse("1.2.3.4/32").unwrap().is_single_host());
    assert_eq!(IpCidr::parse("1.2.3.4/33"), None);
    assert_eq!(IpCidr::parse("1.2.3.4"), None);
    assert_eq!(IpCidr::parse("1.2.3.4/2/3"), None);
    assert_eq!(IpCidr::parse("2606:4700::/32"), Some(IpCidr::V6(0x2606_4700u128 << 96, 32)));
}

#[test]
fn sample_counts() {
    assert_eq!(calculate_sample_count(24, true), 5);
    assert_eq!(calculate_sample_count(30, true), 5);
    assert_eq!(calculate_sample_count(16, true), 1280);
    assert_eq!(calculate_sample_count(0, true), 5 << 24);
    assert_eq!(calculate_sample_count(48, false), 5);
    assert_eq!(calculate_sample_count(32, false), 5 << 16);
}

#[test]
fn pool_from_lines() {
    let pool = IpPool::new(&strings(&["1.1.1.1", "# note", "", "// x", "10.0.0.0/30=2", "junk", " 9.9.9.9/32 "]));
    assert_eq!(pool.total_count(), 4);
    assert_eq!(pool.sources.len(), 3);
    assert_eq!(pool.sources[0], IpSource::Single { ip: IpAddr::V4(0x0101_0101), consumed: false });
    assert_eq!(pool.sources[1], IpSource::Single { ip: IpAddr::V4(0x0909_0909), consumed: false });
    assert_eq!(
        pool.sources[2],
        IpSource::Cidr { start: 0x0a00_0000, interval_size: 2, last_size: 2, total_count: 2, current: 0, is_v6: false }
    );
}

#[test]
fn pool_draws_in_rounds() {
    let mut pool = IpPool::new(&strings(&["1.1.1.1", "10.0.0.0/30=2"]));
    assert_eq!(pool.total_count(), 3);
    assert!(pool.pop_would_return());
    assert_eq!(pool.pop(0), Some(IpAddr::V4(0x0101_0101)));
    assert_eq!(pool.pop(1), Some(IpAddr::V4(0x0a00_0001)));
    assert_eq!(pool.pop(0), Some(IpAddr::V4(0x0a00_0002)));
    assert_eq!(pool.pop(0), Some(IpAddr::V4(0x0101_0101)));
}

#[test]
fn empty_pool_gives_nothing() {
    let mut pool = IpPool::new(&strings(&["", "not an address"]));
    assert_eq!(pool.total_count(), 0);
    assert!(pool.pop_would_return());
    assert_eq!(pool.pop(7), None);
}

#[test]
fn source_rounds() {
    let mut s = IpSource::Single { ip: IpAddr::V4(7), consumed: false };
    assert_eq!(s.next_ip(0), Some(IpAddr::V4(7)));
    assert!(s.is_exhausted());
    assert_eq!(s.next_ip(0), None);
    s.reset();
    assert!(!s.is_exhausted());
    assert_eq!(s.next_ip(0), Some(IpAddr::V4(7)));
}

#[test]
fn block_samples_stay_inside_a_large_enough_block() {
    let mut pool = IpPool::new(&strings(&["1.2.3.0/29"]));
    assert_eq!(pool.total_count(), 5);
    for r in [0u128, 1, 7, 12345, u128::MAX] {
        let mut p = IpPool::new(&strings(&["1.2.3.0/29"]));
        for _ in 0..5 {
            match p.pop(r) {
                Some(IpAddr::V4(v)) => assert!((0x0102_0300..=0x0102_0307).contains(&v)),
                other => panic!("unexpected {:?}", other),
            }
        }
    }
    assert!(pool.pop(3).is_some());
}

#[test]
fn small_block_oversampled_spills_past_its_end() {
    let mut pool = IpPool::new(&strings(&["1.2.3.0/30"]));
    assert_eq!(pool.total_count(), 5);
    let drawn: Vec<_> = (0..5).map(|_| pool.pop(0)).collect();
    assert_eq!(drawn[0], Some(IpAddr::V4(0x0102_0300)));
    assert_eq!(drawn[3], Some(IpAddr::V4(0x0102_0303)));
    assert_eq!(drawn[4], Some(IpAddr::V4(0x0102_0304)));
}

#[test]
fn block_round_rises_through_its_intervals() {
    let pool = IpPool::new(&strings(&["10.0.0.0/28=4"]));
    let mut src = pool.sources[0];
    assert!(matches!(src, IpSource::Cidr { interval_size: 4, last_size: 4, total_count: 4, current: 0, .. }));
    let mut last: Option<u32> = None;
    for k in 0..4u32 {
        match src.next_ip(3 + 8 * k as u128) {
            Some(IpAddr::V4(v)) => {
                let lo = 0x0a00_0000 + 4 * k;
                assert!(lo <= v && v < lo + 4);
                assert_eq!(v, lo + 3);
                if let Some(prev) = last {
                    assert!(prev < v);
                }
                last = Some(v);
            }
            other => panic!("unexpected {:?}", other),
        }
    }
    assert_eq!(src.next_ip(0), None);
    assert_eq!(src.next_ip(0), None);
    src.reset();
    assert_eq!(src.next_ip(1), Some(IpAddr::V4(0x0a00_0001)));
}
