use lattice::stats::{build_stats, endpoint_stats};
use lattice::record::BurstRecord;
use lattice::summary::{quantile, sort_samples, summarize};

fn record(id: &str, samples: Vec<u64>) -> BurstRecord {
    BurstRecord {
        ts_unix_ms: 0,
        endpoint_id: id.to_string(),
        host: "127.0.0.1".to_string(),
        port: 9000,
        probe_path: "default".to_string(),
        probe_bind_iface: String::new(),
        probe_bind_ip: String::new(),
        local_addr: String::new(),
        region_hint: None,
        samples_ns: samples,
        min_ns: None,
        p05_ns: None,
        median_ns: None,
        iface: "other".to_string(),
        iface_name: "eth0".to_string(),
        iface_is_tunnel: false,
        utun_present: false,
        utun_active: false,
        utun_interfaces: Vec::new(),
        dest_is_loopback: false,
        claimed_egress_region: None,
        notes: Vec::new(),
    }
}

#[test]
fn empty_burst_has_no_summary() {
    assert_eq!(summarize(&[]), (None, None, None));
}

#[test]
fn single_sample_is_min_p05_and_median() {
    assert_eq!(summarize(&[7_500_000]), (Some(7_500_000), Some(7_500_000), Some(7_500_000)));
}

#[test]
fn summary_picks_by_rank() {
    // Sorted: 1 2 3 4 5 6 7 8 9 10; p05 at (10 - 1) / 20 = 0, median at 10 / 2 = 5.
    let samples = [9, 3, 7, 1, 10, 5, 2, 8, 6, 4];
    assert_eq!(summarize(&samples), (Some(1), Some(1), Some(6)));
    // 41 samples 0..=40: p05 at 40 / 20 = 2, median at 20.
    let many: Vec<u64> = (0..=40).rev().collect();
    assert_eq!(summarize(&many), (Some(0), Some(2), Some(20)));
}

#[test]
fn sort_is_ascending_and_keeps_duplicates() {
    assert_eq!(sort_samples(&[5, 1, 5, 3, 1]), vec![1, 1, 3, 5, 5]);
    assert_eq!(sort_samples(&[]), Vec::<u64>::new());
    let mut big: Vec<u64> = (0..500).map(|i| (i * 7919) % 503).collect();
    let sorted = sort_samples(&big);
    big.sort();
    assert_eq!(sorted, big);
}

#[test]
fn quantile_rounds_the_rank() {
    let sorted: Vec<u64> = (0..=100).collect();
    assert_eq!(quantile(&sorted, 5), Some(5));
    assert_eq!(quantile(&sorted, 50), Some(50));
    assert_eq!(quantile(&sorted, 95), Some(95));
    // 11 samples: ranks 0.5, 5 and 9.5 round to 1, 5 and 10.
    let eleven: Vec<u64> = (10..=20).collect();
    assert_eq!(quantile(&eleven, 5), Some(11));
    assert_eq!(quantile(&eleven, 50), Some(15));
    assert_eq!(quantile(&eleven, 95), Some(20));
    assert_eq!(quantile(&[], 50), None);
    assert_eq!(quantile(&[42], 95), Some(42));
    assert_eq!(quantile(&sorted, 0), Some(0));
    assert_eq!(quantile(&sorted, 100), Some(100));
    assert_eq!(quantile(&sorted, 101), None);
}

#[test]
fn quantile_rank_agrees_with_rounding_in_doubles() {
    for n in 1usize..2000 {
        let sorted: Vec<u64> = (0..n as u64).collect();
        for (percent, q) in [(5u8, 0.05f64), (50, 0.50), (95, 0.95)] {
            let idx = ((n - 1) as f64 * q).round() as u64;
            assert_eq!(quantile(&sorted, percent), Some(idx), "n={} q={}", n, q);
        }
        let floor_idx = ((n - 1) as f64 * 0.05).floor() as u64;
        assert_eq!(summarize(&sorted).1, Some(floor_idx));
    }
}

#[test]
fn stats_of_samples() {
    let samples: Vec<u64> = (1..=21).map(|i| i * 1_000_000).collect();
    let st = endpoint_stats(&samples);
    assert_eq!(st.count, 21);
    assert_eq!(st.min, Some(1_000_000));
    assert_eq!(st.p05, Some(2_000_000));
    assert_eq!(st.p50, Some(11_000_000));
    assert_eq!(st.p95, Some(20_000_000));
    assert_eq!(st.jitter_ns, Some(18_000_000));
}

#[test]
fn stats_of_nothing_are_absent() {
    let st = endpoint_stats(&[]);
    assert_eq!(st.count, 0);
    assert_eq!((st.min, st.p05, st.p50, st.p95, st.jitter_ns), (None, None, None, None, None));
}

#[test]
fn stats_group_by_target_in_order_of_appearance() {
    let records = vec![
        record("b", vec![30, 10]),
        record("a@vpn", vec![5]),
        record("b", vec![20]),
        record("c", vec![]),
    ];
    let stats = build_stats(&records);
    let ids: Vec<&str> = stats.iter().map(|e| e.id.as_str()).collect();
    assert_eq!(ids, vec!["b", "a@vpn", "c"]);
    assert_eq!(stats[0].stats.count, 3);
    assert_eq!(stats[0].stats.min, Some(10));
    assert_eq!(stats[0].stats.p50, Some(20));
    assert_eq!(stats[0].stats.p95, Some(30));
    assert_eq!(stats[0].stats.jitter_ns, Some(20));
    assert_eq!(stats[1].stats.count, 1);
    assert_eq!(stats[1].stats.p05, Some(5));
    assert_eq!(stats[2].stats.count, 0);
    assert_eq!(stats[2].stats.p05, None);
    assert!(build_stats(&[]).is_empty());
}
