use cosmic_ext_applet_sysinfo::metrics::{centi_mb, ram_percent, sum_traffic, MetricsSnapshot, Reading};

#[test]
fn ram_percent_rounds_down() {
    assert_eq!(ram_percent(33, 100), 33);
    assert_eq!(ram_percent(1, 3), 33);
    assert_eq!(ram_percent(2, 3), 66);
    assert_eq!(ram_percent(8_000_000_000, 16_000_000_000), 50);
}

#[test]
fn ram_percent_bounds() {
    assert_eq!(ram_percent(0, 16), 0);
    assert_eq!(ram_percent(16, 16), 100);
    assert_eq!(ram_percent(u64::MAX, u64::MAX), 100);
    assert_eq!(ram_percent(u64::MAX - 1, u64::MAX), 99);
}

#[test]
fn ram_percent_zero_total_is_zero() {
    assert_eq!(ram_percent(0, 0), 0);
    assert_eq!(ram_percent(12345, 0), 0);
}

#[test]
fn traffic_sums_each_direction() {
    let ifaces = vec![(100u64, 2_000u64), (300, 4_000), (0, 0)];
    assert_eq!(sum_traffic(&ifaces), (400, 6_000));
    assert_eq!(sum_traffic(&vec![]), (0, 0));
}

#[test]
fn traffic_sum_does_not_overflow() {
    let ifaces = vec![(u64::MAX, 1u64), (u64::MAX, u64::MAX)];
    let (up, down) = sum_traffic(&ifaces);
    assert_eq!(up, 2 * (u64::MAX as u128));
    assert_eq!(down, (u64::MAX as u128) + 1);
}

#[test]
fn centi_mb_rounds_to_nearest_even() {
    assert_eq!(centi_mb(0), 0);
    assert_eq!(centi_mb(200_000), 20);
    assert_eq!(centi_mb(1_004_999), 100);
    assert_eq!(centi_mb(1_005_000), 100);
    assert_eq!(centi_mb(1_005_001), 101);
    assert_eq!(centi_mb(1_015_000), 102);
    assert_eq!(centi_mb(4_999), 0);
    assert_eq!(centi_mb(5_000), 0);
    assert_eq!(centi_mb(15_000), 2);
}

#[test]
fn snapshot_from_reading() {
    let reading = Reading {
        cpu_usage_bits: 47.6f32.to_bits(),
        used_memory: 4_000,
        total_memory: 12_000,
        interfaces: vec![(200_000, 1_000_000), (0, 5_000)],
    };
    let s = MetricsSnapshot::from_reading(&reading);
    assert_eq!(s.cpu_usage_bits, 47.6f32.to_bits());
    assert_eq!(s.ram_usage, 33);
    assert_eq!(s.download_bytes, 1_005_000);
    assert_eq!(s.upload_bytes, 200_000);
    assert_eq!(s.download_centi_mb(), 100);
    assert_eq!(s.upload_centi_mb(), 20);
}

#[test]
fn zero_snapshot() {
    let s = MetricsSnapshot::zero();
    assert_eq!(s.cpu_usage_bits, 0);
    assert_eq!(s.ram_usage, 0);
    assert_eq!(s.download_bytes, 0);
    assert_eq!(s.upload_bytes, 0);
}

#[test]
fn record_overwrites_and_is_stable() {
    let first = Reading {
        cpu_usage_bits: 12.0f32.to_bits(),
        used_memory: 1,
        total_memory: 4,
        interfaces: vec![(10, 20), (30, 40)],
    };
    let mut s = MetricsSnapshot::zero();
    s.record(&first);
    let once = s;
    s.record(&first);
    assert_eq!(s, once);
    let reordered = Reading {
        cpu_usage_bits: 12.0f32.to_bits(),
        used_memory: 1,
        total_memory: 4,
        interfaces: vec![(30, 40), (10, 20)],
    };
    s.record(&reordered);
    assert_eq!(s, once);
    assert_eq!(s.ram_usage, 25);
    assert_eq!(s.upload_bytes, 40);
    assert_eq!(s.download_bytes, 60);
}

#[test]
fn record_keeps_no_history() {
    let busy = Reading {
        cpu_usage_bits: 90.0f32.to_bits(),
        used_memory: 9,
        total_memory: 10,
        interfaces: vec![(5_000_000, 7_000_000)],
    };
    let idle = Reading { cpu_usage_bits: 0, used_memory: 0, total_memory: 10, interfaces: vec![] };
    let mut s = MetricsSnapshot::zero();
    s.record(&busy);
    s.record(&idle);
    assert_eq!(s, MetricsSnapshot::zero());
}
