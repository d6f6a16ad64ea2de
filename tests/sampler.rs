use cosmic_ext_applet_sysinfo::metrics::{MetricsSnapshot, Reading};
use cosmic_ext_applet_sysinfo::sampler::SysInfo;
use cosmic_ext_applet_sysinfo::Message;

fn reading(cpu: f32, used: u64, total: u64, interfaces: Vec<(u64, u64)>) -> Reading {
    Reading { cpu_usage_bits: cpu.to_bits(), used_memory: used, total_memory: total, interfaces }
}

#[test]
fn new_sampler_starts_at_zero() {
    let s = SysInfo::new();
    assert_eq!(s.snapshot, MetricsSnapshot::zero());
    assert_eq!(s.samples, 0);
    assert_eq!(s.snapshot.cpu_text(), "C: 0%");
    assert_eq!(s.snapshot.ram_text(), "R: 0%");
    assert_eq!(s.snapshot.network_text(), "N: ↓0.00MB/s ↑0.00MB/s");
}

#[test]
fn each_tick_is_one_sample() {
    let mut s = SysInfo::new();
    let readings = [
        reading(10.0, 1, 10, vec![(1, 2)]),
        reading(20.0, 2, 10, vec![]),
        reading(30.0, 3, 10, vec![(3_000_000, 4_000_000)]),
        reading(30.0, 3, 10, vec![(3_000_000, 4_000_000)]),
        reading(40.0, 4, 10, vec![(0, 0), (5, 6)]),
    ];
    for (n, r) in readings.iter().enumerate() {
        s.handle(Message::Tick, r);
        assert_eq!(s.samples, n as u64 + 1);
        assert_eq!(s.snapshot, MetricsSnapshot::from_reading(r));
    }
    assert_eq!(s.snapshot.cpu_text(), "C: 40%");
    assert_eq!(s.snapshot.ram_text(), "R: 40%");
    assert_eq!(s.snapshot.upload_bytes, 5);
    assert_eq!(s.snapshot.download_bytes, 6);
}

#[test]
fn update_takes_the_reading() {
    let mut s = SysInfo::new();
    s.update(&reading(47.6, 33, 100, vec![(200_000, 1_005_000)]));
    assert_eq!(s.samples, 1);
    assert_eq!(s.snapshot.cpu_text(), "C: 48%");
    assert_eq!(s.snapshot.ram_text(), "R: 33%");
    assert_eq!(s.snapshot.network_text(), "N: ↓1.00MB/s ↑0.20MB/s");
}

#[test]
fn update_with_zero_total_memory() {
    let mut s = SysInfo::new();
    s.update(&reading(5.0, 123, 0, vec![]));
    assert_eq!(s.snapshot.ram_usage, 0);
    assert_eq!(s.snapshot.ram_text(), "R: 0%");
}

#[test]
fn sample_count_stops_at_the_largest() {
    let mut s = SysInfo { snapshot: MetricsSnapshot::zero(), samples: u64::MAX };
    s.update(&reading(1.0, 0, 1, vec![]));
    assert_eq!(s.samples, u64::MAX);
}
