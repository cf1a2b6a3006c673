//! Tests of batch consolidation.

use host_metrics::consolidate::consolidate_all_stats;
use host_metrics::stats::{
    AllStats, CpuStats, GeneralStats, LoadAverages, MemoryStats, MountStats, NetworkStats,
    SocketStats,
};

fn bare_sample(t: i64) -> AllStats {
    AllStats {
        general: GeneralStats {
            uptime_seconds: None,
            boot_timestamp: None,
            load_averages: None,
        },
        cpu: CpuStats {
            per_logical_cpu_load_percent: None,
            aggregate_load_percent: None,
            temp_celsius: None,
        },
        memory: None,
        filesystems: None,
        network: NetworkStats {
            interfaces: None,
            sockets: None,
        },
        collection_time: t,
    }
}

fn full_sample(t: i64) -> AllStats {
    AllStats {
        general: GeneralStats {
            uptime_seconds: Some(5000),
            boot_timestamp: Some(1_600_000_000),
            load_averages: Some(LoadAverages {
                one_minute: 150,
                five_minutes: 125,
                fifteen_minutes: 100,
            }),
        },
        cpu: CpuStats {
            per_logical_cpu_load_percent: Some(vec![1000, 3000]),
            aggregate_load_percent: Some(2000),
            temp_celsius: Some(-500),
        },
        memory: Some(MemoryStats {
            used_mb: 40,
            total_mb: 100,
        }),
        filesystems: Some(vec![MountStats {
            fs_type: b"ext4".to_vec(),
            mounted_from: b"/dev/sda1".to_vec(),
            mounted_on: b"/".to_vec(),
            used_mb: 10,
            total_mb: 100,
        }]),
        network: NetworkStats {
            interfaces: None,
            sockets: Some(SocketStats {
                tcp_in_use: 3,
                tcp_orphaned: 1,
                udp_in_use: 2,
                tcp6_in_use: 1,
                udp6_in_use: 0,
            }),
        },
        collection_time: t,
    }
}

#[test]
fn consolidating_identical_snapshots_is_identity() {
    // Averaging a batch of identical metric values yields those values.
    let batch = vec![full_sample(9), full_sample(9), full_sample(9)];
    let consolidated = consolidate_all_stats(&batch);
    assert_eq!(consolidated, full_sample(9));
}

#[test]
fn memory_used_is_averaged_but_total_takes_maximum() {
    let mut a = bare_sample(1);
    a.memory = Some(MemoryStats {
        used_mb: 10,
        total_mb: 100,
    });
    let mut b = bare_sample(2);
    b.memory = Some(MemoryStats {
        used_mb: 20,
        total_mb: 50,
    });
    let consolidated = consolidate_all_stats(&vec![a, b]);
    let memory = consolidated.memory.unwrap();
    assert_eq!(memory.used_mb, 15);
    assert_eq!(memory.total_mb, 100);
}

#[test]
fn socket_averages_round_to_nearest() {
    // An average of 1.5 TCP sockets rounds up to 2.
    let mut a = bare_sample(1);
    a.network.sockets = Some(SocketStats {
        tcp_in_use: 1,
        tcp_orphaned: 0,
        udp_in_use: 0,
        tcp6_in_use: 0,
        udp6_in_use: 0,
    });
    let mut b = bare_sample(2);
    b.network.sockets = Some(SocketStats {
        tcp_in_use: 2,
        tcp_orphaned: 0,
        udp_in_use: 0,
        tcp6_in_use: 0,
        udp6_in_use: 0,
    });
    let consolidated = consolidate_all_stats(&vec![a, b]);
    assert_eq!(consolidated.network.sockets.unwrap().tcp_in_use, 2);
}

#[test]
fn point_in_time_fields_come_from_the_last_entry() {
    let mut first = full_sample(1);
    first.general.uptime_seconds = Some(11);
    let mut last = full_sample(2);
    last.general.uptime_seconds = Some(99);
    let consolidated = consolidate_all_stats(&vec![first, last.clone()]);
    assert_eq!(consolidated.general.uptime_seconds, Some(99));
    assert_eq!(consolidated.general.boot_timestamp, last.general.boot_timestamp);
    assert_eq!(consolidated.collection_time, 2);
    assert_eq!(consolidated.filesystems, last.filesystems);
}

#[test]
fn metrics_absent_everywhere_stay_absent() {
    let consolidated = consolidate_all_stats(&vec![bare_sample(1), bare_sample(2)]);
    assert!(consolidated.general.load_averages.is_none());
    assert!(consolidated.cpu.per_logical_cpu_load_percent.is_none());
    assert!(consolidated.cpu.aggregate_load_percent.is_none());
    assert!(consolidated.cpu.temp_celsius.is_none());
    assert!(consolidated.memory.is_none());
    assert!(consolidated.network.sockets.is_none());
}

#[test]
fn metrics_are_averaged_over_present_entries_only() {
    let mut a = bare_sample(1);
    a.cpu.aggregate_load_percent = Some(1000);
    let b = bare_sample(2);
    let mut c = bare_sample(3);
    c.cpu.aggregate_load_percent = Some(3000);
    let consolidated = consolidate_all_stats(&vec![a, b, c]);
    // The entry without the metric does not drag the average down.
    assert_eq!(consolidated.cpu.aggregate_load_percent, Some(2000));
}

#[test]
fn ragged_cpu_lists_are_padded_with_zeros() {
    let mut a = bare_sample(1);
    a.cpu.per_logical_cpu_load_percent = Some(vec![1000, 4000]);
    let mut b = bare_sample(2);
    b.cpu.per_logical_cpu_load_percent = Some(vec![3000]);
    let consolidated = consolidate_all_stats(&vec![a, b]);
    assert_eq!(
        consolidated.cpu.per_logical_cpu_load_percent,
        Some(vec![2000, 2000])
    );
}

#[test]
fn negative_temperatures_average_correctly() {
    let mut a = bare_sample(1);
    a.cpu.temp_celsius = Some(-1000);
    let mut b = bare_sample(2);
    b.cpu.temp_celsius = Some(-2100);
    let consolidated = consolidate_all_stats(&vec![a, b]);
    // -15.50 degrees, rounded half away from zero.
    assert_eq!(consolidated.cpu.temp_celsius, Some(-1550));
}

#[test]
fn load_averages_average_per_field() {
    let mut a = bare_sample(1);
    a.general.load_averages = Some(LoadAverages {
        one_minute: 100,
        five_minutes: 200,
        fifteen_minutes: 300,
    });
    let mut b = bare_sample(2);
    b.general.load_averages = Some(LoadAverages {
        one_minute: 200,
        five_minutes: 250,
        fifteen_minutes: 100,
    });
    let consolidated = consolidate_all_stats(&vec![a, b]);
    assert_eq!(
        consolidated.general.load_averages,
        Some(LoadAverages {
            one_minute: 150,
            five_minutes: 225,
            fifteen_minutes: 200,
        })
    );
}
