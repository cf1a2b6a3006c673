//! Tests of the line codec and the two-file persistence log.

use host_metrics::persist::{encode_line, should_rotate, LoadError, PersistedLog};
use host_metrics::stats::{
    AllStats, CpuStats, GeneralStats, LoadAverages, MemoryStats, MountStats, NetworkInterfaceStats,
    NetworkStats, SocketStats,
};
use host_metrics::stats_history::StatsHistory;

fn persist_bare(t: i64) -> AllStats {
    AllStats {
        general: GeneralStats {
            uptime_seconds: None,
            boot_timestamp: None,
            load_averages: None,
        },
        cpu: CpuStats {
            per_logical_cpu_load_percent: None,
            aggregate_load_percent: None,
            temp_celsius: None,
        },
        memory: None,
        filesystems: None,
        network: NetworkStats {
            interfaces: None,
            sockets: None,
        },
        collection_time: t,
    }
}

fn persist_rich(t: i64) -> AllStats {
    AllStats {
        general: GeneralStats {
            uptime_seconds: Some(12345),
            boot_timestamp: Some(-7),
            load_averages: Some(LoadAverages {
                one_minute: 150,
                five_minutes: 125,
                fifteen_minutes: 100,
            }),
        },
        cpu: CpuStats {
            per_logical_cpu_load_percent: Some(vec![0, 10000]),
            aggregate_load_percent: Some(5000),
            temp_celsius: Some(-273),
        },
        memory: Some(MemoryStats {
            used_mb: 512,
            total_mb: 2048,
        }),
        filesystems: Some(vec![MountStats {
            fs_type: b"ext\"4\\odd".to_vec(),
            mounted_from: b"/dev/sda1".to_vec(),
            mounted_on: b"/".to_vec(),
            used_mb: 10,
            total_mb: 100,
        }]),
        network: NetworkStats {
            interfaces: Some(vec![NetworkInterfaceStats {
                name: b"eth0".to_vec(),
                addresses: vec![b"10.0.0.1".to_vec(), b"fe80::1".to_vec()],
                sent_mb: 1,
                received_mb: 2,
                sent_packets: 3,
                received_packets: 4,
                send_errors: 5,
                receive_errors: 6,
            }]),
            sockets: Some(SocketStats {
                tcp_in_use: 3,
                tcp_orphaned: 7,
                udp_in_use: 2,
                tcp6_in_use: 1,
                udp6_in_use: 5,
            }),
        },
        collection_time: t,
    }
}

#[test]
fn encode_line_is_json_with_known_shape() {
    let line = String::from_utf8(encode_line(&persist_bare(5))).unwrap();
    let mut expected = String::new();
    expected.push_str("{\"general\":{\"uptimeSeconds\":null,\"bootTimestamp\":null,");
    expected.push_str("\"loadAverages\":null},\"cpu\":{\"perLogicalCpuLoadPercent\":null,");
    expected.push_str("\"aggregateLoadPercent\":null,\"tempCelsius\":null},\"memory\":null,");
    expected.push_str("\"filesystems\":null,\"network\":{\"interfaces\":null,\"sockets\":null},");
    expected.push_str("\"collectionTime\":5}");
    assert_eq!(line, expected);
}

#[test]
fn log_round_trip_without_rotation() {
    let mut log = PersistedLog::new();
    let a = persist_rich(1);
    let b = persist_bare(2);
    log.append(&a, 1_000_000);
    log.append(&b, 1_000_000);
    assert!(log.old.is_none());
    let loaded = log.load().unwrap();
    assert_eq!(loaded, vec![a, b]);
}

#[test]
fn log_round_trip_across_one_rotation() {
    // A size limit small enough to force one rotation: the current file
    // holds one line when `b` arrives (no rotation yet), and two lines
    // when `c` arrives, which trips the half-limit check.
    let a = persist_rich(1);
    let b = persist_rich(2);
    let c = persist_rich(3);
    let line_len = (encode_line(&a).len() + 1) as u64;
    let size_limit = 3 * line_len;
    let mut log = PersistedLog::new();
    log.append(&a, size_limit);
    assert!(log.old.is_none());
    log.append(&b, size_limit);
    assert!(log.old.is_none());
    log.append(&c, size_limit);
    assert!(log.old.is_some());
    let loaded = log.load().unwrap();
    assert_eq!(loaded, vec![a, b, c]);
}

#[test]
fn malformed_line_fails_the_whole_load() {
    let mut contents = encode_line(&persist_rich(1));
    contents.push(b'\n');
    contents.extend_from_slice(b"{oops}\n");
    let log = PersistedLog::from_contents(Some(contents), None);
    assert_eq!(log.load(), Err(LoadError::Malformed));
}

#[test]
fn truncated_line_fails_the_whole_load() {
    let mut contents = encode_line(&persist_rich(1));
    contents.push(b'\n');
    let mut second = encode_line(&persist_rich(2));
    second.truncate(second.len() - 3);
    contents.extend_from_slice(&second);
    let log = PersistedLog::from_contents(Some(contents), None);
    assert_eq!(log.load(), Err(LoadError::Malformed));
}

#[test]
fn load_reads_old_before_current() {
    let mut old = encode_line(&persist_bare(1));
    old.push(b'\n');
    let mut current = encode_line(&persist_bare(2));
    current.push(b'\n');
    let log = PersistedLog::from_contents(Some(current), Some(old));
    let loaded = log.load().unwrap();
    assert_eq!(loaded.len(), 2);
    assert_eq!(loaded[0].collection_time, 1);
    assert_eq!(loaded[1].collection_time, 2);
}

#[test]
fn blank_lines_are_skipped_when_loading() {
    let mut contents = Vec::new();
    contents.extend_from_slice(b"\n  \r\n");
    contents.extend_from_slice(&encode_line(&persist_bare(9)));
    contents.extend_from_slice(b"\n\n");
    let log = PersistedLog::from_contents(Some(contents), None);
    let loaded = log.load().unwrap();
    assert_eq!(loaded.len(), 1);
    assert_eq!(loaded[0].collection_time, 9);
}

#[test]
fn history_load_from_missing_files_is_empty() {
    let history = StatsHistory::load_from(None, None).unwrap();
    assert!(history.get_most_recent_stats().is_none());
}

#[test]
fn history_load_from_orders_entries_and_sizes_capacity() {
    let mut old = encode_line(&persist_bare(1));
    old.push(b'\n');
    let mut current = encode_line(&persist_bare(2));
    current.push(b'\n');
    current.extend_from_slice(&encode_line(&persist_bare(3)));
    current.push(b'\n');
    let history = StatsHistory::load_from(Some(old), Some(current)).unwrap();
    let mut times = Vec::new();
    let mut it = history.iterate();
    while let Some(s) = it.next() {
        times.push(s.collection_time);
    }
    assert_eq!(times, vec![1, 2, 3]);
}

#[test]
fn history_load_from_propagates_malformed_lines() {
    let current = b"not json at all\n".to_vec();
    assert!(StatsHistory::load_from(None, Some(current)).is_err());
}

#[test]
fn should_rotate_at_half_the_limit() {
    assert!(!should_rotate(499, 1000));
    assert!(should_rotate(500, 1000));
    assert!(should_rotate(501, 1000));
    assert!(should_rotate(0, 0));
}

#[test]
fn names_with_control_bytes_round_trip() {
    let mut stats = persist_bare(4);
    stats.filesystems = Some(vec![MountStats {
        fs_type: b"weird\n\t\"type\\".to_vec(),
        mounted_from: vec![0x00, 0x1f, 0x7f, 0xc3, 0xa9],
        mounted_on: b"/x".to_vec(),
        used_mb: 1,
        total_mb: 2,
    }]);
    let mut log = PersistedLog::new();
    log.append(&stats, 1_000_000);
    let loaded = log.load().unwrap();
    assert_eq!(loaded, vec![stats]);
}

#[test]
fn extreme_numbers_round_trip() {
    let mut stats = persist_bare(i64::MIN);
    stats.general.uptime_seconds = Some(u64::MAX);
    stats.general.boot_timestamp = Some(i64::MIN);
    stats.cpu.temp_celsius = Some(i64::MAX);
    stats.network.sockets = Some(SocketStats {
        tcp_in_use: usize::MAX,
        tcp_orphaned: 0,
        udp_in_use: 0,
        tcp6_in_use: 0,
        udp6_in_use: 0,
    });
    let mut log = PersistedLog::new();
    log.append(&stats, 1_000_000);
    let loaded = log.load().unwrap();
    assert_eq!(loaded, vec![stats]);
}

#[test]
fn two_records_on_one_line_are_malformed() {
    // A line must hold exactly one record: two valid records separated
    // by a space on the same line fail the load.
    let mut contents = encode_line(&persist_bare(1));
    contents.push(b' ');
    contents.extend_from_slice(&encode_line(&persist_bare(2)));
    contents.push(b'\n');
    let log = PersistedLog::from_contents(Some(contents), None);
    assert_eq!(log.load(), Err(LoadError::Malformed));
}

#[test]
fn inline_padding_around_a_record_is_allowed() {
    let mut contents = Vec::new();
    contents.extend_from_slice(b"  ");
    contents.extend_from_slice(&encode_line(&persist_bare(3)));
    contents.extend_from_slice(b" \t\r\n");
    let log = PersistedLog::from_contents(Some(contents), None);
    assert_eq!(log.load().unwrap(), vec![persist_bare(3)]);
}

#[test]
fn trailing_garbage_on_a_record_line_is_malformed() {
    let mut contents = encode_line(&persist_bare(1));
    contents.extend_from_slice(b" x\n");
    let log = PersistedLog::from_contents(Some(contents), None);
    assert_eq!(log.load(), Err(LoadError::Malformed));
}

