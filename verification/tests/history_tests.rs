//! Tests of the rolling statistics history.

use host_metrics::stats::{
    AllStats, CpuStats, GeneralStats, LoadAverages, MemoryStats, NetworkStats, SocketStats,
};
use host_metrics::stats_history::{index_after, StatsHistory};

fn history_sample(t: i64) -> AllStats {
    AllStats {
        general: GeneralStats {
            uptime_seconds: Some(1000 + t as u64),
            boot_timestamp: Some(1_600_000_000),
            load_averages: Some(LoadAverages {
                one_minute: 150,
                five_minutes: 100,
                fifteen_minutes: 50,
            }),
        },
        cpu: CpuStats {
            per_logical_cpu_load_percent: Some(vec![1000, 2000]),
            aggregate_load_percent: Some(1500),
            temp_celsius: Some(4200),
        },
        memory: Some(MemoryStats {
            used_mb: 10,
            total_mb: 100,
        }),
        filesystems: None,
        network: NetworkStats {
            interfaces: None,
            sockets: Some(SocketStats {
                tcp_in_use: 4,
                tcp_orphaned: 0,
                udp_in_use: 2,
                tcp6_in_use: 1,
                udp6_in_use: 1,
            }),
        },
        collection_time: t,
    }
}

fn collect_times(history: &StatsHistory) -> Vec<i64> {
    let mut out = Vec::new();
    let mut it = history.iterate();
    while let Some(s) = it.next() {
        out.push(s.collection_time);
    }
    out
}

#[test]
fn empty_history_has_no_most_recent() {
    let history = StatsHistory::new(3);
    assert!(history.get_most_recent_stats().is_none());
}

#[test]
fn most_recent_follows_push() {
    let mut history = StatsHistory::new(3);
    history.push(history_sample(1));
    history.push(history_sample(2));
    let most_recent = history.get_most_recent_stats().unwrap();
    assert_eq!(most_recent.collection_time, 2);
}

#[test]
fn commits_beyond_capacity_keep_latest_in_order() {
    // After more commits than the capacity, exactly the capacity's worth
    // of the most recent entries remain, in commit order.
    let mut history = StatsHistory::new(3);
    for t in 1..=5 {
        history.push(history_sample(t));
    }
    assert_eq!(collect_times(&history), vec![3, 4, 5]);
}

#[test]
fn one_commit_past_capacity_drops_exactly_the_oldest() {
    let mut history = StatsHistory::new(3);
    for t in 1..=3 {
        history.push(history_sample(t));
    }
    assert_eq!(collect_times(&history), vec![1, 2, 3]);
    history.push(history_sample(4));
    assert_eq!(collect_times(&history), vec![2, 3, 4]);
}

#[test]
fn update_most_recent_never_changes_length() {
    let mut history = StatsHistory::new(3);
    history.push(history_sample(1));
    history.push(history_sample(2));
    history.update_most_recent_stats(history_sample(7));
    assert_eq!(collect_times(&history), vec![1, 7]);
    history.update_most_recent_stats(history_sample(9));
    assert_eq!(collect_times(&history), vec![1, 9]);
}

#[test]
fn update_most_recent_on_empty_behaves_as_commit() {
    let mut history = StatsHistory::new(3);
    history.update_most_recent_stats(history_sample(5));
    assert_eq!(collect_times(&history), vec![5]);
}

#[test]
fn iterate_is_restartable() {
    let mut history = StatsHistory::new(2);
    history.push(history_sample(1));
    history.push(history_sample(2));
    assert_eq!(collect_times(&history), vec![1, 2]);
    assert_eq!(collect_times(&history), vec![1, 2]);
}

#[test]
fn from_entries_capacity_is_entry_count() {
    let entries = vec![history_sample(1), history_sample(2), history_sample(3)];
    let history = StatsHistory::from_entries(entries);
    assert_eq!(collect_times(&history), vec![1, 2, 3]);
    assert_eq!(history.get_most_recent_stats().unwrap().collection_time, 3);
}

#[test]
fn index_after_wraps_at_max() {
    assert_eq!(index_after(0, 3), 1);
    assert_eq!(index_after(1, 3), 2);
    assert_eq!(index_after(2, 3), 0);
    assert_eq!(index_after(0, 1), 0);
}
