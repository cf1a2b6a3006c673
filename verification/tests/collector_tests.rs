//! Tests of the collection loop's state machine.

use host_metrics::collector::Collector;
use host_metrics::consolidate::consolidate_all_stats;
use host_metrics::stats::{AllStats, CpuStats, GeneralStats, MemoryStats, NetworkStats};
use host_metrics::stats_history::StatsHistory;

fn collector_sample(t: i64, used_mb: u64) -> AllStats {
    AllStats {
        general: GeneralStats {
            uptime_seconds: Some(t as u64),
            boot_timestamp: None,
            load_averages: None,
        },
        cpu: CpuStats {
            per_logical_cpu_load_percent: None,
            aggregate_load_percent: None,
            temp_celsius: None,
        },
        memory: Some(MemoryStats {
            used_mb,
            total_mb: 100,
        }),
        filesystems: None,
        network: NetworkStats {
            interfaces: None,
            sockets: None,
        },
        collection_time: t,
    }
}

#[test]
fn three_ticks_commit_once_with_two_entries() {
    // With a consolidation limit of three, three ticks produce one
    // consolidated commit followed by the raw third sample: two history
    // entries, not three.
    let mut collector = Collector::new(3);
    let mut history = StatsHistory::new(10);
    let s1 = collector_sample(1, 10);
    let s2 = collector_sample(2, 20);
    let s3 = collector_sample(3, 60);
    assert!(collector.tick(&mut history, s1.clone()).is_none());
    assert!(collector.tick(&mut history, s2.clone()).is_none());
    let persisted = collector.tick(&mut history, s3.clone()).unwrap();
    let expected = consolidate_all_stats(&vec![s1, s2, s3.clone()]);
    assert_eq!(persisted, expected);

    let mut entries = Vec::new();
    let mut it = history.iterate();
    while let Some(s) = it.next() {
        entries.push(s.clone());
    }
    assert_eq!(entries.len(), 2);
    assert_eq!(entries[0], expected);
    assert_eq!(entries[1], s3);
}

#[test]
fn buffering_ticks_replace_the_live_entry() {
    let mut collector = Collector::new(3);
    let mut history = StatsHistory::new(10);
    collector.tick(&mut history, collector_sample(1, 10));
    assert_eq!(
        history.get_most_recent_stats().unwrap().collection_time,
        1
    );
    collector.tick(&mut history, collector_sample(2, 20));
    assert_eq!(
        history.get_most_recent_stats().unwrap().collection_time,
        2
    );
    // Still only the single live entry.
    let mut count = 0;
    let mut it = history.iterate();
    while it.next().is_some() {
        count += 1;
    }
    assert_eq!(count, 1);
}

#[test]
fn buffer_resets_after_a_flush() {
    let mut collector = Collector::new(2);
    let mut history = StatsHistory::new(10);
    assert!(collector.tick(&mut history, collector_sample(1, 10)).is_none());
    assert!(collector.tick(&mut history, collector_sample(2, 30)).is_some());
    // The next cycle starts afresh: one buffering tick, then a flush of
    // only the new cycle's samples.
    assert!(collector.tick(&mut history, collector_sample(3, 50)).is_none());
    let persisted = collector.tick(&mut history, collector_sample(4, 70)).unwrap();
    assert_eq!(persisted.memory.unwrap().used_mb, 60);
}

#[test]
fn observe_consolidates_without_touching_history() {
    let mut collector = Collector::new(2);
    let s1 = collector_sample(1, 10);
    let s2 = collector_sample(2, 30);
    assert!(collector.observe(&s1).is_none());
    let consolidated = collector.observe(&s2).unwrap();
    assert_eq!(
        consolidated,
        consolidate_all_stats(&vec![s1, s2])
    );
}

