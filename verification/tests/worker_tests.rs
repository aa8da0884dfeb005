// Worker tests: write batching triggers, the preserve-on-failure policy,
// and the broadcast lag semantics.

use homeserver::models::{
    CpuStats, FullSystemSnapshot, NetworkStats, RamStats, StorageStats, SystemStatsDynamic,
};
use homeserver::worker::{
    BroadcastChannel, HistoryWriter, RecvOutcome, assemble_snapshot, warn_due,
    writer_channel_capacity,
};

fn snapshot(ts: u64) -> FullSystemSnapshot {
    FullSystemSnapshot {
        timestamp: ts,
        cpu: CpuStats {
            model: String::new(),
            physical_cores: 0,
            logical_cores: 0,
            usage_percent: 0,
            temperature: 0,
        },
        ram: RamStats { total: 0, used: 0, available: 0, usage_percent: 0 },
        containers: vec![],
        storage: StorageStats { partitions: vec![], disks: vec![] },
        network: NetworkStats { interfaces: vec![] },
        system: SystemStatsDynamic {
            uptime_secs: 0,
            process_count: 0,
            thread_count: 0,
            cpu_voltage: 0,
            fan_speeds: vec![],
        },
    }
}

#[test]
fn writer_channel_capacity_doubles_with_a_floor() {
    assert_eq!(writer_channel_capacity(10), 32);
    assert_eq!(writer_channel_capacity(16), 32);
    assert_eq!(writer_channel_capacity(17), 34);
    assert_eq!(writer_channel_capacity(100), 200);
}

#[test]
fn count_trigger_fires_at_flush_rate() {
    let mut w = HistoryWriter::new();
    assert!(!w.push_snapshot(snapshot(1), 3));
    assert!(!w.push_snapshot(snapshot(2), 3));
    assert!(w.push_snapshot(snapshot(3), 3));
}

#[test]
fn empty_buffer_issues_no_interval_flush() {
    // The flush interval elapsing with an empty buffer is a no-op.
    let w = HistoryWriter::new();
    assert!(!w.interval_flush_due());
    let mut w2 = HistoryWriter::new();
    w2.push_snapshot(snapshot(1), 10);
    assert!(w2.interval_flush_due());
}

#[test]
fn committed_flush_counts_and_clears() {
    let mut w = HistoryWriter::new();
    w.push_snapshot(snapshot(1), 10);
    w.push_snapshot(snapshot(2), 10);
    let batch = w.take_batch();
    assert_eq!(batch.len(), 2);
    assert_eq!(w.buffer.len(), 0);
    w.complete_flush(batch, true);
    assert_eq!(w.snapshots_saved_total, 2);
    assert_eq!(w.buffer.len(), 0);
}

#[test]
fn failed_flush_preserves_the_batch_for_retry() {
    let mut w = HistoryWriter::new();
    w.push_snapshot(snapshot(1), 10);
    let batch = w.take_batch();
    // A sample arrives while the transaction is failing.
    w.push_snapshot(snapshot(2), 10);
    w.complete_flush(batch, false);
    assert_eq!(w.snapshots_saved_total, 0);
    assert_eq!(w.buffer.len(), 2);
    assert_eq!(w.buffer[0].timestamp, 1);
    assert_eq!(w.buffer[1].timestamp, 2);
}

#[test]
fn lagged_subscriber_gets_one_skip_notice_then_the_newest() {
    // Capacity 2, three snapshots published before the subscriber reads:
    // exactly one skip notice counting the one lost sample, then the
    // newest snapshot, then nothing.
    let mut chan = BroadcastChannel::new(2);
    let mut sub = chan.subscribe();
    chan.publish(snapshot(1));
    chan.publish(snapshot(2));
    chan.publish(snapshot(3));
    match chan.recv(&mut sub) {
        RecvOutcome::Lagged(n) => assert_eq!(n, 1),
        _ => panic!("expected a lag notice"),
    }
    match chan.recv(&mut sub) {
        RecvOutcome::Item(s) => assert_eq!(s.timestamp, 3),
        _ => panic!("expected the third snapshot"),
    }
    assert!(matches!(chan.recv(&mut sub), RecvOutcome::Empty));
}

#[test]
fn keeping_up_subscriber_sees_every_snapshot() {
    let mut chan = BroadcastChannel::new(2);
    let mut sub = chan.subscribe();
    chan.publish(snapshot(1));
    match chan.recv(&mut sub) {
        RecvOutcome::Item(s) => assert_eq!(s.timestamp, 1),
        _ => panic!("expected the first snapshot"),
    }
    chan.publish(snapshot(2));
    match chan.recv(&mut sub) {
        RecvOutcome::Item(s) => assert_eq!(s.timestamp, 2),
        _ => panic!("expected the second snapshot"),
    }
}

#[test]
fn a_failed_probe_skips_the_whole_tick() {
    let s = snapshot(7);
    let out = assemble_snapshot(
        7,
        Some(s.cpu.duplicate()),
        Some(s.ram.duplicate()),
        vec![],
        Some(s.storage.duplicate()),
        None,
        Some(s.system.duplicate()),
    );
    assert!(out.is_none());
    let s2 = snapshot(8);
    let out2 = assemble_snapshot(
        8,
        Some(s2.cpu.duplicate()),
        Some(s2.ram.duplicate()),
        vec![],
        Some(s2.storage.duplicate()),
        Some(s2.network.duplicate()),
        Some(s2.system.duplicate()),
    );
    assert_eq!(out2.unwrap().timestamp, 8);
}

#[test]
fn no_receivers_warning_is_rate_limited() {
    assert!(warn_due(1000, None, 60_000));
    assert!(!warn_due(50_000, Some(1000), 60_000));
    assert!(warn_due(61_000, Some(1000), 60_000));
}
