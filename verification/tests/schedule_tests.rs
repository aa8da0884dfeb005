// Aggregation schedule tests: bucket arithmetic, the raw-to-1-min pass,
// the 1-min-to-5-min roll-up, idempotence, and the empty-store tick.

use homeserver::models::{
    CpuStats, FullSystemSnapshot, NetworkStats, RamStats, StorageStats, SystemInfo,
    SystemStatsDynamic,
};
use homeserver::schedule::{
    AggregationWorkerConfig, bucket_floor, run_backfill, run_one_tick, run_phase_a, run_phase_b,
};
use homeserver::store::HistoryStore;

fn snapshot(ts: u64, cpu: u64, mem: u64) -> FullSystemSnapshot {
    FullSystemSnapshot {
        timestamp: ts,
        cpu: CpuStats {
            model: String::new(),
            physical_cores: 0,
            logical_cores: 0,
            usage_percent: cpu,
            temperature: 0,
        },
        ram: RamStats { total: 0, used: mem, available: 0, usage_percent: 0 },
        containers: vec![],
        storage: StorageStats { partitions: vec![], disks: vec![] },
        network: NetworkStats { interfaces: vec![] },
        system: SystemStatsDynamic {
            uptime_secs: 0,
            process_count: 0,
            thread_count: 0,
            cpu_voltage: 0,
            fan_speeds: vec![],
        },
    }
}

fn info() -> SystemInfo {
    SystemInfo {
        os_family: "Linux".to_string(),
        os_manufacturer: String::new(),
        os_version: String::new(),
        system_manufacturer: String::new(),
        system_model: String::new(),
        processor_name: String::new(),
    }
}

fn config() -> AggregationWorkerConfig {
    AggregationWorkerConfig {
        aggregation_interval_secs: 3600,
        raw_retention_hours: 1,
        minute_retention_hours: 24,
        retention_days: 3,
        vacuum_schedule: None,
        vacuum_interval_secs: 86400,
    }
}

#[test]
fn bucket_floor_aligns_down() {
    assert_eq!(bucket_floor(60_001, 60_000), 60_000);
    assert_eq!(bucket_floor(60_000, 60_000), 60_000);
    assert_eq!(bucket_floor(59_999, 60_000), 0);
    assert_eq!(bucket_floor(359_999, 300_000), 300_000);
}

#[test]
fn empty_aggregation_tick_is_a_no_op() {
    // An empty raw table: the tick returns, writes nothing, deletes nothing.
    let mut store = HistoryStore::new();
    run_one_tick(&mut store, 3_600_000_000, &config());
    assert_eq!(store.raw.len(), 0);
    assert_eq!(store.aggregated.len(), 0);
}

#[test]
fn three_snapshot_bucket_rolls_into_one_minute_row() {
    let mut store = HistoryStore::new();
    store.save_snapshots(
        &[
            snapshot(60_000, 1000, 100),
            snapshot(60_001, 2000, 200),
            snapshot(60_002, 3000, 300),
        ],
        &info(),
    );
    run_phase_a(&mut store, 1_000_000);
    assert_eq!(store.raw.len(), 0);
    assert_eq!(store.aggregated.len(), 1);
    let row = &store.aggregated[0];
    assert_eq!(row.created_at, 60_000);
    assert_eq!(row.resolution_seconds, 60);
    assert_eq!(row.cpu_load_avg, 2000);
    assert_eq!(row.cpu_load_min, 1000);
    assert_eq!(row.cpu_load_max, 3000);
    assert_eq!(row.memory_used_avg, 200);
    assert_eq!(row.memory_used_min, 100);
    assert_eq!(row.memory_used_max, 300);
}

#[test]
fn phase_a_keeps_rows_of_incomplete_buckets() {
    let mut store = HistoryStore::new();
    store.save_snapshots(
        &[snapshot(60_000, 1000, 100), snapshot(130_000, 2000, 200)],
        &info(),
    );
    // Cutoff inside the second bucket: only the first bucket is complete.
    run_phase_a(&mut store, 150_000);
    assert_eq!(store.raw.len(), 1);
    assert_eq!(store.raw[0].timestamp, 130_000);
    assert_eq!(store.aggregated.len(), 1);
    assert_eq!(store.aggregated[0].created_at, 60_000);
}

#[test]
fn phase_a_rerun_on_aggregated_window_is_a_no_op() {
    let mut store = HistoryStore::new();
    store.save_snapshots(
        &[snapshot(60_000, 1000, 100), snapshot(60_001, 3000, 300)],
        &info(),
    );
    run_phase_a(&mut store, 1_000_000);
    let rows_after_first = store.aggregated.len();
    let raw_after_first = store.raw.len();
    run_phase_a(&mut store, 1_000_000);
    assert_eq!(store.aggregated.len(), rows_after_first);
    assert_eq!(store.raw.len(), raw_after_first);
}

#[test]
fn five_one_min_rows_roll_into_one_five_min_row() {
    let mut store = HistoryStore::new();
    store.save_snapshots(
        &[
            snapshot(300_000, 1000, 100),
            snapshot(360_000, 2000, 200),
            snapshot(420_000, 3000, 300),
            snapshot(480_000, 4000, 400),
            snapshot(540_000, 5000, 500),
        ],
        &info(),
    );
    run_phase_a(&mut store, 1_000_000);
    assert_eq!(store.aggregated.len(), 5);
    run_phase_b(&mut store, 1_000_000);
    assert_eq!(store.aggregated.len(), 1);
    let row = &store.aggregated[0];
    assert_eq!(row.created_at, 300_000);
    assert_eq!(row.resolution_seconds, 300);
    assert_eq!(row.cpu_load_avg, 3000);
    assert_eq!(row.cpu_load_min, 1000);
    assert_eq!(row.cpu_load_max, 5000);
    assert_eq!(row.memory_used_avg, 300);
}

#[test]
fn backfill_runs_one_pass() {
    let mut store = HistoryStore::new();
    store.save_snapshots(&[snapshot(60_000, 1000, 100)], &info());
    run_backfill(&mut store, 3_600_000_000, &config());
    assert_eq!(store.raw.len(), 0);
}

#[test]
fn retention_prunes_rows_past_the_window() {
    let mut store = HistoryStore::new();
    let now: i64 = 10 * 86_400_000;
    let old_ts = (now - 4 * 86_400_000) as u64;
    let fresh_ts = (now - 120_000) as u64;
    store.save_snapshots(&[snapshot(old_ts, 1000, 100), snapshot(fresh_ts, 2000, 200)], &info());
    run_one_tick(&mut store, now, &config());
    // The old row was aggregated, but its bucket is past three days of
    // retention, so the aggregate was pruned as well.
    for row in &store.aggregated {
        assert!(row.created_at >= now - 3 * 86_400_000);
    }
    for row in &store.raw {
        assert!((row.timestamp as i64) >= now - 3 * 86_400_000);
    }
}
