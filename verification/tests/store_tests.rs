// Store model tests: saving, range reads, minima, deletes, pruning, and
// the identity singleton.

use homeserver::models::{
    CpuStats, FullSystemSnapshot, NetworkStats, RamStats, StorageStats, SystemInfo,
    SystemStatsDynamic,
};
use homeserver::store::HistoryStore;

fn minimal_system_info() -> SystemInfo {
    SystemInfo {
        os_family: "Linux".to_string(),
        os_manufacturer: String::new(),
        os_version: String::new(),
        system_manufacturer: String::new(),
        system_model: String::new(),
        processor_name: String::new(),
    }
}

fn minimal_snapshot(timestamp: u64) -> FullSystemSnapshot {
    FullSystemSnapshot {
        timestamp,
        cpu: CpuStats {
            model: "test".to_string(),
            physical_cores: 1,
            logical_cores: 2,
            usage_percent: 1000,
            temperature: 0,
        },
        ram: RamStats { total: 1024, used: 512, available: 512, usage_percent: 5000 },
        containers: vec![],
        storage: StorageStats { partitions: vec![], disks: vec![] },
        network: NetworkStats { interfaces: vec![] },
        system: SystemStatsDynamic {
            uptime_secs: 0,
            process_count: 0,
            thread_count: 0,
            cpu_voltage: 0,
            fan_speeds: vec![],
        },
    }
}

#[test]
fn history_repo_save_empty_no_op() {
    let mut store = HistoryStore::new();
    store.save_snapshots(&[], &minimal_system_info());
    assert_eq!(store.raw.len(), 0);
    assert!(store.get_stored_system_info().is_none());
}

#[test]
fn history_repo_save_and_get_recent() {
    let mut store = HistoryStore::new();
    let snapshots = vec![
        minimal_snapshot(1000),
        minimal_snapshot(2000),
        minimal_snapshot(3000),
    ];
    store.save_snapshots(&snapshots, &minimal_system_info());

    let (info, recent) = store.get_recent_snapshots(10);
    assert!(info.is_some());
    assert_eq!(recent.len(), 3);
    assert_eq!(recent[0].timestamp, 1000);
    assert_eq!(recent[1].timestamp, 2000);
    assert_eq!(recent[2].timestamp, 3000);
    assert_eq!(recent[0].cpu.usage_percent, 1000);
    assert_eq!(recent[0].ram.used, 512);

    let (_info2, limited) = store.get_recent_snapshots(2);
    assert_eq!(limited.len(), 2);
    assert_eq!(limited[0].timestamp, 2000);
    assert_eq!(limited[1].timestamp, 3000);
}

#[test]
fn history_repo_get_raw_snapshots_by_time_range() {
    let mut store = HistoryStore::new();
    let snapshots = vec![
        minimal_snapshot(1000),
        minimal_snapshot(2000),
        minimal_snapshot(3000),
        minimal_snapshot(4000),
    ];
    store.save_snapshots(&snapshots, &minimal_system_info());

    let range = store.get_raw_snapshots_by_time_range(2000, 4000);
    assert_eq!(range.len(), 2);
    assert_eq!(range[0].timestamp, 2000);
    assert_eq!(range[1].timestamp, 3000);

    let empty = store.get_raw_snapshots_by_time_range(5000, 6000);
    assert!(empty.is_empty());
}

#[test]
fn history_repo_get_min_raw_created_at_before() {
    let mut store = HistoryStore::new();
    assert!(store.get_min_raw_created_at_before(1000).is_none());

    store.save_snapshots(
        &[minimal_snapshot(1000), minimal_snapshot(2000)],
        &minimal_system_info(),
    );
    assert_eq!(store.get_min_raw_created_at_before(5000), Some(1000));
    assert_eq!(store.get_min_raw_created_at_before(1500), Some(1000));
    assert!(store.get_min_raw_created_at_before(1000).is_none());
}

#[test]
fn history_repo_delete_raw_range() {
    let mut store = HistoryStore::new();
    let snapshots = vec![
        minimal_snapshot(1000),
        minimal_snapshot(2000),
        minimal_snapshot(3000),
    ];
    store.save_snapshots(&snapshots, &minimal_system_info());

    let deleted = store.delete_raw_range(2000, 3000);
    assert_eq!(deleted, 1);
    assert_eq!(store.raw.len(), 2);
    assert_eq!(store.raw[0].timestamp, 1000);
    assert_eq!(store.raw[1].timestamp, 3000);
}

fn minimal_aggregated(created_at: i64) -> homeserver::models::AggregatedSnapshot {
    homeserver::models::AggregatedSnapshot {
        created_at,
        resolution_seconds: 60,
        cpu_load_avg: 1000,
        cpu_load_min: 500,
        cpu_load_max: 1500,
        memory_used_avg: 512,
        memory_used_min: 256,
        memory_used_max: 768,
        containers: vec![],
        storage: StorageStats { partitions: vec![], disks: vec![] },
        network: NetworkStats { interfaces: vec![] },
        system: SystemStatsDynamic {
            uptime_secs: 0,
            process_count: 0,
            thread_count: 0,
            cpu_voltage: 0,
            fan_speeds: vec![],
        },
    }
}

#[test]
fn history_repo_get_aggregated_snapshots_by_time_range() {
    let mut store = HistoryStore::new();
    for ts in [60_000, 120_000, 180_000] {
        store.save_aggregated_snapshot(&minimal_aggregated(ts));
    }
    let range = store.get_aggregated_snapshots_by_time_range(120_000, 180_000, 60);
    assert_eq!(range.len(), 1);
    assert_eq!(range[0].created_at, 120_000);
    assert_eq!(range[0].resolution_seconds, 60);

    let empty = store.get_aggregated_snapshots_by_time_range(200_000, 300_000, 60);
    assert!(empty.is_empty());
    let wrong_resolution = store.get_aggregated_snapshots_by_time_range(0, 300_000, 300);
    assert!(wrong_resolution.is_empty());
}

#[test]
fn history_repo_delete_aggregated_range() {
    let mut store = HistoryStore::new();
    for ts in [60_000, 120_000, 180_000] {
        store.save_aggregated_snapshot(&minimal_aggregated(ts));
    }
    let deleted = store.delete_aggregated_range(120_000, 180_000, 60);
    assert_eq!(deleted, 1);
    let remaining = store.get_aggregated_snapshots_by_time_range(0, 300_000, 60);
    assert_eq!(remaining.len(), 2);
    assert_eq!(remaining[0].created_at, 60_000);
    assert_eq!(remaining[1].created_at, 180_000);
}

#[test]
fn system_info_row_is_a_singleton() {
    let mut store = HistoryStore::new();
    assert!(store.get_stored_system_info().is_none());
    store.save_snapshots(&[minimal_snapshot(1)], &minimal_system_info());
    let mut second = minimal_system_info();
    second.os_family = "Other".to_string();
    store.save_snapshots(&[minimal_snapshot(2)], &second);
    // Saving twice upserts the one row; the last write wins.
    let info = store.get_stored_system_info().unwrap();
    assert_eq!(info.os_family, "Other");
}

#[test]
fn prune_removes_only_old_rows() {
    let mut store = HistoryStore::new();
    store.save_snapshots(
        &[minimal_snapshot(1000), minimal_snapshot(5000)],
        &minimal_system_info(),
    );
    store.save_aggregated_snapshot(&minimal_aggregated(1000));
    store.save_aggregated_snapshot(&minimal_aggregated(5000));
    store.prune_raw_before(2000);
    store.prune_aggregated_before(2000);
    assert_eq!(store.raw.len(), 1);
    assert_eq!(store.raw[0].timestamp, 5000);
    assert_eq!(store.aggregated.len(), 1);
    assert_eq!(store.aggregated[0].created_at, 5000);
}

#[test]
fn unsorted_batch_is_stored_in_timestamp_order() {
    let mut store = HistoryStore::new();
    store.save_snapshots(
        &[minimal_snapshot(3000), minimal_snapshot(1000), minimal_snapshot(2000)],
        &minimal_system_info(),
    );
    assert_eq!(store.raw[0].timestamp, 1000);
    assert_eq!(store.raw[1].timestamp, 2000);
    assert_eq!(store.raw[2].timestamp, 3000);
}
