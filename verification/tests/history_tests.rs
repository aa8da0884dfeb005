// History query tests: resolution parsing, downsampling, row
// reconstruction, and stitching across the raw cutoff.

use homeserver::history::{
    aggregated_to_snapshot, downsample_snapshots, merge_by_timestamp, parse_resolution,
    snapshot_from_row,
};
use homeserver::models::{
    AggregatedSnapshot, CpuStats, FullSystemSnapshot, NetworkStats, RamStats, StorageStats,
    SystemInfo, SystemStatsDynamic,
};
use homeserver::store::HistoryStore;

#[test]
fn parse_resolution_accepts_named_steps() {
    assert_eq!(parse_resolution("1s"), Some(1));
    assert_eq!(parse_resolution("30s"), Some(30));
    assert_eq!(parse_resolution("1m"), Some(60));
    assert_eq!(parse_resolution("5m"), Some(300));
    assert_eq!(parse_resolution("1"), Some(1));
    assert_eq!(parse_resolution("30"), Some(30));
    assert_eq!(parse_resolution("60"), Some(60));
    assert_eq!(parse_resolution("300"), Some(300));
}

#[test]
fn parse_resolution_is_case_insensitive_and_trims() {
    assert_eq!(parse_resolution(" 5M "), Some(300));
    assert_eq!(parse_resolution("\t1S\n"), Some(1));
}

#[test]
fn parse_resolution_accepts_plain_seconds_in_range() {
    assert_eq!(parse_resolution("45"), Some(45));
    assert_eq!(parse_resolution("+45"), Some(45));
    assert_eq!(parse_resolution("3600"), Some(3600));
}

#[test]
fn parse_resolution_rejects_out_of_range_and_garbage() {
    assert_eq!(parse_resolution("0"), None);
    assert_eq!(parse_resolution("3601"), None);
    assert_eq!(parse_resolution("abc"), None);
    assert_eq!(parse_resolution(""), None);
    assert_eq!(parse_resolution("  "), None);
    assert_eq!(parse_resolution("99999999999999999999"), None);
}

fn snapshot(ts: u64, cpu: u64) -> FullSystemSnapshot {
    FullSystemSnapshot {
        timestamp: ts,
        cpu: CpuStats {
            model: String::new(),
            physical_cores: 0,
            logical_cores: 0,
            usage_percent: cpu,
            temperature: 0,
        },
        ram: RamStats { total: 0, used: 0, available: 0, usage_percent: 0 },
        containers: vec![],
        storage: StorageStats { partitions: vec![], disks: vec![] },
        network: NetworkStats { interfaces: vec![] },
        system: SystemStatsDynamic {
            uptime_secs: 0,
            process_count: 0,
            thread_count: 0,
            cpu_voltage: 0,
            fan_speeds: vec![],
        },
    }
}

#[test]
fn downsample_keeps_last_sample_per_bucket() {
    let input = vec![
        snapshot(60_000, 1),
        snapshot(60_500, 2),
        snapshot(61_000, 3),
        snapshot(120_000, 4),
    ];
    let out = downsample_snapshots(&input, 60_000);
    assert_eq!(out.len(), 2);
    assert_eq!(out[0].timestamp, 61_000);
    assert_eq!(out[0].cpu.usage_percent, 3);
    assert_eq!(out[1].timestamp, 120_000);
}

#[test]
fn downsample_with_nonpositive_width_is_identity() {
    let input = vec![snapshot(1, 1), snapshot(2, 2)];
    let out = downsample_snapshots(&input, 0);
    assert_eq!(out.len(), 2);
    assert_eq!(out[0].timestamp, 1);
    assert_eq!(out[1].timestamp, 2);
}

#[test]
fn merge_orders_by_timestamp_with_left_first_on_ties() {
    let a = vec![snapshot(10, 1), snapshot(30, 2)];
    let b = vec![snapshot(10, 9), snapshot(20, 8)];
    let out = merge_by_timestamp(a, b);
    let ts: Vec<u64> = out.iter().map(|s| s.timestamp).collect();
    assert_eq!(ts, vec![10, 10, 20, 30]);
    assert_eq!(out[0].cpu.usage_percent, 1);
    assert_eq!(out[1].cpu.usage_percent, 9);
}

#[test]
fn snapshot_from_row_defaults_corrupt_columns_to_empty() {
    // A corrupted container column yields an empty list with every other
    // field intact.
    let r = snapshot_from_row(
        1234,
        5000,
        768,
        None,
        Some(StorageStats {
            partitions: vec![],
            disks: vec![homeserver::models::DiskDeviceStat {
                name: "sda".to_string(),
                model: "SSD".to_string(),
                size: 10,
                read_bytes: 1,
                write_bytes: 2,
                transfer_time_ms: 3,
            }],
        }),
        None,
        None,
    );
    assert_eq!(r.timestamp, 1234);
    assert_eq!(r.cpu.usage_percent, 5000);
    assert_eq!(r.ram.used, 768);
    assert!(r.containers.is_empty());
    assert_eq!(r.storage.disks.len(), 1);
    assert!(r.network.interfaces.is_empty());
    assert_eq!(r.system.process_count, 0);
}

fn aggregated(created_at: i64, cpu_avg: u64, mem_avg: i64) -> AggregatedSnapshot {
    AggregatedSnapshot {
        created_at,
        resolution_seconds: 60,
        cpu_load_avg: cpu_avg,
        cpu_load_min: cpu_avg,
        cpu_load_max: cpu_avg,
        memory_used_avg: mem_avg,
        memory_used_min: mem_avg,
        memory_used_max: mem_avg,
        containers: vec![],
        storage: StorageStats { partitions: vec![], disks: vec![] },
        network: NetworkStats { interfaces: vec![] },
        system: SystemStatsDynamic {
            uptime_secs: 0,
            process_count: 0,
            thread_count: 0,
            cpu_voltage: 0,
            fan_speeds: vec![],
        },
    }
}

#[test]
fn aggregated_rows_project_back_to_samples() {
    let s = aggregated_to_snapshot(aggregated(60_000, 2500, 300));
    assert_eq!(s.timestamp, 60_000);
    assert_eq!(s.cpu.usage_percent, 2500);
    assert_eq!(s.ram.used, 300);
}

#[test]
fn history_stitches_aggregated_then_raw_across_the_cutoff() {
    let now: i64 = 7_200_000;
    let cutoff: i64 = now - 3_600_000;
    let mut store = HistoryStore::new();
    let info = SystemInfo {
        os_family: String::new(),
        os_manufacturer: String::new(),
        os_version: String::new(),
        system_manufacturer: String::new(),
        system_model: String::new(),
        processor_name: String::new(),
    };
    // Aggregated 1 min rows older than the cutoff.
    store.save_aggregated_snapshot(&aggregated(600_000, 1000, 100));
    store.save_aggregated_snapshot(&aggregated(1_200_000, 2000, 200));
    // Raw rows younger than the cutoff.
    store.save_snapshots(
        &[snapshot(3_700_000, 10), snapshot(3_700_500, 11), snapshot(3_900_000, 12)],
        &info,
    );
    let out = store.get_history(0, now, 60, cutoff);
    let ts: Vec<u64> = out.iter().map(|s| s.timestamp).collect();
    // Aggregated rows first, then raw downsampled to one per minute,
    // strictly ascending.
    assert_eq!(ts, vec![600_000, 1_200_000, 3_700_500, 3_900_000]);
    assert_eq!(out[0].cpu.usage_percent, 1000);
    assert_eq!(out[2].cpu.usage_percent, 11);
}

#[test]
fn history_reads_only_raw_when_window_is_past_the_cutoff() {
    let mut store = HistoryStore::new();
    let info = SystemInfo {
        os_family: String::new(),
        os_manufacturer: String::new(),
        os_version: String::new(),
        system_manufacturer: String::new(),
        system_model: String::new(),
        processor_name: String::new(),
    };
    store.save_aggregated_snapshot(&aggregated(100, 1000, 100));
    store.save_snapshots(&[snapshot(5000, 1), snapshot(6000, 2)], &info);
    let out = store.get_history(4000, 10_000, 1, 4000);
    let ts: Vec<u64> = out.iter().map(|s| s.timestamp).collect();
    assert_eq!(ts, vec![5000, 6000]);
}

#[test]
fn history_reads_only_aggregated_when_window_is_before_the_cutoff() {
    let mut store = HistoryStore::new();
    let info = SystemInfo {
        os_family: String::new(),
        os_manufacturer: String::new(),
        os_version: String::new(),
        system_manufacturer: String::new(),
        system_model: String::new(),
        processor_name: String::new(),
    };
    let mut row = aggregated(100_000, 1500, 100);
    row.resolution_seconds = 300;
    store.save_aggregated_snapshot(&row);
    store.save_snapshots(&[snapshot(900_000, 1)], &info);
    let out = store.get_history(0, 500_000, 300, 800_000);
    let ts: Vec<u64> = out.iter().map(|s| s.timestamp).collect();
    assert_eq!(ts, vec![100_000]);
    assert_eq!(out[0].cpu.usage_percent, 1500);
}
