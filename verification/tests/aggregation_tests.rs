// Aggregation logic tests: aggregate_snapshots (avg/min/max, container
// aggregation). Percent values are integers in hundredths, so 10 % is 1000.

use homeserver::aggregate::{
    aggregate_aggregated_snapshots, aggregate_one_container, aggregate_snapshots, mean_i64,
    mean_u64,
};
use homeserver::models::{
    AggregatedSnapshot, ContainerState, ContainerStats, CpuStats, FullSystemSnapshot,
    NetworkStats, RamStats, StorageStats, SystemStatsDynamic,
};

fn empty_dynamic() -> SystemStatsDynamic {
    SystemStatsDynamic {
        uptime_secs: 0,
        process_count: 0,
        thread_count: 0,
        cpu_voltage: 0,
        fan_speeds: vec![],
    }
}

fn snapshot(ts: u64, cpu_percent: u64, memory_used: u64) -> FullSystemSnapshot {
    FullSystemSnapshot {
        timestamp: ts,
        cpu: CpuStats {
            model: String::new(),
            physical_cores: 0,
            logical_cores: 0,
            usage_percent: cpu_percent,
            temperature: 0,
        },
        ram: RamStats { total: 0, used: memory_used, available: 0, usage_percent: 0 },
        containers: vec![],
        storage: StorageStats { partitions: vec![], disks: vec![] },
        network: NetworkStats { interfaces: vec![] },
        system: empty_dynamic(),
    }
}

fn container(id: &str, name: &str, cpu_percent: u64, rx: u64) -> ContainerStats {
    ContainerStats {
        id: id.to_string(),
        name: name.to_string(),
        cpu_percent,
        cpu_kernel_percent: 0,
        cpu_user_percent: 0,
        online_cpus: 1,
        memory_usage_bytes: 0,
        memory_limit_bytes: 0,
        state: ContainerState::Running,
        network_rx_bytes: rx,
        network_tx_bytes: 0,
        network_rx_packets: 0,
        network_tx_packets: 0,
        network_rx_errors: 0,
        network_tx_errors: 0,
        network_rx_dropped: 0,
        network_tx_dropped: 0,
        block_read_bytes: 0,
        block_write_bytes: 0,
        block_read_ops: 0,
        block_write_ops: 0,
        pids: 0,
        pids_limit: 0,
        cpu_throttled: false,
        cpu_throttled_periods: 0,
        cpu_throttled_time_ns: 0,
        memory_max_usage_bytes: 0,
    }
}

#[test]
fn aggregate_snapshots_empty_returns_none() {
    let snapshots: Vec<FullSystemSnapshot> = vec![];
    let out = aggregate_snapshots(&snapshots, 60_000, 60);
    assert!(out.is_none());
}

#[test]
fn aggregate_snapshots_single_snapshot() {
    let snapshots = vec![snapshot(60_000, 2500, 512)];
    let out = aggregate_snapshots(&snapshots, 60_000, 60).unwrap();
    assert_eq!(out.created_at, 60_000);
    assert_eq!(out.resolution_seconds, 60);
    assert_eq!(out.cpu_load_avg, 2500);
    assert_eq!(out.cpu_load_min, 2500);
    assert_eq!(out.cpu_load_max, 2500);
    assert_eq!(out.memory_used_avg, 512);
    assert_eq!(out.memory_used_min, 512);
    assert_eq!(out.memory_used_max, 512);
}

#[test]
fn aggregate_snapshots_multiple_computes_avg_min_max() {
    let snapshots = vec![
        snapshot(60_000, 1000, 100),
        snapshot(60_001, 2000, 200),
        snapshot(60_002, 3000, 300),
    ];
    let out = aggregate_snapshots(&snapshots, 60_000, 60).unwrap();
    assert_eq!(out.created_at, 60_000);
    assert_eq!(out.cpu_load_avg, 2000);
    assert_eq!(out.cpu_load_min, 1000);
    assert_eq!(out.cpu_load_max, 3000);
    assert_eq!(out.memory_used_avg, 200);
    assert_eq!(out.memory_used_min, 100);
    assert_eq!(out.memory_used_max, 300);
}

fn one_min(created_at: i64, cpu_avg: u64, mem_avg: i64) -> AggregatedSnapshot {
    AggregatedSnapshot {
        created_at,
        resolution_seconds: 60,
        cpu_load_avg: cpu_avg,
        cpu_load_min: cpu_avg - 100,
        cpu_load_max: cpu_avg + 100,
        memory_used_avg: mem_avg,
        memory_used_min: mem_avg - 10,
        memory_used_max: mem_avg + 10,
        containers: vec![],
        storage: StorageStats { partitions: vec![], disks: vec![] },
        network: NetworkStats { interfaces: vec![] },
        system: empty_dynamic(),
    }
}

#[test]
fn aggregate_aggregated_snapshots_empty_returns_none() {
    let aggs: Vec<AggregatedSnapshot> = vec![];
    let out = aggregate_aggregated_snapshots(&aggs, 300_000, 300);
    assert!(out.is_none());
}

#[test]
fn aggregate_aggregated_snapshots_five_one_min_produces_5min() {
    let aggs = vec![
        one_min(300_000, 1000, 100),
        one_min(360_000, 2000, 200),
        one_min(420_000, 3000, 300),
        one_min(480_000, 4000, 400),
        one_min(540_000, 5000, 500),
    ];
    let out = aggregate_aggregated_snapshots(&aggs, 300_000, 300).unwrap();
    assert_eq!(out.created_at, 300_000);
    assert_eq!(out.resolution_seconds, 300);
    assert_eq!(out.cpu_load_avg, 3000);
    assert_eq!(out.cpu_load_min, 900);
    assert_eq!(out.cpu_load_max, 5100);
    assert_eq!(out.memory_used_avg, 300);
    assert_eq!(out.memory_used_min, 90);
    assert_eq!(out.memory_used_max, 510);
}

#[test]
fn aggregate_containers_groups_by_id_and_sorts_by_name() {
    let mut s1 = snapshot(60_000, 1000, 100);
    s1.containers = vec![container("b-id", "zeta", 1000, 5), container("a-id", "alpha", 3000, 7)];
    let mut s2 = snapshot(60_001, 2000, 200);
    s2.containers = vec![container("b-id", "zeta", 3000, 10)];
    let out = aggregate_snapshots(&[s1, s2], 60_000, 60).unwrap();
    assert_eq!(out.containers.len(), 2);
    assert_eq!(out.containers[0].name, "alpha");
    assert_eq!(out.containers[1].name, "zeta");
    // Gauges average, counters sum.
    assert_eq!(out.containers[0].cpu_percent, 3000);
    assert_eq!(out.containers[0].network_rx_bytes, 7);
    assert_eq!(out.containers[1].cpu_percent, 2000);
    assert_eq!(out.containers[1].network_rx_bytes, 15);
}

#[test]
fn aggregate_one_container_counters_sum_and_state_is_last() {
    let mut a = container("x", "x-name", 1000, 100);
    a.state = ContainerState::Running;
    a.pids = 4;
    let mut b = container("x", "x-name", 3000, 200);
    b.state = ContainerState::Paused;
    b.pids = 6;
    let out = aggregate_one_container(&[a, b]);
    assert_eq!(out.id, "x");
    assert_eq!(out.cpu_percent, 2000);
    assert_eq!(out.network_rx_bytes, 300);
    assert_eq!(out.state, ContainerState::Paused);
    assert_eq!(out.pids, 6);
}

#[test]
fn means_truncate_and_default_to_zero() {
    assert_eq!(mean_u64(&[]), 0);
    assert_eq!(mean_u64(&[1, 2]), 1);
    assert_eq!(mean_i64(&[]), 0);
    assert_eq!(mean_i64(&[5, 6]), 5);
}
