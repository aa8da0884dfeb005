//! Domain model of one telemetry sample and its aggregated form.
//!
//! Percent-like quantities are carried as integers in hundredths (so
//! `12.5 %` is stored as `1250`), which keeps every field a plain value
//! that contracts can speak about exactly. Rates are whole units per
//! second. Each type has a mathematical view (`@`) over sequences and
//! plain integers; contracts are stated over those views.

use vstd::prelude::*;

verus! {

/// Container state as reported by the container runtime; stored lowercase.
#[derive(Clone, Copy, Debug, PartialEq, Eq, Structural)]
pub enum ContainerState {
    Running,
    Exited,
    Paused,
    Restarting,
    Unknown,
}

/// Lowercase image of a character, folding only the ASCII range.
pub open spec fn spec_lower_char(c: char) -> char {
    if 'A' <= c && c <= 'Z' {
        ((c as u32) + 32) as char
    } else {
        c
    }
}

/// Case-insensitive (ASCII folding) equality of two character sequences.
pub open spec fn spec_eq_ignore_ascii_case(a: Seq<char>, b: Seq<char>) -> bool {
    a.len() == b.len() && forall|i: int|
        0 <= i < a.len() ==> spec_lower_char(a[i]) == spec_lower_char(b[i])
}

/// The state a runtime state string denotes, compared case-insensitively;
/// anything unrecognised maps to `Unknown`.
pub open spec fn spec_from_docker(s: Seq<char>) -> ContainerState {
    if spec_eq_ignore_ascii_case(s, "running"@) {
        ContainerState::Running
    } else if spec_eq_ignore_ascii_case(s, "exited"@) {
        ContainerState::Exited
    } else if spec_eq_ignore_ascii_case(s, "paused"@) {
        ContainerState::Paused
    } else if spec_eq_ignore_ascii_case(s, "restarting"@) {
        ContainerState::Restarting
    } else {
        ContainerState::Unknown
    }
}

/// Case-insensitive comparison of `s` against an expected all-lowercase word.
fn eq_ignore_ascii_case(s: &str, word: &str) -> (r: bool)
    ensures
        r == spec_eq_ignore_ascii_case(s@, word@),
{
    let n = s.unicode_len();
    if n != word.unicode_len() {
        return false;
    }
    let mut i: usize = 0;
    while i < n
        invariant
            i <= n,
            n == s@.len(),
            n == word@.len(),
            forall|j: int| 0 <= j < i ==> spec_lower_char(s@[j]) == spec_lower_char(word@[j]),
        decreases n - i,
    {
        let a = s.get_char(i);
        let b = word.get_char(i);
        let a32 = a as u32;
        let b32 = b as u32;
        let la: u32 = if 'A' <= a && a <= 'Z' {
            a32 + 32
        } else {
            a32
        };
        let lb: u32 = if 'A' <= b && b <= 'Z' {
            b32 + 32
        } else {
            b32
        };
        if la != lb {
            assert(spec_lower_char(s@[i as int]) != spec_lower_char(word@[i as int]));
            return false;
        }
        assert(spec_lower_char(s@[i as int]) == spec_lower_char(word@[i as int]));
        i += 1;
    }
    true
}

impl ContainerState {
    /// Parse a container runtime state string (e.g. "running", "Exited").
    pub fn from_docker(s: &str) -> (r: Self)
        ensures
            r == spec_from_docker(s@),
    {
        if eq_ignore_ascii_case(s, "running") {
            ContainerState::Running
        } else if eq_ignore_ascii_case(s, "exited") {
            ContainerState::Exited
        } else if eq_ignore_ascii_case(s, "paused") {
            ContainerState::Paused
        } else if eq_ignore_ascii_case(s, "restarting") {
            ContainerState::Restarting
        } else {
            ContainerState::Unknown
        }
    }
}

/// CPU sample. `usage_percent` and `temperature` are hundredths.
pub struct CpuStats {
    pub model: String,
    pub physical_cores: u32,
    pub logical_cores: u32,
    pub usage_percent: u64,
    pub temperature: i64,
}

pub ghost struct CpuStatsV {
    pub model: Seq<char>,
    pub physical_cores: u32,
    pub logical_cores: u32,
    pub usage_percent: u64,
    pub temperature: i64,
}

impl View for CpuStats {
    type V = CpuStatsV;

    open spec fn view(&self) -> CpuStatsV {
        CpuStatsV {
            model: self.model@,
            physical_cores: self.physical_cores,
            logical_cores: self.logical_cores,
            usage_percent: self.usage_percent,
            temperature: self.temperature,
        }
    }
}

impl CpuStats {
    pub fn duplicate(&self) -> (r: Self)
        ensures
            r@ == self@,
    {
        CpuStats {
            model: self.model.clone(),
            physical_cores: self.physical_cores,
            logical_cores: self.logical_cores,
            usage_percent: self.usage_percent,
            temperature: self.temperature,
        }
    }
}

/// RAM sample in bytes. `usage_percent` is hundredths.
pub struct RamStats {
    pub total: u64,
    pub used: u64,
    pub available: u64,
    pub usage_percent: u64,
}

pub ghost struct RamStatsV {
    pub total: u64,
    pub used: u64,
    pub available: u64,
    pub usage_percent: u64,
}

impl View for RamStats {
    type V = RamStatsV;

    open spec fn view(&self) -> RamStatsV {
        RamStatsV {
            total: self.total,
            used: self.used,
            available: self.available,
            usage_percent: self.usage_percent,
        }
    }
}

impl RamStats {
    pub fn duplicate(&self) -> (r: Self)
        ensures
            r@ == self@,
    {
        RamStats {
            total: self.total,
            used: self.used,
            available: self.available,
            usage_percent: self.usage_percent,
        }
    }
}

/// One observation of one container. Identity is `(id, name)`; percent
/// fields are hundredths; byte, packet and period fields are counters.
pub struct ContainerStats {
    pub id: String,
    pub name: String,
    pub cpu_percent: u64,
    pub cpu_kernel_percent: u64,
    pub cpu_user_percent: u64,
    pub online_cpus: u32,
    pub memory_usage_bytes: u64,
    pub memory_limit_bytes: u64,
    pub state: ContainerState,
    pub network_rx_bytes: u64,
    pub network_tx_bytes: u64,
    pub network_rx_packets: u64,
    pub network_tx_packets: u64,
    pub network_rx_errors: u64,
    pub network_tx_errors: u64,
    pub network_rx_dropped: u64,
    pub network_tx_dropped: u64,
    pub block_read_bytes: u64,
    pub block_write_bytes: u64,
    pub block_read_ops: u64,
    pub block_write_ops: u64,
    pub pids: u64,
    pub pids_limit: u64,
    pub cpu_throttled: bool,
    pub cpu_throttled_periods: u64,
    pub cpu_throttled_time_ns: u64,
    pub memory_max_usage_bytes: u64,
}

pub ghost struct ContainerStatsV {
    pub id: Seq<char>,
    pub name: Seq<char>,
    pub cpu_percent: u64,
    pub cpu_kernel_percent: u64,
    pub cpu_user_percent: u64,
    pub online_cpus: u32,
    pub memory_usage_bytes: u64,
    pub memory_limit_bytes: u64,
    pub state: ContainerState,
    pub network_rx_bytes: u64,
    pub network_tx_bytes: u64,
    pub network_rx_packets: u64,
    pub network_tx_packets: u64,
    pub network_rx_errors: u64,
    pub network_tx_errors: u64,
    pub network_rx_dropped: u64,
    pub network_tx_dropped: u64,
    pub block_read_bytes: u64,
    pub block_write_bytes: u64,
    pub block_read_ops: u64,
    pub block_write_ops: u64,
    pub pids: u64,
    pub pids_limit: u64,
    pub cpu_throttled: bool,
    pub cpu_throttled_periods: u64,
    pub cpu_throttled_time_ns: u64,
    pub memory_max_usage_bytes: u64,
}

impl View for ContainerStats {
    type V = ContainerStatsV;

    open spec fn view(&self) -> ContainerStatsV {
        ContainerStatsV {
            id: self.id@,
            name: self.name@,
            cpu_percent: self.cpu_percent,
            cpu_kernel_percent: self.cpu_kernel_percent,
            cpu_user_percent: self.cpu_user_percent,
            online_cpus: self.online_cpus,
            memory_usage_bytes: self.memory_usage_bytes,
            memory_limit_bytes: self.memory_limit_bytes,
            state: self.state,
            network_rx_bytes: self.network_rx_bytes,
            network_tx_bytes: self.network_tx_bytes,
            network_rx_packets: self.network_rx_packets,
            network_tx_packets: self.network_tx_packets,
            network_rx_errors: self.network_rx_errors,
            network_tx_errors: self.network_tx_errors,
            network_rx_dropped: self.network_rx_dropped,
            network_tx_dropped: self.network_tx_dropped,
            block_read_bytes: self.block_read_bytes,
            block_write_bytes: self.block_write_bytes,
            block_read_ops: self.block_read_ops,
            block_write_ops: self.block_write_ops,
            pids: self.pids,
            pids_limit: self.pids_limit,
            cpu_throttled: self.cpu_throttled,
            cpu_throttled_periods: self.cpu_throttled_periods,
            cpu_throttled_time_ns: self.cpu_throttled_time_ns,
            memory_max_usage_bytes: self.memory_max_usage_bytes,
        }
    }
}

impl ContainerStats {
    pub fn duplicate(&self) -> (r: Self)
        ensures
            r@ == self@,
    {
        ContainerStats {
            id: self.id.clone(),
            name: self.name.clone(),
            cpu_percent: self.cpu_percent,
            cpu_kernel_percent: self.cpu_kernel_percent,
            cpu_user_percent: self.cpu_user_percent,
            online_cpus: self.online_cpus,
            memory_usage_bytes: self.memory_usage_bytes,
            memory_limit_bytes: self.memory_limit_bytes,
            state: self.state,
            network_rx_bytes: self.network_rx_bytes,
            network_tx_bytes: self.network_tx_bytes,
            network_rx_packets: self.network_rx_packets,
            network_tx_packets: self.network_tx_packets,
            network_rx_errors: self.network_rx_errors,
            network_tx_errors: self.network_tx_errors,
            network_rx_dropped: self.network_rx_dropped,
            network_tx_dropped: self.network_tx_dropped,
            block_read_bytes: self.block_read_bytes,
            block_write_bytes: self.block_write_bytes,
            block_read_ops: self.block_read_ops,
            block_write_ops: self.block_write_ops,
            pids: self.pids,
            pids_limit: self.pids_limit,
            cpu_throttled: self.cpu_throttled,
            cpu_throttled_periods: self.cpu_throttled_periods,
            cpu_throttled_time_ns: self.cpu_throttled_time_ns,
            memory_max_usage_bytes: self.memory_max_usage_bytes,
        }
    }
}

/// Views of the elements of a container vector.
pub open spec fn container_views(v: Seq<ContainerStats>) -> Seq<ContainerStatsV> {
    v.map_values(|c: ContainerStats| c@)
}

/// Copy a container vector, preserving every element's view.
pub fn duplicate_containers(v: &Vec<ContainerStats>) -> (r: Vec<ContainerStats>)
    ensures
        container_views(r@) == container_views(v@),
{
    let mut out: Vec<ContainerStats> = Vec::new();
    let mut i: usize = 0;
    while i < v.len()
        invariant
            i <= v.len(),
            out@.len() == i,
            forall|j: int| 0 <= j < i ==> out@[j]@ == v@[j]@,
        decreases v.len() - i,
    {
        out.push(v[i].duplicate());
        i += 1;
    }
    proof {
        assert(container_views(out@) =~= container_views(v@));
    }
    out
}

/// Views of the elements of a string vector.
pub open spec fn string_views(v: Seq<String>) -> Seq<Seq<char>> {
    v.map_values(|s: String| s@)
}

/// Copy a string vector, preserving every element's view.
pub fn duplicate_strings(v: &Vec<String>) -> (r: Vec<String>)
    ensures
        string_views(r@) == string_views(v@),
{
    let mut out: Vec<String> = Vec::new();
    let mut i: usize = 0;
    while i < v.len()
        invariant
            i <= v.len(),
            out@.len() == i,
            forall|j: int| 0 <= j < i ==> out@[j]@ == v@[j]@,
        decreases v.len() - i,
    {
        out.push(v[i].clone());
        i += 1;
    }
    proof {
        assert(string_views(out@) =~= string_views(v@));
    }
    out
}

/// Copy a vector of plain 32-bit values.
pub fn duplicate_u32s(v: &Vec<u32>) -> (r: Vec<u32>)
    ensures
        r@ == v@,
{
    let mut out: Vec<u32> = Vec::new();
    let mut i: usize = 0;
    while i < v.len()
        invariant
            i <= v.len(),
            out@ == v@.subrange(0, i as int),
        decreases v.len() - i,
    {
        out.push(v[i]);
        proof {
            assert(out@ =~= v@.subrange(0, i + 1 as int));
        }
        i += 1;
    }
    proof {
        assert(out@ =~= v@);
    }
    out
}

/// One mounted partition. `usage_percent` is hundredths.
pub struct PartitionStat {
    pub mount: String,
    pub name: String,
    pub type_: String,
    pub total_space: u64,
    pub used_space: u64,
    pub available_space: u64,
    pub usage_percent: u64,
}

pub ghost struct PartitionStatV {
    pub mount: Seq<char>,
    pub name: Seq<char>,
    pub type_: Seq<char>,
    pub total_space: u64,
    pub used_space: u64,
    pub available_space: u64,
    pub usage_percent: u64,
}

impl View for PartitionStat {
    type V = PartitionStatV;

    open spec fn view(&self) -> PartitionStatV {
        PartitionStatV {
            mount: self.mount@,
            name: self.name@,
            type_: self.type_@,
            total_space: self.total_space,
            used_space: self.used_space,
            available_space: self.available_space,
            usage_percent: self.usage_percent,
        }
    }
}

impl PartitionStat {
    pub fn duplicate(&self) -> (r: Self)
        ensures
            r@ == self@,
    {
        PartitionStat {
            mount: self.mount.clone(),
            name: self.name.clone(),
            type_: self.type_.clone(),
            total_space: self.total_space,
            used_space: self.used_space,
            available_space: self.available_space,
            usage_percent: self.usage_percent,
        }
    }
}

/// One physical disk device.
pub struct DiskDeviceStat {
    pub name: String,
    pub model: String,
    pub size: u64,
    pub read_bytes: u64,
    pub write_bytes: u64,
    pub transfer_time_ms: u64,
}

pub ghost struct DiskDeviceStatV {
    pub name: Seq<char>,
    pub model: Seq<char>,
    pub size: u64,
    pub read_bytes: u64,
    pub write_bytes: u64,
    pub transfer_time_ms: u64,
}

impl View for DiskDeviceStat {
    type V = DiskDeviceStatV;

    open spec fn view(&self) -> DiskDeviceStatV {
        DiskDeviceStatV {
            name: self.name@,
            model: self.model@,
            size: self.size,
            read_bytes: self.read_bytes,
            write_bytes: self.write_bytes,
            transfer_time_ms: self.transfer_time_ms,
        }
    }
}

impl DiskDeviceStat {
    pub fn duplicate(&self) -> (r: Self)
        ensures
            r@ == self@,
    {
        DiskDeviceStat {
            name: self.name.clone(),
            model: self.model.clone(),
            size: self.size,
            read_bytes: self.read_bytes,
            write_bytes: self.write_bytes,
            transfer_time_ms: self.transfer_time_ms,
        }
    }
}

/// Storage sample: mounted partitions and disk devices.
pub struct StorageStats {
    pub partitions: Vec<PartitionStat>,
    pub disks: Vec<DiskDeviceStat>,
}

pub ghost struct StorageStatsV {
    pub partitions: Seq<PartitionStatV>,
    pub disks: Seq<DiskDeviceStatV>,
}

impl View for StorageStats {
    type V = StorageStatsV;

    open spec fn view(&self) -> StorageStatsV {
        StorageStatsV {
            partitions: self.partitions@.map_values(|p: PartitionStat| p@),
            disks: self.disks@.map_values(|d: DiskDeviceStat| d@),
        }
    }
}

impl StorageStats {
    pub fn duplicate(&self) -> (r: Self)
        ensures
            r@ == self@,
    {
        let mut partitions: Vec<PartitionStat> = Vec::new();
        let mut i: usize = 0;
        while i < self.partitions.len()
            invariant
                i <= self.partitions.len(),
                partitions@.len() == i,
                forall|j: int| 0 <= j < i ==> partitions@[j]@ == self.partitions@[j]@,
            decreases self.partitions.len() - i,
        {
            partitions.push(self.partitions[i].duplicate());
            i += 1;
        }
        let mut disks: Vec<DiskDeviceStat> = Vec::new();
        let mut k: usize = 0;
        while k < self.disks.len()
            invariant
                k <= self.disks.len(),
                disks@.len() == k,
                forall|j: int| 0 <= j < k ==> disks@[j]@ == self.disks@[j]@,
            decreases self.disks.len() - k,
        {
            disks.push(self.disks[k].duplicate());
            k += 1;
        }
        let r = StorageStats { partitions, disks };
        proof {
            assert(r@.partitions =~= self@.partitions);
            assert(r@.disks =~= self@.disks);
        }
        r
    }
}

/// One network interface. Rates are whole bytes per second.
pub struct InterfaceStat {
    pub name: String,
    pub display_name: String,
    pub mac_address: String,
    pub ipv4: Vec<String>,
    pub ipv6: Vec<String>,
    pub bytes_sent: u64,
    pub bytes_recv: u64,
    pub packets_sent: u64,
    pub packets_recv: u64,
    pub speed: u64,
    pub received_bytes_per_sec: u64,
    pub transmitted_bytes_per_sec: u64,
    pub is_up: bool,
}

pub ghost struct InterfaceStatV {
    pub name: Seq<char>,
    pub display_name: Seq<char>,
    pub mac_address: Seq<char>,
    pub ipv4: Seq<Seq<char>>,
    pub ipv6: Seq<Seq<char>>,
    pub bytes_sent: u64,
    pub bytes_recv: u64,
    pub packets_sent: u64,
    pub packets_recv: u64,
    pub speed: u64,
    pub received_bytes_per_sec: u64,
    pub transmitted_bytes_per_sec: u64,
    pub is_up: bool,
}

impl View for InterfaceStat {
    type V = InterfaceStatV;

    open spec fn view(&self) -> InterfaceStatV {
        InterfaceStatV {
            name: self.name@,
            display_name: self.display_name@,
            mac_address: self.mac_address@,
            ipv4: string_views(self.ipv4@),
            ipv6: string_views(self.ipv6@),
            bytes_sent: self.bytes_sent,
            bytes_recv: self.bytes_recv,
            packets_sent: self.packets_sent,
            packets_recv: self.packets_recv,
            speed: self.speed,
            received_bytes_per_sec: self.received_bytes_per_sec,
            transmitted_bytes_per_sec: self.transmitted_bytes_per_sec,
            is_up: self.is_up,
        }
    }
}

impl InterfaceStat {
    pub fn duplicate(&self) -> (r: Self)
        ensures
            r@ == self@,
    {
        InterfaceStat {
            name: self.name.clone(),
            display_name: self.display_name.clone(),
            mac_address: self.mac_address.clone(),
            ipv4: duplicate_strings(&self.ipv4),
            ipv6: duplicate_strings(&self.ipv6),
            bytes_sent: self.bytes_sent,
            bytes_recv: self.bytes_recv,
            packets_sent: self.packets_sent,
            packets_recv: self.packets_recv,
            speed: self.speed,
            received_bytes_per_sec: self.received_bytes_per_sec,
            transmitted_bytes_per_sec: self.transmitted_bytes_per_sec,
            is_up: self.is_up,
        }
    }
}

/// Network sample: one entry per interface.
pub struct NetworkStats {
    pub interfaces: Vec<InterfaceStat>,
}

pub ghost struct NetworkStatsV {
    pub interfaces: Seq<InterfaceStatV>,
}

impl View for NetworkStats {
    type V = NetworkStatsV;

    open spec fn view(&self) -> NetworkStatsV {
        NetworkStatsV { interfaces: self.interfaces@.map_values(|i: InterfaceStat| i@) }
    }
}

impl NetworkStats {
    pub fn duplicate(&self) -> (r: Self)
        ensures
            r@ == self@,
    {
        let mut interfaces: Vec<InterfaceStat> = Vec::new();
        let mut i: usize = 0;
        while i < self.interfaces.len()
            invariant
                i <= self.interfaces.len(),
                interfaces@.len() == i,
                forall|j: int| 0 <= j < i ==> interfaces@[j]@ == self.interfaces@[j]@,
            decreases self.interfaces.len() - i,
        {
            interfaces.push(self.interfaces[i].duplicate());
            i += 1;
        }
        let r = NetworkStats { interfaces };
        proof {
            assert(r@.interfaces =~= self@.interfaces);
        }
        r
    }
}

/// Static system identity, captured once at startup and stored as a singleton.
pub struct SystemInfo {
    pub os_family: String,
    pub os_manufacturer: String,
    pub os_version: String,
    pub system_manufacturer: String,
    pub system_model: String,
    pub processor_name: String,
}

pub ghost struct SystemInfoV {
    pub os_family: Seq<char>,
    pub os_manufacturer: Seq<char>,
    pub os_version: Seq<char>,
    pub system_manufacturer: Seq<char>,
    pub system_model: Seq<char>,
    pub processor_name: Seq<char>,
}

impl View for SystemInfo {
    type V = SystemInfoV;

    open spec fn view(&self) -> SystemInfoV {
        SystemInfoV {
            os_family: self.os_family@,
            os_manufacturer: self.os_manufacturer@,
            os_version: self.os_version@,
            system_manufacturer: self.system_manufacturer@,
            system_model: self.system_model@,
            processor_name: self.processor_name@,
        }
    }
}

impl SystemInfo {
    pub fn duplicate(&self) -> (r: Self)
        ensures
            r@ == self@,
    {
        SystemInfo {
            os_family: self.os_family.clone(),
            os_manufacturer: self.os_manufacturer.clone(),
            os_version: self.os_version.clone(),
            system_manufacturer: self.system_manufacturer.clone(),
            system_model: self.system_model.clone(),
            processor_name: self.processor_name.clone(),
        }
    }
}

/// Dynamic-only system metrics. `cpu_voltage` is hundredths of a volt.
pub struct SystemStatsDynamic {
    pub uptime_secs: u64,
    pub process_count: u32,
    pub thread_count: u32,
    pub cpu_voltage: u64,
    pub fan_speeds: Vec<u32>,
}

pub ghost struct SystemStatsDynamicV {
    pub uptime_secs: u64,
    pub process_count: u32,
    pub thread_count: u32,
    pub cpu_voltage: u64,
    pub fan_speeds: Seq<u32>,
}

impl View for SystemStatsDynamic {
    type V = SystemStatsDynamicV;

    open spec fn view(&self) -> SystemStatsDynamicV {
        SystemStatsDynamicV {
            uptime_secs: self.uptime_secs,
            process_count: self.process_count,
            thread_count: self.thread_count,
            cpu_voltage: self.cpu_voltage,
            fan_speeds: self.fan_speeds@,
        }
    }
}

impl SystemStatsDynamic {
    pub fn duplicate(&self) -> (r: Self)
        ensures
            r@ == self@,
    {
        SystemStatsDynamic {
            uptime_secs: self.uptime_secs,
            process_count: self.process_count,
            thread_count: self.thread_count,
            cpu_voltage: self.cpu_voltage,
            fan_speeds: duplicate_u32s(&self.fan_speeds),
        }
    }
}

/// Merged static identity plus dynamic metrics, the legacy full shape.
pub struct SystemStats {
    pub os_family: String,
    pub os_manufacturer: String,
    pub os_version: String,
    pub system_manufacturer: String,
    pub system_model: String,
    pub processor_name: String,
    pub uptime_secs: u64,
    pub process_count: u32,
    pub thread_count: u32,
    pub cpu_voltage: u64,
    pub fan_speeds: Vec<u32>,
}

pub ghost struct SystemStatsV {
    pub os_family: Seq<char>,
    pub os_manufacturer: Seq<char>,
    pub os_version: Seq<char>,
    pub system_manufacturer: Seq<char>,
    pub system_model: Seq<char>,
    pub processor_name: Seq<char>,
    pub uptime_secs: u64,
    pub process_count: u32,
    pub thread_count: u32,
    pub cpu_voltage: u64,
    pub fan_speeds: Seq<u32>,
}

impl View for SystemStats {
    type V = SystemStatsV;

    open spec fn view(&self) -> SystemStatsV {
        SystemStatsV {
            os_family: self.os_family@,
            os_manufacturer: self.os_manufacturer@,
            os_version: self.os_version@,
            system_manufacturer: self.system_manufacturer@,
            system_model: self.system_model@,
            processor_name: self.processor_name@,
            uptime_secs: self.uptime_secs,
            process_count: self.process_count,
            thread_count: self.thread_count,
            cpu_voltage: self.cpu_voltage,
            fan_speeds: self.fan_speeds@,
        }
    }
}

impl SystemStats {
    /// Project the legacy full shape down to its dynamic-only subset.
    pub fn to_dynamic(&self) -> (r: SystemStatsDynamic)
        ensures
            r@.uptime_secs == self@.uptime_secs,
            r@.process_count == self@.process_count,
            r@.thread_count == self@.thread_count,
            r@.cpu_voltage == self@.cpu_voltage,
            r@.fan_speeds == self@.fan_speeds,
    {
        SystemStatsDynamic {
            uptime_secs: self.uptime_secs,
            process_count: self.process_count,
            thread_count: self.thread_count,
            cpu_voltage: self.cpu_voltage,
            fan_speeds: duplicate_u32s(&self.fan_speeds),
        }
    }
}

/// Merge static identity (empty strings when absent) with dynamic metrics.
pub fn merge_system_info(info: Option<&SystemInfo>, dynamic: &SystemStatsDynamic) -> (r:
    SystemStats)
    ensures
        match info {
            Some(i) => {
                &&& r@.os_family == i@.os_family
                &&& r@.os_manufacturer == i@.os_manufacturer
                &&& r@.os_version == i@.os_version
                &&& r@.system_manufacturer == i@.system_manufacturer
                &&& r@.system_model == i@.system_model
                &&& r@.processor_name == i@.processor_name
            },
            None => {
                &&& r@.os_family == Seq::<char>::empty()
                &&& r@.os_manufacturer == Seq::<char>::empty()
                &&& r@.os_version == Seq::<char>::empty()
                &&& r@.system_manufacturer == Seq::<char>::empty()
                &&& r@.system_model == Seq::<char>::empty()
                &&& r@.processor_name == Seq::<char>::empty()
            },
        },
        r@.uptime_secs == dynamic@.uptime_secs,
        r@.process_count == dynamic@.process_count,
        r@.thread_count == dynamic@.thread_count,
        r@.cpu_voltage == dynamic@.cpu_voltage,
        r@.fan_speeds == dynamic@.fan_speeds,
{
    match info {
        Some(i) => SystemStats {
            os_family: i.os_family.clone(),
            os_manufacturer: i.os_manufacturer.clone(),
            os_version: i.os_version.clone(),
            system_manufacturer: i.system_manufacturer.clone(),
            system_model: i.system_model.clone(),
            processor_name: i.processor_name.clone(),
            uptime_secs: dynamic.uptime_secs,
            process_count: dynamic.process_count,
            thread_count: dynamic.thread_count,
            cpu_voltage: dynamic.cpu_voltage,
            fan_speeds: duplicate_u32s(&dynamic.fan_speeds),
        },
        None => SystemStats {
            os_family: String::new(),
            os_manufacturer: String::new(),
            os_version: String::new(),
            system_manufacturer: String::new(),
            system_model: String::new(),
            processor_name: String::new(),
            uptime_secs: dynamic.uptime_secs,
            process_count: dynamic.process_count,
            thread_count: dynamic.thread_count,
            cpu_voltage: dynamic.cpu_voltage,
            fan_speeds: duplicate_u32s(&dynamic.fan_speeds),
        },
    }
}

/// One full sample: everything observed at one wall-clock millisecond.
pub struct FullSystemSnapshot {
    pub timestamp: u64,
    pub cpu: CpuStats,
    pub ram: RamStats,
    pub containers: Vec<ContainerStats>,
    pub storage: StorageStats,
    pub network: NetworkStats,
    pub system: SystemStatsDynamic,
}

pub ghost struct FullSystemSnapshotV {
    pub timestamp: u64,
    pub cpu: CpuStatsV,
    pub ram: RamStatsV,
    pub containers: Seq<ContainerStatsV>,
    pub storage: StorageStatsV,
    pub network: NetworkStatsV,
    pub system: SystemStatsDynamicV,
}

impl View for FullSystemSnapshot {
    type V = FullSystemSnapshotV;

    open spec fn view(&self) -> FullSystemSnapshotV {
        FullSystemSnapshotV {
            timestamp: self.timestamp,
            cpu: self.cpu@,
            ram: self.ram@,
            containers: container_views(self.containers@),
            storage: self.storage@,
            network: self.network@,
            system: self.system@,
        }
    }
}

impl FullSystemSnapshot {
    pub fn duplicate(&self) -> (r: Self)
        ensures
            r@ == self@,
    {
        FullSystemSnapshot {
            timestamp: self.timestamp,
            cpu: self.cpu.duplicate(),
            ram: self.ram.duplicate(),
            containers: duplicate_containers(&self.containers),
            storage: self.storage.duplicate(),
            network: self.network.duplicate(),
            system: self.system.duplicate(),
        }
    }
}

/// One aggregated row: bucket start, resolution (60 or 300 seconds),
/// scalar aggregates, and the last-observed opaque columns.
/// `cpu_load_*` are hundredths of a percent.
pub struct AggregatedSnapshot {
    pub created_at: i64,
    pub resolution_seconds: i32,
    pub cpu_load_avg: u64,
    pub cpu_load_min: u64,
    pub cpu_load_max: u64,
    pub memory_used_avg: i64,
    pub memory_used_min: i64,
    pub memory_used_max: i64,
    pub containers: Vec<ContainerStats>,
    pub storage: StorageStats,
    pub network: NetworkStats,
    pub system: SystemStatsDynamic,
}

pub ghost struct AggregatedSnapshotV {
    pub created_at: i64,
    pub resolution_seconds: i32,
    pub cpu_load_avg: u64,
    pub cpu_load_min: u64,
    pub cpu_load_max: u64,
    pub memory_used_avg: i64,
    pub memory_used_min: i64,
    pub memory_used_max: i64,
    pub containers: Seq<ContainerStatsV>,
    pub storage: StorageStatsV,
    pub network: NetworkStatsV,
    pub system: SystemStatsDynamicV,
}

impl View for AggregatedSnapshot {
    type V = AggregatedSnapshotV;

    open spec fn view(&self) -> AggregatedSnapshotV {
        AggregatedSnapshotV {
            created_at: self.created_at,
            resolution_seconds: self.resolution_seconds,
            cpu_load_avg: self.cpu_load_avg,
            cpu_load_min: self.cpu_load_min,
            cpu_load_max: self.cpu_load_max,
            memory_used_avg: self.memory_used_avg,
            memory_used_min: self.memory_used_min,
            memory_used_max: self.memory_used_max,
            containers: container_views(self.containers@),
            storage: self.storage@,
            network: self.network@,
            system: self.system@,
        }
    }
}

impl AggregatedSnapshot {
    pub fn duplicate(&self) -> (r: Self)
        ensures
            r@ == self@,
    {
        AggregatedSnapshot {
            created_at: self.created_at,
            resolution_seconds: self.resolution_seconds,
            cpu_load_avg: self.cpu_load_avg,
            cpu_load_min: self.cpu_load_min,
            cpu_load_max: self.cpu_load_max,
            memory_used_avg: self.memory_used_avg,
            memory_used_min: self.memory_used_min,
            memory_used_max: self.memory_used_max,
            containers: duplicate_containers(&self.containers),
            storage: self.storage.duplicate(),
            network: self.network.duplicate(),
            system: self.system.duplicate(),
        }
    }
}

/// Views of the elements of a snapshot vector.
pub open spec fn snapshot_views(v: Seq<FullSystemSnapshot>) -> Seq<FullSystemSnapshotV> {
    v.map_values(|s: FullSystemSnapshot| s@)
}

/// Views of the elements of an aggregated-row vector.
pub open spec fn aggregated_views(v: Seq<AggregatedSnapshot>) -> Seq<AggregatedSnapshotV> {
    v.map_values(|a: AggregatedSnapshot| a@)
}

} // verus!
