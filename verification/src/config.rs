//! Static service configuration and its validation rules. Parsing the
//! configuration file happens outside; the rules that decide whether a
//! parsed configuration may start the service live here.

use vstd::prelude::*;

use std::str::FromStr;

verus! {

pub struct ServerConfig {
    pub port: u16,
    pub host: String,
}

pub struct DatabaseConfig {
    pub path: String,
    pub max_pool_size: u32,
    pub flush_rate: u64,
    /// Flush at least every this many seconds even when the buffer is short.
    pub flush_interval_secs: u64,
    pub retention_days: u32,
    /// How often to prune old raw data, in seconds.
    pub prune_interval_secs: u64,
    pub enable_aggregation: bool,
    pub aggregation_interval_secs: u64,
    pub raw_retention_hours: u32,
    pub minute_retention_hours: u32,
    /// Optional cron expression for compaction (local time).
    pub vacuum_schedule: Option<String>,
    /// Compaction interval in seconds when no cron expression is set.
    pub vacuum_interval_secs: u64,
}

pub struct PublishingConfig {
    pub cpu_stats_frequency_ms: u64,
    pub ram_stats_frequency_ms: u64,
    /// Snapshots kept in the live broadcast channel; slow clients may lag.
    pub broadcast_capacity: usize,
}

pub struct MonitoringConfig {
    pub sample_interval_ms: u64,
    pub stats_log_interval_secs: u64,
}

pub struct AppConfig {
    pub server: ServerConfig,
    pub database: DatabaseConfig,
    pub publishing: PublishingConfig,
    pub monitoring: MonitoringConfig,
}

pub fn default_retention_days() -> (r: u32)
    ensures
        r == 3,
{
    3
}

pub fn default_flush_interval_secs() -> (r: u64)
    ensures
        r == 30,
{
    30
}

pub fn default_prune_interval_secs() -> (r: u64)
    ensures
        r == 3600,
{
    3600
}

pub fn default_vacuum_interval_secs() -> (r: u64)
    ensures
        r == 86400,
{
    86400
}

pub fn default_enable_aggregation() -> (r: bool)
    ensures
        r == true,
{
    true
}

pub fn default_aggregation_interval_secs() -> (r: u64)
    ensures
        r == 3600,
{
    3600
}

pub fn default_raw_retention_hours() -> (r: u32)
    ensures
        r == 1,
{
    1
}

pub fn default_minute_retention_hours() -> (r: u32)
    ensures
        r == 24,
{
    24
}

/// The rule a configuration broke, named after its field.
#[derive(Clone, Copy, Debug, PartialEq, Eq, Structural)]
pub enum ConfigError {
    InvalidPort,
    EmptyDatabasePath,
    ZeroMaxPoolSize,
    ZeroFlushRate,
    ZeroFlushInterval,
    ZeroRetentionDays,
    ZeroPruneInterval,
    InvalidVacuumSchedule,
    ZeroVacuumInterval,
    ZeroAggregationInterval,
    ZeroRawRetentionHours,
    ZeroMinuteRetentionHours,
    ZeroCpuStatsFrequency,
    ZeroRamStatsFrequency,
    ZeroBroadcastCapacity,
    ZeroSampleInterval,
    ZeroStatsLogInterval,
}

/// Whether a cron expression parses; fixed by its characters alone.
pub uninterp spec fn cron_parses(s: Seq<char>) -> bool;

/// Relies on `cron::Schedule::from_str`: a pure parser whose success
/// depends on the expression's characters alone.
#[verifier::external_body]
fn cron_expression_parses(s: &str) -> (r: bool)
    ensures
        r == cron_parses(s@),
{
    cron::Schedule::from_str(s).is_ok()
}

/// The validation verdict for a configuration, first broken rule wins,
/// in the order the rules are checked.
pub open spec fn spec_validate(c: &AppConfig) -> Result<(), ConfigError> {
    if c.server.port == 0 {
        Err(ConfigError::InvalidPort)
    } else if c.database.path@.len() == 0 {
        Err(ConfigError::EmptyDatabasePath)
    } else if c.database.max_pool_size == 0 {
        Err(ConfigError::ZeroMaxPoolSize)
    } else if c.database.flush_rate == 0 {
        Err(ConfigError::ZeroFlushRate)
    } else if c.database.flush_interval_secs == 0 {
        Err(ConfigError::ZeroFlushInterval)
    } else if c.database.retention_days == 0 {
        Err(ConfigError::ZeroRetentionDays)
    } else if c.database.prune_interval_secs == 0 {
        Err(ConfigError::ZeroPruneInterval)
    } else if c.database.vacuum_schedule matches Some(s) && !cron_parses(s@) {
        Err(ConfigError::InvalidVacuumSchedule)
    } else if c.database.vacuum_schedule matches None && c.database.vacuum_interval_secs == 0 {
        Err(ConfigError::ZeroVacuumInterval)
    } else if c.database.enable_aggregation && c.database.aggregation_interval_secs == 0 {
        Err(ConfigError::ZeroAggregationInterval)
    } else if c.database.enable_aggregation && c.database.raw_retention_hours == 0 {
        Err(ConfigError::ZeroRawRetentionHours)
    } else if c.database.enable_aggregation && c.database.minute_retention_hours == 0 {
        Err(ConfigError::ZeroMinuteRetentionHours)
    } else if c.publishing.cpu_stats_frequency_ms == 0 {
        Err(ConfigError::ZeroCpuStatsFrequency)
    } else if c.publishing.ram_stats_frequency_ms == 0 {
        Err(ConfigError::ZeroRamStatsFrequency)
    } else if c.publishing.broadcast_capacity == 0 {
        Err(ConfigError::ZeroBroadcastCapacity)
    } else if c.monitoring.sample_interval_ms == 0 {
        Err(ConfigError::ZeroSampleInterval)
    } else if c.monitoring.stats_log_interval_secs == 0 {
        Err(ConfigError::ZeroStatsLogInterval)
    } else {
        Ok(())
    }
}

impl AppConfig {
    /// Check every startup rule; `Ok` exactly when all of them hold, and
    /// otherwise the first rule broken, in checking order.
    pub fn validate(&self) -> (r: Result<(), ConfigError>)
        ensures
            r == spec_validate(self),
    {
        if self.server.port == 0 {
            return Err(ConfigError::InvalidPort);
        }
        if self.database.path.as_str().is_empty() {
            return Err(ConfigError::EmptyDatabasePath);
        }
        if self.database.max_pool_size == 0 {
            return Err(ConfigError::ZeroMaxPoolSize);
        }
        if self.database.flush_rate == 0 {
            return Err(ConfigError::ZeroFlushRate);
        }
        if self.database.flush_interval_secs == 0 {
            return Err(ConfigError::ZeroFlushInterval);
        }
        if self.database.retention_days == 0 {
            return Err(ConfigError::ZeroRetentionDays);
        }
        if self.database.prune_interval_secs == 0 {
            return Err(ConfigError::ZeroPruneInterval);
        }
        match &self.database.vacuum_schedule {
            Some(expr) => {
                if !cron_expression_parses(expr.as_str()) {
                    return Err(ConfigError::InvalidVacuumSchedule);
                }
            },
            None => {
                if self.database.vacuum_interval_secs == 0 {
                    return Err(ConfigError::ZeroVacuumInterval);
                }
            },
        }
        if self.database.enable_aggregation {
            if self.database.aggregation_interval_secs == 0 {
                return Err(ConfigError::ZeroAggregationInterval);
            }
            if self.database.raw_retention_hours == 0 {
                return Err(ConfigError::ZeroRawRetentionHours);
            }
            if self.database.minute_retention_hours == 0 {
                return Err(ConfigError::ZeroMinuteRetentionHours);
            }
        }
        if self.publishing.cpu_stats_frequency_ms == 0 {
            return Err(ConfigError::ZeroCpuStatsFrequency);
        }
        if self.publishing.ram_stats_frequency_ms == 0 {
            return Err(ConfigError::ZeroRamStatsFrequency);
        }
        if self.publishing.broadcast_capacity == 0 {
            return Err(ConfigError::ZeroBroadcastCapacity);
        }
        if self.monitoring.sample_interval_ms == 0 {
            return Err(ConfigError::ZeroSampleInterval);
        }
        if self.monitoring.stats_log_interval_secs == 0 {
            return Err(ConfigError::ZeroStatsLogInterval);
        }
        Ok(())
    }
}

} // verus!
