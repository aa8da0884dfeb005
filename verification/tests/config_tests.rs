// Configuration validation tests: each startup rule rejects exactly the
// field it is about, and the defaults match their documented values.

use homeserver::config::{
    AppConfig, ConfigError, DatabaseConfig, MonitoringConfig, PublishingConfig, ServerConfig,
    default_aggregation_interval_secs, default_enable_aggregation, default_flush_interval_secs,
    default_minute_retention_hours, default_prune_interval_secs, default_raw_retention_hours,
    default_retention_days, default_vacuum_interval_secs,
};

fn valid_config() -> AppConfig {
    AppConfig {
        server: ServerConfig { port: 8081, host: "0.0.0.0".to_string() },
        database: DatabaseConfig {
            path: "data/server.db".to_string(),
            max_pool_size: 10,
            flush_rate: 10,
            flush_interval_secs: default_flush_interval_secs(),
            retention_days: default_retention_days(),
            prune_interval_secs: default_prune_interval_secs(),
            enable_aggregation: default_enable_aggregation(),
            aggregation_interval_secs: default_aggregation_interval_secs(),
            raw_retention_hours: default_raw_retention_hours(),
            minute_retention_hours: default_minute_retention_hours(),
            vacuum_schedule: None,
            vacuum_interval_secs: default_vacuum_interval_secs(),
        },
        publishing: PublishingConfig {
            cpu_stats_frequency_ms: 1000,
            ram_stats_frequency_ms: 1000,
            broadcast_capacity: 60,
        },
        monitoring: MonitoringConfig { sample_interval_ms: 1000, stats_log_interval_secs: 60 },
    }
}

#[test]
fn test_config_loads_from_str() {
    let config = valid_config();
    assert!(config.validate().is_ok());
    assert_eq!(config.server.port, 8081);
    assert_eq!(config.server.host, "0.0.0.0");
    assert_eq!(config.database.path, "data/server.db");
    assert_eq!(config.database.flush_rate, 10);
    assert_eq!(config.publishing.broadcast_capacity, 60);
    assert_eq!(config.monitoring.sample_interval_ms, 1000);
}

#[test]
fn test_config_validation_rejects_invalid_port() {
    let mut bad = valid_config();
    bad.server.port = 0;
    assert_eq!(bad.validate(), Err(ConfigError::InvalidPort));
}

#[test]
fn test_config_validation_rejects_empty_db_path() {
    let mut bad = valid_config();
    bad.database.path = String::new();
    assert_eq!(bad.validate(), Err(ConfigError::EmptyDatabasePath));
}

#[test]
fn test_config_validation_rejects_max_pool_size_zero() {
    let mut bad = valid_config();
    bad.database.max_pool_size = 0;
    assert_eq!(bad.validate(), Err(ConfigError::ZeroMaxPoolSize));
}

#[test]
fn test_config_validation_rejects_flush_rate_zero() {
    let mut bad = valid_config();
    bad.database.flush_rate = 0;
    assert_eq!(bad.validate(), Err(ConfigError::ZeroFlushRate));
}

#[test]
fn test_config_validation_rejects_cpu_stats_frequency_zero() {
    let mut bad = valid_config();
    bad.publishing.cpu_stats_frequency_ms = 0;
    assert_eq!(bad.validate(), Err(ConfigError::ZeroCpuStatsFrequency));
}

#[test]
fn test_config_validation_rejects_ram_stats_frequency_zero() {
    let mut bad = valid_config();
    bad.publishing.ram_stats_frequency_ms = 0;
    assert_eq!(bad.validate(), Err(ConfigError::ZeroRamStatsFrequency));
}

#[test]
fn test_config_validation_rejects_broadcast_capacity_zero() {
    let mut bad = valid_config();
    bad.publishing.broadcast_capacity = 0;
    assert_eq!(bad.validate(), Err(ConfigError::ZeroBroadcastCapacity));
}

#[test]
fn test_config_validation_rejects_sample_interval_zero() {
    let mut bad = valid_config();
    bad.monitoring.sample_interval_ms = 0;
    assert_eq!(bad.validate(), Err(ConfigError::ZeroSampleInterval));
}

#[test]
fn test_config_validation_rejects_stats_log_interval_zero() {
    let mut bad = valid_config();
    bad.monitoring.stats_log_interval_secs = 0;
    assert_eq!(bad.validate(), Err(ConfigError::ZeroStatsLogInterval));
}

#[test]
fn test_config_aggregation_defaults_when_omitted() {
    let config = valid_config();
    assert!(config.database.enable_aggregation);
    assert_eq!(config.database.aggregation_interval_secs, 3600);
    assert_eq!(config.database.raw_retention_hours, 1);
    assert_eq!(config.database.minute_retention_hours, 24);
    assert_eq!(default_retention_days(), 3);
    assert_eq!(default_flush_interval_secs(), 30);
    assert_eq!(default_prune_interval_secs(), 3600);
    assert_eq!(default_vacuum_interval_secs(), 86400);
}

#[test]
fn test_config_loads_with_aggregation() {
    let mut config = valid_config();
    config.database.retention_days = 3;
    config.database.enable_aggregation = true;
    config.database.aggregation_interval_secs = 3600;
    config.database.raw_retention_hours = 1;
    config.database.minute_retention_hours = 24;
    assert!(config.validate().is_ok());
    assert!(config.database.enable_aggregation);
    assert_eq!(config.database.aggregation_interval_secs, 3600);
    assert_eq!(config.database.raw_retention_hours, 1);
    assert_eq!(config.database.minute_retention_hours, 24);
}

#[test]
fn test_config_validation_rejects_aggregation_interval_zero_when_enabled() {
    let mut bad = valid_config();
    bad.database.enable_aggregation = true;
    bad.database.aggregation_interval_secs = 0;
    assert_eq!(bad.validate(), Err(ConfigError::ZeroAggregationInterval));
}

#[test]
fn test_config_validation_rejects_raw_retention_hours_zero_when_enabled() {
    let mut bad = valid_config();
    bad.database.enable_aggregation = true;
    bad.database.raw_retention_hours = 0;
    assert_eq!(bad.validate(), Err(ConfigError::ZeroRawRetentionHours));
}

#[test]
fn test_config_validation_rejects_minute_retention_hours_zero_when_enabled() {
    let mut bad = valid_config();
    bad.database.enable_aggregation = true;
    bad.database.minute_retention_hours = 0;
    assert_eq!(bad.validate(), Err(ConfigError::ZeroMinuteRetentionHours));
}

#[test]
fn test_config_accepts_valid_vacuum_schedule() {
    let mut config = valid_config();
    config.database.vacuum_schedule = Some("0 0 3 * * * *".to_string());
    assert!(config.validate().is_ok());
}

#[test]
fn test_config_rejects_invalid_vacuum_schedule() {
    let mut bad = valid_config();
    bad.database.vacuum_schedule = Some("definitely not a schedule".to_string());
    assert_eq!(bad.validate(), Err(ConfigError::InvalidVacuumSchedule));
}

#[test]
fn test_config_rejects_vacuum_interval_zero_without_schedule() {
    let mut bad = valid_config();
    bad.database.vacuum_schedule = None;
    bad.database.vacuum_interval_secs = 0;
    assert_eq!(bad.validate(), Err(ConfigError::ZeroVacuumInterval));
}
