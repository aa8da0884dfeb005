// Model tests: container state parsing and merging the static identity
// into the legacy full shape.

use homeserver::models::{ContainerState, SystemInfo, SystemStatsDynamic, merge_system_info};

#[test]
fn from_docker_parses_known_states() {
    assert_eq!(ContainerState::from_docker("running"), ContainerState::Running);
    assert_eq!(ContainerState::from_docker("exited"), ContainerState::Exited);
    assert_eq!(ContainerState::from_docker("paused"), ContainerState::Paused);
    assert_eq!(ContainerState::from_docker("restarting"), ContainerState::Restarting);
}

#[test]
fn from_docker_folds_ascii_case() {
    assert_eq!(ContainerState::from_docker("Running"), ContainerState::Running);
    assert_eq!(ContainerState::from_docker("EXITED"), ContainerState::Exited);
}

#[test]
fn from_docker_maps_anything_else_to_unknown() {
    assert_eq!(ContainerState::from_docker("dead"), ContainerState::Unknown);
    assert_eq!(ContainerState::from_docker(""), ContainerState::Unknown);
    assert_eq!(ContainerState::from_docker("running "), ContainerState::Unknown);
}

#[test]
fn merge_system_info_fills_identity_or_blanks() {
    let info = SystemInfo {
        os_family: "Linux".to_string(),
        os_manufacturer: "Distro".to_string(),
        os_version: "6.1".to_string(),
        system_manufacturer: "Vendor".to_string(),
        system_model: "host".to_string(),
        processor_name: "cpu".to_string(),
    };
    let dynamic = SystemStatsDynamic {
        uptime_secs: 55,
        process_count: 3,
        thread_count: 9,
        cpu_voltage: 120,
        fan_speeds: vec![1200],
    };
    let merged = merge_system_info(Some(&info), &dynamic);
    assert_eq!(merged.os_family, "Linux");
    assert_eq!(merged.uptime_secs, 55);
    assert_eq!(merged.fan_speeds, vec![1200]);

    let blank = merge_system_info(None, &dynamic);
    assert_eq!(blank.os_family, "");
    assert_eq!(blank.process_count, 3);
}
