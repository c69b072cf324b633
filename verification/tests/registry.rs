use uad_ng::executor::{CommandOutcome, Exit, RawRun};
use uad_ng::registry::{
    parse_api_level, parse_device_line, read_devices, ConnectionState, Device, DeviceRegistry,
    Sighting,
};

fn seen(serial: &str, state: ConnectionState) -> Sighting {
    Sighting { serial: serial.to_string(), state }
}

fn device(serial: &str, state: ConnectionState, api_level: Option<u32>, last_seen: u64) -> Device {
    Device { serial: serial.to_string(), state, api_level, last_seen }
}

fn answer(stdout: &str, code: i32) -> CommandOutcome {
    CommandOutcome::from_run(RawRun {
        exit: Exit::Code(code),
        stdout: stdout.to_string(),
        stderr: String::new(),
        elapsed_ms: 1,
    })
}

#[test]
fn a_new_registry_knows_nothing() {
    let registry = DeviceRegistry::new();
    assert!(registry.devices().is_empty());
    assert_eq!(registry.get("serialA"), None);
}

#[test]
fn refresh_takes_in_what_is_reported() {
    let mut registry = DeviceRegistry::new();
    let list = registry.refresh(
        &vec![seen("serialA", ConnectionState::Online), seen("serialB", ConnectionState::Unauthorized)],
        100,
    );
    assert_eq!(
        list,
        vec![
            device("serialA", ConnectionState::Online, None, 100),
            device("serialB", ConnectionState::Unauthorized, None, 100),
        ]
    );
    assert_eq!(registry.devices(), &list);
    assert_eq!(registry.get("serialB"), Some(&device("serialB", ConnectionState::Unauthorized, None, 100)));
    assert_eq!(registry.get("serialC"), None);
}

#[test]
fn a_device_no_longer_reported_goes_missing() {
    let mut registry = DeviceRegistry::new();
    registry.refresh(
        &vec![seen("serialA", ConnectionState::Online), seen("serialB", ConnectionState::Offline)],
        100,
    );
    let list = registry.refresh(&vec![seen("serialB", ConnectionState::Online)], 200);
    assert_eq!(registry.get("serialA"), Some(&device("serialA", ConnectionState::Missing, None, 100)));
    assert_eq!(registry.get("serialB"), Some(&device("serialB", ConnectionState::Online, None, 200)));
    assert_eq!(list.len(), 2);
}

#[test]
fn a_device_missing_twice_is_gone() {
    let mut registry = DeviceRegistry::new();
    registry.refresh(&vec![seen("serialA", ConnectionState::Online)], 100);
    registry.refresh(&vec![], 200);
    assert_eq!(registry.get("serialA").map(|d| d.state), Some(ConnectionState::Missing));
    let list = registry.refresh(&vec![], 300);
    assert_eq!(registry.get("serialA"), None);
    assert!(list.is_empty());
}

#[test]
fn a_missing_device_that_comes_back_is_known_again() {
    let mut registry = DeviceRegistry::new();
    registry.refresh(&vec![seen("serialA", ConnectionState::Online)], 100);
    assert!(registry.record_api_level("serialA", 33));
    registry.refresh(&vec![], 200);
    registry.refresh(&vec![seen("serialA", ConnectionState::Online)], 300);
    assert_eq!(registry.get("serialA"), Some(&device("serialA", ConnectionState::Online, Some(33), 300)));
    assert_eq!(registry.devices().len(), 1);
}

#[test]
fn the_first_sighting_of_a_serial_counts() {
    let mut registry = DeviceRegistry::new();
    let list = registry.refresh(
        &vec![
            seen("serialA", ConnectionState::Offline),
            seen("serialB", ConnectionState::Online),
            seen("serialA", ConnectionState::Online),
        ],
        7,
    );
    assert_eq!(
        list,
        vec![
            device("serialA", ConnectionState::Offline, None, 7),
            device("serialB", ConnectionState::Online, None, 7),
        ]
    );
}

#[test]
fn record_api_level_notes_it_on_the_device() {
    let mut registry = DeviceRegistry::new();
    registry.refresh(
        &vec![seen("serialA", ConnectionState::Online), seen("serialB", ConnectionState::Online)],
        1,
    );
    assert!(registry.record_api_level("serialB", 30));
    assert_eq!(registry.get("serialB"), Some(&device("serialB", ConnectionState::Online, Some(30), 1)));
    assert_eq!(registry.get("serialA"), Some(&device("serialA", ConnectionState::Online, None, 1)));
}

#[test]
fn record_api_level_of_an_unknown_device_changes_nothing() {
    let mut registry = DeviceRegistry::new();
    registry.refresh(&vec![seen("serialA", ConnectionState::Online)], 1);
    assert!(!registry.record_api_level("serialZ", 30));
    assert_eq!(registry.devices(), &vec![device("serialA", ConnectionState::Online, None, 1)]);
}

#[test]
fn the_api_level_outlasts_a_refresh() {
    let mut registry = DeviceRegistry::new();
    registry.refresh(&vec![seen("serialA", ConnectionState::Online)], 1);
    registry.record_api_level("serialA", 29);
    registry.refresh(&vec![], 2);
    assert_eq!(registry.get("serialA"), Some(&device("serialA", ConnectionState::Missing, Some(29), 1)));
}

#[test]
fn parse_device_line_reads_serial_and_state() {
    assert_eq!(parse_device_line("0123456789ABCDEF\tdevice"), Some(seen("0123456789ABCDEF", ConnectionState::Online)));
    assert_eq!(parse_device_line("emulator-5554\toffline"), Some(seen("emulator-5554", ConnectionState::Offline)));
    assert_eq!(parse_device_line("R58M\tunauthorized"), Some(seen("R58M", ConnectionState::Unauthorized)));
}

#[test]
fn parse_device_line_passes_over_other_lines() {
    assert_eq!(parse_device_line("List of devices attached"), None);
    assert_eq!(parse_device_line(""), None);
    assert_eq!(parse_device_line("\tdevice"), None);
    assert_eq!(parse_device_line("R58M\trecovery"), None);
    assert_eq!(parse_device_line("R58M\tdevice\textra"), None);
    assert_eq!(parse_device_line("R58M device"), None);
    assert_eq!(parse_device_line("R58M\tDevice"), None);
}

#[test]
fn read_devices_reads_the_bridge_s_list() {
    let lines: Vec<String> = ["List of devices attached", "serialA\tdevice", "serialB\tunauthorized", ""]
        .iter()
        .map(|l| l.to_string())
        .collect();
    assert_eq!(
        read_devices(&lines),
        vec![seen("serialA", ConnectionState::Online), seen("serialB", ConnectionState::Unauthorized)]
    );
    assert_eq!(read_devices(&Vec::new()), Vec::<Sighting>::new());
}

#[test]
fn parse_api_level_reads_the_first_line() {
    assert_eq!(parse_api_level(&answer("33\n", 0)), Some(33));
    assert_eq!(parse_api_level(&answer("33\r\nmore\r\n", 0)), Some(33));
}

#[test]
fn parse_api_level_of_no_number_is_none() {
    assert_eq!(parse_api_level(&answer("", 0)), None);
    assert_eq!(parse_api_level(&answer("unknown\n", 0)), None);
    assert_eq!(parse_api_level(&answer("33\n", 1)), None);
}
