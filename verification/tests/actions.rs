use uad_ng::actions::{
    is_target, listing_command, lists_package, outcome_for, read_state, Action, ActionRequest,
    InstalledState, Listing, Outcome,
};
use uad_ng::executor::{CommandOutcome, Exit, Failure, RawRun};
use uad_ng::registry::ConnectionState;

fn words(list: &[&str]) -> Vec<String> {
    list.iter().map(|w| w.to_string()).collect()
}

fn ran(stdout: &str, code: i32, stderr: &str) -> CommandOutcome {
    CommandOutcome::from_run(RawRun {
        exit: Exit::Code(code),
        stdout: stdout.to_string(),
        stderr: stderr.to_string(),
        elapsed_ms: 3,
    })
}

#[test]
fn each_action_has_its_target() {
    assert_eq!(Action::Disable.target(), InstalledState::Disabled);
    assert_eq!(Action::Uninstall.target(), InstalledState::Uninstalled);
    assert_eq!(Action::Restore.target(), InstalledState::Enabled);
}

#[test]
fn disable_and_uninstall_have_one_command_each() {
    for state in [InstalledState::Enabled, InstalledState::Uninstalled, InstalledState::Absent] {
        assert_eq!(
            Action::Disable.command(state, "com.example.bloat"),
            words(&["shell", "pm", "disable-user", "--user", "0", "com.example.bloat"])
        );
    }
    for state in [InstalledState::Enabled, InstalledState::Disabled, InstalledState::Absent] {
        assert_eq!(
            Action::Uninstall.command(state, "com.example.bloat"),
            words(&["shell", "pm", "uninstall", "--user", "0", "com.example.bloat"])
        );
    }
}

#[test]
fn restore_goes_by_the_present_state() {
    assert_eq!(
        Action::Restore.command(InstalledState::Disabled, "com.a"),
        words(&["shell", "pm", "enable", "--user", "0", "com.a"])
    );
    assert_eq!(
        Action::Restore.command(InstalledState::Uninstalled, "com.a"),
        words(&["shell", "cmd", "package", "install-existing", "--user", "0", "com.a"])
    );
    assert_eq!(
        Action::Restore.command(InstalledState::Absent, "com.a"),
        words(&["shell", "cmd", "package", "install-existing", "--user", "0", "com.a"])
    );
}

#[test]
fn only_online_devices_are_targets_unless_forced() {
    assert!(is_target(ConnectionState::Online, false));
    assert!(!is_target(ConnectionState::Offline, false));
    assert!(!is_target(ConnectionState::Unauthorized, false));
    assert!(!is_target(ConnectionState::Missing, false));
    assert!(is_target(ConnectionState::Online, true));
    assert!(is_target(ConnectionState::Offline, true));
    assert!(is_target(ConnectionState::Unauthorized, true));
}

#[test]
fn a_missing_device_is_never_a_target() {
    assert!(!is_target(ConnectionState::Missing, true));
}

#[test]
fn a_command_s_end_is_the_request_s_outcome() {
    assert_eq!(outcome_for(&ran("Success\n", 0, "")), Outcome::Success);
    assert_eq!(outcome_for(&ran("", 1, "Failure")), Outcome::Failed(Failure::NonZeroExit));
    assert_eq!(outcome_for(&ran("", 1, "error: device offline")), Outcome::Failed(Failure::DeviceOffline));
}

#[test]
fn each_listing_has_its_flag() {
    assert_eq!(listing_command(Listing::Enabled), words(&["shell", "pm", "list", "packages", "--user", "0", "-e"]));
    assert_eq!(listing_command(Listing::Disabled), words(&["shell", "pm", "list", "packages", "--user", "0", "-d"]));
    assert_eq!(listing_command(Listing::Known), words(&["shell", "pm", "list", "packages", "--user", "0", "-u"]));
}

#[test]
fn a_listing_names_packages_line_by_line() {
    let lines = words(&["package:com.a", "package:com.example.bloat", "package:com.b"]);
    assert!(lists_package(&lines, "com.example.bloat"));
    assert!(lists_package(&lines, "com.b"));
    assert!(!lists_package(&lines, "com.example"));
    assert!(!lists_package(&lines, "com.example.bloat2"));
    assert!(!lists_package(&lines, "package:com.a"));
    assert!(!lists_package(&Vec::new(), "com.a"));
}

#[test]
fn the_listings_tell_the_state() {
    let enabled = ran("package:com.a\n", 0, "");
    let disabled = ran("package:com.b\n", 0, "");
    let known = ran("package:com.a\npackage:com.b\npackage:com.c\n", 0, "");
    assert_eq!(read_state(&enabled, &disabled, &known, "com.a"), Ok(InstalledState::Enabled));
    assert_eq!(read_state(&enabled, &disabled, &known, "com.b"), Ok(InstalledState::Disabled));
    assert_eq!(read_state(&enabled, &disabled, &known, "com.c"), Ok(InstalledState::Uninstalled));
    assert_eq!(read_state(&enabled, &disabled, &known, "com.d"), Ok(InstalledState::Absent));
}

#[test]
fn a_listing_that_failed_fails_the_reading() {
    let fine = ran("package:com.a\n", 0, "");
    let offline = ran("", 1, "error: device offline");
    let denied = ran("", 1, "error: device unauthorized");
    assert_eq!(read_state(&offline, &fine, &fine, "com.a"), Err(Failure::DeviceOffline));
    assert_eq!(read_state(&fine, &offline, &fine, "com.a"), Err(Failure::DeviceOffline));
    assert_eq!(read_state(&fine, &fine, &offline, "com.a"), Err(Failure::DeviceOffline));
    assert_eq!(read_state(&denied, &offline, &fine, "com.a"), Err(Failure::DeviceUnauthorized));
    assert_eq!(read_state(&fine, &offline, &denied, "com.a"), Err(Failure::DeviceOffline));
}

#[test]
fn a_request_can_be_copied() {
    let request = ActionRequest {
        device: "serialA".to_string(),
        package: "com.a".to_string(),
        action: Action::Restore,
    };
    assert_eq!(request.clone(), request);
}
