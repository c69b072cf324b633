use std::collections::HashMap;
use uad_ng::actions::{Action, ActionRequest, InstalledState, Outcome};
use uad_ng::executor::{CommandOutcome, Exit, Failure, RawRun};
use uad_ng::orchestrator::{BatchRun, Directive, Phase, RunStatus};
use uad_ng::registry::{ConnectionState, DeviceRegistry, Sighting};

fn request(device: &str, package: &str, action: Action) -> ActionRequest {
    ActionRequest { device: device.to_string(), package: package.to_string(), action }
}

fn registry(devices: &[(&str, ConnectionState)]) -> DeviceRegistry {
    let mut registry = DeviceRegistry::new();
    let sightings: Vec<Sighting> =
        devices.iter().map(|(s, st)| Sighting { serial: s.to_string(), state: *st }).collect();
    registry.refresh(&sightings, 1);
    registry
}

fn ended(code: i32, stderr: &str) -> CommandOutcome {
    CommandOutcome::from_run(RawRun {
        exit: Exit::Code(code),
        stdout: String::new(),
        stderr: stderr.to_string(),
        elapsed_ms: 5,
    })
}

fn words(list: &[&str]) -> Vec<String> {
    list.iter().map(|w| w.to_string()).collect()
}

/// Devices that do what they are told: the state of each package, and how
/// many commands were sent.
struct Devices {
    states: HashMap<(String, String), InstalledState>,
    commands: Vec<(String, Vec<String>)>,
}

impl Devices {
    fn new() -> Devices {
        Devices { states: HashMap::new(), commands: Vec::new() }
    }

    fn state(&self, r: &ActionRequest) -> InstalledState {
        *self.states.get(&(r.device.clone(), r.package.clone())).unwrap_or(&InstalledState::Enabled)
    }

    fn run(&mut self, r: &ActionRequest, command: Vec<String>) -> CommandOutcome {
        self.commands.push((r.device.clone(), command));
        self.states.insert((r.device.clone(), r.package.clone()), r.action.target());
        ended(0, "")
    }
}

/// Works a run off, one step at a time.
fn drive(run: &mut BatchRun, registry: &DeviceRegistry, devices: &mut Devices) {
    loop {
        match run.advance(registry) {
            Directive::Finished => return,
            Directive::Resolved { .. } => {}
            Directive::Query { index } => {
                let r = run.request(index).unwrap().clone();
                let state = devices.state(&r);
                match run.state_reported(index, Ok(state), registry) {
                    Directive::Resolved { .. } => {}
                    Directive::Execute { index: i, command } => {
                        assert_eq!(i, index);
                        let outcome = devices.run(&r, command);
                        assert_eq!(
                            run.command_finished(index, &outcome, registry),
                            Directive::Resolved { index }
                        );
                    }
                    other => panic!("{:?}", other),
                }
            }
            other => panic!("{:?}", other),
        }
    }
}

fn outcomes(run: &BatchRun) -> Vec<Outcome> {
    run.results().iter().map(|r| r.outcome).collect()
}

#[test]
fn an_unauthorized_device_is_passed_over() {
    let registry = registry(&[
        ("serialA", ConnectionState::Online),
        ("serialB", ConnectionState::Unauthorized),
    ]);
    let mut run = BatchRun::new(
        vec![
            request("serialA", "com.example.bloat", Action::Disable),
            request("serialB", "com.example.bloat", Action::Disable),
        ],
        false,
    );
    let mut devices = Devices::new();
    drive(&mut run, &registry, &mut devices);
    assert_eq!(outcomes(&run), vec![Outcome::Success, Outcome::DeviceUnavailable]);
    assert_eq!(run.results()[0].request, request("serialA", "com.example.bloat", Action::Disable));
    assert_eq!(run.results()[1].request, request("serialB", "com.example.bloat", Action::Disable));
    assert_eq!(
        devices.commands,
        vec![(
            "serialA".to_string(),
            words(&["shell", "pm", "disable-user", "--user", "0", "com.example.bloat"])
        )]
    );
    assert_eq!(run.status(), RunStatus::Completed);
}

#[test]
fn a_failing_command_fails_its_request_only() {
    let registry = registry(&[
        ("serialA", ConnectionState::Online),
        ("serialB", ConnectionState::Unauthorized),
    ]);
    let mut run = BatchRun::new(
        vec![
            request("serialA", "com.example.bloat", Action::Disable),
            request("serialB", "com.example.bloat", Action::Disable),
        ],
        false,
    );
    assert_eq!(run.advance(&registry), Directive::Query { index: 0 });
    assert!(matches!(
        run.state_reported(0, Ok(InstalledState::Enabled), &registry),
        Directive::Execute { index: 0, .. }
    ));
    assert_eq!(run.command_finished(0, &ended(1, "Failure"), &registry), Directive::Resolved { index: 0 });
    assert_eq!(run.advance(&registry), Directive::Resolved { index: 1 });
    assert_eq!(run.advance(&registry), Directive::Finished);
    assert_eq!(outcomes(&run), vec![Outcome::Failed(Failure::NonZeroExit), Outcome::DeviceUnavailable]);
}

#[test]
fn a_forced_run_acts_on_unauthorized_and_offline_devices() {
    let registry = registry(&[
        ("serialA", ConnectionState::Offline),
        ("serialB", ConnectionState::Unauthorized),
    ]);
    let mut run = BatchRun::new(
        vec![request("serialA", "com.a", Action::Disable), request("serialB", "com.a", Action::Disable)],
        true,
    );
    assert_eq!(run.advance(&registry), Directive::Query { index: 0 });
    assert_eq!(run.advance(&registry), Directive::Query { index: 1 });
    assert_eq!(
        run.state_reported(0, Err(Failure::DeviceOffline), &registry),
        Directive::Resolved { index: 0 }
    );
    assert_eq!(
        run.state_reported(1, Err(Failure::DeviceUnauthorized), &registry),
        Directive::Resolved { index: 1 }
    );
    assert_eq!(
        outcomes(&run),
        vec![Outcome::Failed(Failure::DeviceOffline), Outcome::Failed(Failure::DeviceUnauthorized)]
    );
}

#[test]
fn a_device_that_is_unknown_or_missing_is_unavailable() {
    let mut registry = registry(&[("serialA", ConnectionState::Online)]);
    registry.refresh(&vec![], 2);
    assert_eq!(registry.get("serialA").map(|d| d.state), Some(ConnectionState::Missing));
    for force in [false, true] {
        let mut run = BatchRun::new(
            vec![request("serialA", "com.a", Action::Uninstall), request("serialZ", "com.a", Action::Uninstall)],
            force,
        );
        assert_eq!(run.advance(&registry), Directive::Resolved { index: 0 });
        assert_eq!(run.advance(&registry), Directive::Resolved { index: 1 });
        assert_eq!(run.advance(&registry), Directive::Finished);
        assert_eq!(outcomes(&run), vec![Outcome::DeviceUnavailable, Outcome::DeviceUnavailable]);
    }
}

#[test]
fn a_request_in_flight_resolves_when_its_device_goes_missing() {
    let mut registry = registry(&[("serialA", ConnectionState::Online)]);
    let mut run = BatchRun::new(
        vec![
            request("serialA", "com.a", Action::Disable),
            request("serialA", "com.b", Action::Disable),
            request("serialA", "com.c", Action::Disable),
        ],
        false,
    );
    assert_eq!(run.advance(&registry), Directive::Query { index: 0 });
    registry.refresh(&vec![], 2);
    assert_eq!(
        run.state_reported(0, Ok(InstalledState::Enabled), &registry),
        Directive::Resolved { index: 0 }
    );
    assert_eq!(run.advance(&registry), Directive::Resolved { index: 1 });
    registry.refresh(&vec![Sighting { serial: "serialA".to_string(), state: ConnectionState::Online }], 3);
    assert_eq!(run.advance(&registry), Directive::Query { index: 2 });
    assert!(matches!(
        run.state_reported(2, Ok(InstalledState::Enabled), &registry),
        Directive::Execute { index: 2, .. }
    ));
    registry.refresh(&vec![], 4);
    assert_eq!(run.command_finished(2, &ended(0, ""), &registry), Directive::Resolved { index: 2 });
    assert_eq!(
        outcomes(&run),
        vec![Outcome::DeviceUnavailable, Outcome::DeviceUnavailable, Outcome::DeviceUnavailable]
    );
    assert_eq!(run.status(), RunStatus::Completed);
}

#[test]
fn a_request_applied_twice_is_already_in_state_the_second_time() {
    let registry = registry(&[("serialA", ConnectionState::Online)]);
    for action in [Action::Disable, Action::Uninstall, Action::Restore] {
        let mut devices = Devices::new();
        devices.states.insert(("serialA".to_string(), "com.a".to_string()), InstalledState::Absent);
        let mut first = BatchRun::new(vec![request("serialA", "com.a", action)], false);
        drive(&mut first, &registry, &mut devices);
        assert_eq!(outcomes(&first), vec![Outcome::Success]);
        assert_eq!(devices.commands.len(), 1);
        let mut second = BatchRun::new(vec![request("serialA", "com.a", action)], false);
        drive(&mut second, &registry, &mut devices);
        assert_eq!(outcomes(&second), vec![Outcome::AlreadyInState]);
        assert_eq!(devices.commands.len(), 1);
    }
}

#[test]
fn the_same_request_twice_in_one_run_is_settled_the_second_time() {
    let registry = registry(&[("serialA", ConnectionState::Online)]);
    let mut devices = Devices::new();
    let mut run = BatchRun::new(
        vec![request("serialA", "com.a", Action::Disable), request("serialA", "com.a", Action::Disable)],
        false,
    );
    drive(&mut run, &registry, &mut devices);
    assert_eq!(outcomes(&run), vec![Outcome::Success, Outcome::AlreadyInState]);
    assert_eq!(devices.commands.len(), 1);
}

#[test]
fn a_package_already_in_the_wanted_state_needs_no_command() {
    let registry = registry(&[("serialA", ConnectionState::Online)]);
    for (action, state) in [
        (Action::Disable, InstalledState::Disabled),
        (Action::Uninstall, InstalledState::Uninstalled),
        (Action::Restore, InstalledState::Enabled),
    ] {
        let mut run = BatchRun::new(vec![request("serialA", "com.a", action)], false);
        assert_eq!(run.advance(&registry), Directive::Query { index: 0 });
        assert_eq!(run.state_reported(0, Ok(state), &registry), Directive::Resolved { index: 0 });
        assert_eq!(outcomes(&run), vec![Outcome::AlreadyInState]);
    }
}

#[test]
fn the_command_goes_by_the_state_that_was_found() {
    let registry = registry(&[("serialA", ConnectionState::Online)]);
    let mut run = BatchRun::new(vec![request("serialA", "com.a", Action::Restore)], false);
    assert_eq!(run.advance(&registry), Directive::Query { index: 0 });
    assert_eq!(
        run.state_reported(0, Ok(InstalledState::Disabled), &registry),
        Directive::Execute { index: 0, command: words(&["shell", "pm", "enable", "--user", "0", "com.a"]) }
    );
    assert_eq!(run.phase(0), Some(Phase::Executing));
}

#[test]
fn requests_of_one_device_run_one_at_a_time_in_order() {
    let registry = registry(&[("serialA", ConnectionState::Online), ("serialB", ConnectionState::Online)]);
    let mut run = BatchRun::new(
        vec![
            request("serialA", "com.1", Action::Disable),
            request("serialB", "com.1", Action::Disable),
            request("serialA", "com.2", Action::Disable),
            request("serialB", "com.2", Action::Disable),
            request("serialA", "com.3", Action::Disable),
        ],
        false,
    );
    assert_eq!(run.advance(&registry), Directive::Query { index: 0 });
    assert_eq!(run.advance(&registry), Directive::Query { index: 1 });
    assert_eq!(run.advance(&registry), Directive::Wait);
    assert_eq!(run.phase(2), Some(Phase::Pending));
    // the second device gets ahead of the first
    assert_eq!(run.state_reported(1, Ok(InstalledState::Disabled), &registry), Directive::Resolved { index: 1 });
    assert_eq!(run.advance(&registry), Directive::Query { index: 3 });
    assert_eq!(run.state_reported(3, Ok(InstalledState::Disabled), &registry), Directive::Resolved { index: 3 });
    assert_eq!(run.advance(&registry), Directive::Wait);
    assert!(matches!(
        run.state_reported(0, Ok(InstalledState::Enabled), &registry),
        Directive::Execute { index: 0, .. }
    ));
    assert_eq!(run.advance(&registry), Directive::Wait);
    assert_eq!(run.command_finished(0, &ended(0, ""), &registry), Directive::Resolved { index: 0 });
    assert_eq!(run.advance(&registry), Directive::Query { index: 2 });
    assert_eq!(run.advance(&registry), Directive::Wait);
    assert_eq!(run.state_reported(2, Err(Failure::Timeout), &registry), Directive::Resolved { index: 2 });
    assert_eq!(run.advance(&registry), Directive::Query { index: 4 });
    assert_eq!(run.state_reported(4, Ok(InstalledState::Disabled), &registry), Directive::Resolved { index: 4 });
    assert_eq!(run.advance(&registry), Directive::Finished);

    let of_a: Vec<&str> = run
        .results()
        .iter()
        .filter(|r| r.request.device == "serialA")
        .map(|r| r.request.package.as_str())
        .collect();
    let of_b: Vec<&str> = run
        .results()
        .iter()
        .filter(|r| r.request.device == "serialB")
        .map(|r| r.request.package.as_str())
        .collect();
    assert_eq!(of_a, vec!["com.1", "com.2", "com.3"]);
    assert_eq!(of_b, vec!["com.1", "com.2"]);
    assert_eq!(
        outcomes(&run),
        vec![
            Outcome::AlreadyInState,
            Outcome::AlreadyInState,
            Outcome::Success,
            Outcome::Failed(Failure::Timeout),
            Outcome::AlreadyInState,
        ]
    );
}

#[test]
fn every_request_gets_one_result() {
    let registry = registry(&[("serialA", ConnectionState::Online), ("serialB", ConnectionState::Offline)]);
    let mut requests = Vec::new();
    for i in 0..20 {
        let device = ["serialA", "serialB", "serialC"][i % 3];
        requests.push(request(device, &format!("com.p{}", i), Action::Uninstall));
    }
    let mut run = BatchRun::new(requests, false);
    let mut devices = Devices::new();
    drive(&mut run, &registry, &mut devices);
    assert_eq!(run.len(), 20);
    assert_eq!(run.results().len(), 20);
    for i in 0..20 {
        let package = format!("com.p{}", i);
        assert_eq!(run.results().iter().filter(|r| r.request.package == package).count(), 1);
        assert_eq!(run.phase(i), Some(Phase::Resolved));
    }
    assert_eq!(devices.commands.len(), 7);
}

#[test]
fn a_failed_command_is_not_tried_again() {
    let registry = registry(&[("serialA", ConnectionState::Online)]);
    let mut run = BatchRun::new(vec![request("serialA", "com.a", Action::Disable)], false);
    assert_eq!(run.advance(&registry), Directive::Query { index: 0 });
    assert!(matches!(
        run.state_reported(0, Ok(InstalledState::Enabled), &registry),
        Directive::Execute { .. }
    ));
    assert_eq!(
        run.command_finished(0, &ended(1, "error: device offline"), &registry),
        Directive::Resolved { index: 0 }
    );
    assert_eq!(run.advance(&registry), Directive::Finished);
    assert_eq!(outcomes(&run), vec![Outcome::Failed(Failure::DeviceOffline)]);
    assert_eq!(run.status(), RunStatus::Completed);
}

#[test]
fn reports_that_fit_no_request_in_flight_are_dropped() {
    let registry = registry(&[("serialA", ConnectionState::Online)]);
    let mut run = BatchRun::new(vec![request("serialA", "com.a", Action::Disable)], false);
    assert_eq!(run.state_reported(0, Ok(InstalledState::Enabled), &registry), Directive::Ignored);
    assert_eq!(run.command_finished(0, &ended(0, ""), &registry), Directive::Ignored);
    assert_eq!(run.state_reported(5, Ok(InstalledState::Enabled), &registry), Directive::Ignored);
    assert_eq!(run.advance(&registry), Directive::Query { index: 0 });
    assert_eq!(run.command_finished(0, &ended(0, ""), &registry), Directive::Ignored);
    assert!(matches!(
        run.state_reported(0, Ok(InstalledState::Enabled), &registry),
        Directive::Execute { .. }
    ));
    assert_eq!(run.state_reported(0, Ok(InstalledState::Enabled), &registry), Directive::Ignored);
    assert_eq!(run.command_finished(0, &ended(0, ""), &registry), Directive::Resolved { index: 0 });
    assert_eq!(run.command_finished(0, &ended(0, ""), &registry), Directive::Ignored);
    assert_eq!(outcomes(&run), vec![Outcome::Success]);
}

#[test]
fn a_cancelled_run_starts_nothing_and_lets_requests_in_flight_finish() {
    let registry = registry(&[("serialA", ConnectionState::Online), ("serialB", ConnectionState::Online)]);
    let mut run = BatchRun::new(
        vec![
            request("serialA", "com.a", Action::Disable),
            request("serialA", "com.b", Action::Disable),
            request("serialB", "com.a", Action::Disable),
        ],
        false,
    );
    assert_eq!(run.status(), RunStatus::Running);
    assert_eq!(run.advance(&registry), Directive::Query { index: 0 });
    run.cancel();
    assert_eq!(run.status(), RunStatus::Cancelling);
    assert_eq!(run.advance(&registry), Directive::Wait);
    assert!(matches!(
        run.state_reported(0, Ok(InstalledState::Enabled), &registry),
        Directive::Execute { index: 0, .. }
    ));
    assert_eq!(run.status(), RunStatus::Cancelling);
    assert_eq!(run.command_finished(0, &ended(0, ""), &registry), Directive::Resolved { index: 0 });
    assert_eq!(run.status(), RunStatus::Cancelled);
    assert_eq!(run.advance(&registry), Directive::Finished);
    assert_eq!(outcomes(&run), vec![Outcome::Success]);
    assert_eq!(run.phase(1), Some(Phase::Pending));
    assert_eq!(run.phase(2), Some(Phase::Pending));
}

#[test]
fn a_run_without_requests_is_finished() {
    let registry = registry(&[]);
    let mut run = BatchRun::new(Vec::new(), false);
    assert_eq!(run.status(), RunStatus::Completed);
    assert_eq!(run.advance(&registry), Directive::Finished);
    assert!(run.results().is_empty());
    assert_eq!(run.len(), 0);
    assert_eq!(run.request(0), None);
    assert_eq!(run.phase(0), None);
}
