//! One bridge command: its argument vector, the watch kept over the child
//! process while it runs, and the classification of how it ended.

use crate::text::{contains_text, has_text, lines, split_lines, texts};
use vstd::prelude::*;
use vstd::string::*;

verus! {

/// Why a command did not succeed. The kinds are never conflated: each run
/// that fails has exactly one.
#[derive(Clone, Copy, Debug, PartialEq, Eq, Structural)]
pub enum Failure {
    /// The bridge server could not be reached, or the bridge could not be started.
    TransportUnavailable,
    /// The bridge knows the device, but the device does not answer.
    DeviceOffline,
    /// The device is attached but has not accepted this host.
    DeviceUnauthorized,
    /// The command ran past its bound and was killed.
    Timeout,
    /// The command ran to its end and reported failure.
    NonZeroExit,
}

/// How the child process ended.
#[derive(Clone, Copy, Debug, PartialEq, Eq, Structural)]
pub enum Exit {
    /// The process could not be started.
    NotStarted,
    /// The process was killed at its bound.
    Killed,
    /// The process ended by itself with this exit code.
    Code(i32),
}

/// What was last seen of a running child process.
#[derive(Clone, Copy, Debug, PartialEq, Eq, Structural)]
pub enum Watch {
    Running,
    Exited(i32),
}

/// What the process runner observed of one run.
#[derive(Debug)]
pub struct RawRun {
    pub exit: Exit,
    pub stdout: String,
    pub stderr: String,
    pub elapsed_ms: u64,
}

/// What a run left behind, kept with every outcome for diagnostics.
#[derive(Debug, PartialEq, Eq)]
pub struct Captured {
    /// Standard output, line by line.
    pub stdout: Vec<String>,
    pub stderr: String,
    /// The exit code, if the process ended by itself.
    pub exit_code: Option<i32>,
    pub elapsed_ms: u64,
}

/// The result of one command.
#[derive(Debug, PartialEq, Eq)]
pub enum CommandOutcome {
    Completed(Captured),
    Failed(Failure, Captured),
}

/// Why the bridge's version could not be read.
#[derive(Clone, Copy, Debug, PartialEq, Eq, Structural)]
pub enum ProbeFailure {
    /// The command succeeded but printed nothing.
    NoOutput,
    /// The command failed.
    Command(Failure),
}

/// What the bridge prints when its server cannot be reached.
pub open spec fn unreachable_words() -> Seq<char> {
    "cannot connect to daemon"@
}

/// What the bridge prints for a device that does not answer.
pub open spec fn offline_words() -> Seq<char> {
    "device offline"@
}

/// What the bridge prints for a device that has not accepted this host.
pub open spec fn unauthorized_words() -> Seq<char> {
    "device unauthorized"@
}

/// The exit code that a run has, if the process ended by itself.
pub open spec fn exit_code_of(exit: Exit) -> Option<i32> {
    match exit {
        Exit::Code(code) => Some(code),
        _ => None,
    }
}

/// The classification of a run from how it ended and what it printed to
/// standard error. A process that could not start is an unreachable bridge, a
/// killed one a timeout, exit code 0 success. Of the others the bridge's own
/// words decide, the server's trouble before the device's.
pub open spec fn failure_of(exit: Exit, stderr: Seq<char>) -> Option<Failure> {
    match exit {
        Exit::NotStarted => Some(Failure::TransportUnavailable),
        Exit::Killed => Some(Failure::Timeout),
        Exit::Code(code) => if code == 0 {
            None
        } else if contains_text(stderr, unreachable_words()) {
            Some(Failure::TransportUnavailable)
        } else if contains_text(stderr, offline_words()) {
            Some(Failure::DeviceOffline)
        } else if contains_text(stderr, unauthorized_words()) {
            Some(Failure::DeviceUnauthorized)
        } else {
            Some(Failure::NonZeroExit)
        },
    }
}

/// What to do with a watched process: `None` to keep waiting, `Killed` to kill
/// it now, an exit code to collect what it left. A process that has ended is
/// collected even at its bound; one that still runs at or after `timeout_ms`
/// is killed.
pub open spec fn verdict(watch: Watch, elapsed_ms: u64, timeout_ms: u64) -> Option<Exit> {
    match watch {
        Watch::Exited(code) => Some(Exit::Code(code)),
        Watch::Running => if elapsed_ms >= timeout_ms {
            Some(Exit::Killed)
        } else {
            None
        },
    }
}

/// The arguments handed to the bridge: the command, after the two that select
/// the device where there is one.
pub open spec fn command_line_of(device: Option<Seq<char>>, command: Seq<Seq<char>>) -> Seq<
    Seq<char>,
> {
    match device {
        Some(serial) => seq!["-s"@, serial] + command,
        None => command,
    }
}

impl CommandOutcome {
    /// What the run left behind.
    pub open spec fn captured(self) -> Captured {
        match self {
            CommandOutcome::Completed(c) => c,
            CommandOutcome::Failed(_, c) => c,
        }
    }

    /// Why the run failed, if it did.
    pub open spec fn failure(self) -> Option<Failure> {
        match self {
            CommandOutcome::Completed(_) => None,
            CommandOutcome::Failed(f, _) => Some(f),
        }
    }

    /// Classifies a finished run; see [`failure_of`]. The captured output
    /// goes with the outcome whether the run succeeded or not.
    pub fn from_run(raw: RawRun) -> (outcome: CommandOutcome)
        ensures
            outcome.failure() == failure_of(raw.exit, raw.stderr@),
            texts(outcome.captured().stdout@) == lines(raw.stdout@),
            outcome.captured().stderr == raw.stderr,
            outcome.captured().exit_code == exit_code_of(raw.exit),
            outcome.captured().elapsed_ms == raw.elapsed_ms,
    {
        let failure = classify(raw.exit, raw.stderr.as_str());
        let stdout = split_lines(raw.stdout.as_str());
        let exit_code = match raw.exit {
            Exit::Code(code) => Some(code),
            _ => None,
        };
        let captured = Captured {
            stdout,
            stderr: raw.stderr,
            exit_code,
            elapsed_ms: raw.elapsed_ms,
        };
        match failure {
            None => CommandOutcome::Completed(captured),
            Some(f) => CommandOutcome::Failed(f, captured),
        }
    }

    /// The output lines of the run.
    pub fn stdout(&self) -> (r: &Vec<String>)
        ensures
            *r == self.captured().stdout,
    {
        match self {
            CommandOutcome::Completed(c) => &c.stdout,
            CommandOutcome::Failed(_, c) => &c.stdout,
        }
    }
}

/// The kind of failure of a run, or `None` for success; see [`failure_of`].
pub fn classify(exit: Exit, stderr: &str) -> (r: Option<Failure>)
    ensures
        r == failure_of(exit, stderr@),
{
    match exit {
        Exit::NotStarted => Some(Failure::TransportUnavailable),
        Exit::Killed => Some(Failure::Timeout),
        Exit::Code(code) => {
            if code == 0 {
                None
            } else if has_text(stderr, "cannot connect to daemon") {
                Some(Failure::TransportUnavailable)
            } else if has_text(stderr, "device offline") {
                Some(Failure::DeviceOffline)
            } else if has_text(stderr, "device unauthorized") {
                Some(Failure::DeviceUnauthorized)
            } else {
                Some(Failure::NonZeroExit)
            }
        },
    }
}

/// Decides what to do with a watched process; see [`verdict`].
pub fn supervise(watch: Watch, elapsed_ms: u64, timeout_ms: u64) -> (r: Option<Exit>)
    ensures
        r == verdict(watch, elapsed_ms, timeout_ms),
{
    match watch {
        Watch::Exited(code) => Some(Exit::Code(code)),
        Watch::Running => {
            if elapsed_ms >= timeout_ms {
                Some(Exit::Killed)
            } else {
                None
            }
        },
    }
}

/// A command that has not ended when its bound is reached is killed, and the
/// run is then a timeout whatever it printed.
pub proof fn lemma_timeout_enforced(elapsed_ms: u64, timeout_ms: u64, stderr: Seq<char>)
    requires
        elapsed_ms >= timeout_ms,
    ensures
        verdict(Watch::Running, elapsed_ms, timeout_ms) == Some(Exit::Killed),
        failure_of(Exit::Killed, stderr) == Some(Failure::Timeout),
{
}

/// A command is never killed before its bound, and one that has ended by
/// itself is never classified as a timeout.
pub proof fn lemma_no_early_kill(watch: Watch, elapsed_ms: u64, timeout_ms: u64, stderr: Seq<char>)
    ensures
        elapsed_ms < timeout_ms ==> verdict(watch, elapsed_ms, timeout_ms) != Some(Exit::Killed),
        watch matches Watch::Exited(code) ==> failure_of(
            verdict(watch, elapsed_ms, timeout_ms)->0,
            stderr,
        ) != Some(Failure::Timeout),
{
}

/// The argument vector for `command` against `device`, or against the host
/// where there is no device; see [`command_line_of`].
pub fn command_line(device: Option<&String>, command: &Vec<String>) -> (args: Vec<String>)
    ensures
        texts(args@) == command_line_of(
            match device {
                Some(serial) => Some(serial@),
                None => None,
            },
            texts(command@),
        ),
{
    let mut args: Vec<String> = Vec::new();
    match device {
        Some(serial) => {
            args.push(String::from_str("-s"));
            args.push(serial.clone());
        },
        None => {},
    }
    let ghost head = texts(args@);
    assert(device is Some ==> head == seq!["-s"@, device->0@]);
    assert(device is None ==> head == Seq::<Seq<char>>::empty());
    let mut i: usize = 0;
    while i < command.len()
        invariant
            i <= command.len(),
            texts(args@) == head + texts(command@).take(i as int),
        decreases command.len() - i,
    {
        let ghost before = texts(args@);
        args.push(command[i].clone());
        assert(texts(args@) == before.push(command@[i as int]@));
        assert(texts(command@).take(i as int + 1) == texts(command@).take(i as int).push(
            command@[i as int]@,
        ));
        i = i + 1;
    }
    assert(texts(command@).take(i as int) == texts(command@));
    args
}

/// The command that asks the bridge for its version. It is run against the
/// host, not against a device.
pub fn version_command() -> (args: Vec<String>)
    ensures
        texts(args@) == seq!["version"@],
{
    let mut args: Vec<String> = Vec::new();
    args.push(String::from_str("version"));
    assert(texts(args@) == seq!["version"@]);
    args
}

/// The bridge's version: the first line that the version command printed.
/// A command that printed nothing, as where the bridge is not installed, and a
/// command that failed each give an error to report, never a crash.
pub fn version_of(outcome: &CommandOutcome) -> (r: Result<String, ProbeFailure>)
    ensures
        r == (match *outcome {
            CommandOutcome::Completed(c) => if c.stdout@.len() > 0 {
                Ok::<String, ProbeFailure>(c.stdout@[0])
            } else {
                Err(ProbeFailure::NoOutput)
            },
            CommandOutcome::Failed(f, _) => Err(ProbeFailure::Command(f)),
        }),
{
    match outcome {
        CommandOutcome::Completed(c) => {
            if c.stdout.len() > 0 {
                Ok(c.stdout[0].clone())
            } else {
                Err(ProbeFailure::NoOutput)
            }
        },
        CommandOutcome::Failed(f, _) => Err(ProbeFailure::Command(*f)),
    }
}

} // verus!
