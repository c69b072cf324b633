//! Package actions: what each one aims at, the bridge command that carries it
//! out, how a package's present state is read, and what a request comes to.

use crate::executor::{CommandOutcome, Failure};
use crate::registry::{lookup, ConnectionState, DeviceView};
use crate::text::texts;
use vstd::prelude::*;
use vstd::string::*;

verus! {

/// What can be done to a package.
#[derive(Clone, Copy, Debug, PartialEq, Eq, Structural)]
pub enum Action {
    Disable,
    Uninstall,
    Restore,
}

/// The state of a package on one device.
#[derive(Clone, Copy, Debug, PartialEq, Eq, Structural)]
pub enum InstalledState {
    Enabled,
    Disabled,
    /// Removed for the user, but still on the device.
    Uninstalled,
    /// Not on the device at all.
    Absent,
}

/// Which of the device's package listings to ask for.
#[derive(Clone, Copy, Debug, PartialEq, Eq, Structural)]
pub enum Listing {
    Enabled,
    Disabled,
    /// Every package the device knows, uninstalled ones among them.
    Known,
}

/// What became of a request.
#[derive(Clone, Copy, Debug, PartialEq, Eq, Structural)]
pub enum Outcome {
    Success,
    /// The package was in the wanted state before anything was done.
    AlreadyInState,
    Failed(Failure),
    /// The device could not be used; no command was sent to it.
    DeviceUnavailable,
}

/// One action on one package of one device.
#[derive(Debug, PartialEq, Eq)]
pub struct ActionRequest {
    pub device: String,
    pub package: String,
    pub action: Action,
}

pub struct RequestView {
    pub device: Seq<char>,
    pub package: Seq<char>,
    pub action: Action,
}

impl View for ActionRequest {
    type V = RequestView;

    open spec fn view(&self) -> RequestView {
        RequestView { device: self.device@, package: self.package@, action: self.action }
    }
}

impl Clone for ActionRequest {
    fn clone(&self) -> (r: Self)
        ensures
            r == *self,
    {
        ActionRequest {
            device: self.device.clone(),
            package: self.package.clone(),
            action: self.action,
        }
    }
}

/// A request with what became of it.
#[derive(Debug, PartialEq, Eq)]
pub struct ActionResult {
    pub request: ActionRequest,
    pub outcome: Outcome,
}

/// The state that an action brings a package to.
pub open spec fn target_of(action: Action) -> InstalledState {
    match action {
        Action::Disable => InstalledState::Disabled,
        Action::Uninstall => InstalledState::Uninstalled,
        Action::Restore => InstalledState::Enabled,
    }
}

/// Whether a device in this state is acted on. Only a device that is online
/// is, unless the caller forces the run; a missing device never is.
pub open spec fn targeted(state: ConnectionState, force: bool) -> bool {
    match state {
        ConnectionState::Online => true,
        ConnectionState::Offline => force,
        ConnectionState::Unauthorized => force,
        ConnectionState::Missing => false,
    }
}

/// Whether requests against this serial can go ahead: the registry must hold
/// the device, in a state that is acted on.
pub open spec fn available(devices: Seq<DeviceView>, serial: Seq<char>, force: bool) -> bool {
    match lookup(devices, serial) {
        Some(d) => targeted(d.state, force),
        None => false,
    }
}

/// What a request comes to once the package's present state is known, where
/// that settles it: a state that could not be read is a failure, and a
/// package already in the wanted state needs nothing done. `None` means that
/// the action's command has to run.
pub open spec fn settled_by(action: Action, reply: Result<InstalledState, Failure>) -> Option<
    Outcome,
> {
    match reply {
        Err(f) => Some(Outcome::Failed(f)),
        Ok(state) => if state == target_of(action) {
            Some(Outcome::AlreadyInState)
        } else {
            None
        },
    }
}

/// What a request comes to once its command has run.
pub open spec fn outcome_of(failure: Option<Failure>) -> Outcome {
    match failure {
        None => Outcome::Success,
        Some(f) => Outcome::Failed(f),
    }
}

/// The bridge command that carries out an action on a package in the given
/// state. A disabled package is restored by enabling it, any other by
/// installing it again from the device's own copy.
pub open spec fn command_of(action: Action, current: InstalledState, package: Seq<char>) -> Seq<
    Seq<char>,
> {
    match action {
        Action::Disable => seq!["shell"@, "pm"@, "disable-user"@, "--user"@, "0"@, package],
        Action::Uninstall => seq!["shell"@, "pm"@, "uninstall"@, "--user"@, "0"@, package],
        Action::Restore => if current == InstalledState::Disabled {
            seq!["shell"@, "pm"@, "enable"@, "--user"@, "0"@, package]
        } else {
            seq!["shell"@, "cmd"@, "package"@, "install-existing"@, "--user"@, "0"@, package]
        },
    }
}

/// The flag that selects a listing.
pub open spec fn listing_flag(which: Listing) -> Seq<char> {
    match which {
        Listing::Enabled => "-e"@,
        Listing::Disabled => "-d"@,
        Listing::Known => "-u"@,
    }
}

/// The bridge command that asks a device for one of its package listings.
pub open spec fn listing_command_of(which: Listing) -> Seq<Seq<char>> {
    seq!["shell"@, "pm"@, "list"@, "packages"@, "--user"@, "0"@, listing_flag(which)]
}

/// The line by which a listing names a package.
pub open spec fn listing_line(package: Seq<char>) -> Seq<char> {
    "package:"@ + package
}

/// Whether a listing names the package.
pub open spec fn listed(lines: Seq<Seq<char>>, package: Seq<char>) -> bool {
    exists|i: int| 0 <= i < lines.len() && #[trigger] lines[i] == listing_line(package)
}

/// The state of a package as three listings of its device show it. A listing
/// that could not be had is a failure, the first of them in the order
/// enabled, disabled, known. Otherwise the package is enabled or disabled if
/// the listing of that name has it, uninstalled if only the device still
/// knows it, and absent if not even that.
pub open spec fn state_from(
    enabled: CommandOutcome,
    disabled: CommandOutcome,
    known: CommandOutcome,
    package: Seq<char>,
) -> Result<InstalledState, Failure> {
    if enabled.failure() is Some {
        Err(enabled.failure()->0)
    } else if disabled.failure() is Some {
        Err(disabled.failure()->0)
    } else if known.failure() is Some {
        Err(known.failure()->0)
    } else if listed(texts(enabled.captured().stdout@), package) {
        Ok(InstalledState::Enabled)
    } else if listed(texts(disabled.captured().stdout@), package) {
        Ok(InstalledState::Disabled)
    } else if listed(texts(known.captured().stdout@), package) {
        Ok(InstalledState::Uninstalled)
    } else {
        Ok(InstalledState::Absent)
    }
}

/// An action on a package that is already where the action would bring it
/// needs no command. So a request that succeeded, applied once more, comes to
/// `AlreadyInState`, whatever the action and whatever the state before.
pub proof fn lemma_second_application_settles(action: Action, before: InstalledState)
    ensures
        settled_by(action, Ok(target_of(action))) == Some(Outcome::AlreadyInState),
        before != target_of(action) ==> settled_by(action, Ok(before)) is None,
        before == target_of(action) ==> settled_by(action, Ok(before)) == Some(
            Outcome::AlreadyInState,
        ),
{
}

/// A device that is missing, or that the registry does not hold, is never
/// available, forced or not.
pub proof fn lemma_missing_is_unavailable(devices: Seq<DeviceView>, serial: Seq<char>, force: bool)
    requires
        lookup(devices, serial) matches Some(d) ==> d.state == ConnectionState::Missing,
    ensures
        !available(devices, serial, force),
{
}

fn push_word(words: &mut Vec<String>, word: &str)
    ensures
        texts(final(words)@) == texts(old(words)@).push(word@),
{
    words.push(String::from_str(word));
    assert(texts(words@) =~= texts(old(words)@).push(word@));
}

impl Action {
    /// The state that the action brings a package to.
    pub fn target(&self) -> (r: InstalledState)
        ensures
            r == target_of(*self),
    {
        match self {
            Action::Disable => InstalledState::Disabled,
            Action::Uninstall => InstalledState::Uninstalled,
            Action::Restore => InstalledState::Enabled,
        }
    }

    /// The bridge command for the action; see [`command_of`].
    pub fn command(&self, current: InstalledState, package: &str) -> (args: Vec<String>)
        ensures
            texts(args@) == command_of(*self, current, package@),
    {
        let mut args: Vec<String> = Vec::new();
        assert(texts(args@) =~= Seq::<Seq<char>>::empty());
        push_word(&mut args, "shell");
        match self {
            Action::Disable => {
                push_word(&mut args, "pm");
                push_word(&mut args, "disable-user");
            },
            Action::Uninstall => {
                push_word(&mut args, "pm");
                push_word(&mut args, "uninstall");
            },
            Action::Restore => {
                if current == InstalledState::Disabled {
                    push_word(&mut args, "pm");
                    push_word(&mut args, "enable");
                } else {
                    push_word(&mut args, "cmd");
                    push_word(&mut args, "package");
                    push_word(&mut args, "install-existing");
                }
            },
        }
        push_word(&mut args, "--user");
        push_word(&mut args, "0");
        push_word(&mut args, package);
        assert(texts(args@) =~= command_of(*self, current, package@));
        args
    }
}

/// Whether a device in this state is acted on; see [`targeted`].
pub fn is_target(state: ConnectionState, force: bool) -> (r: bool)
    ensures
        r == targeted(state, force),
{
    match state {
        ConnectionState::Online => true,
        ConnectionState::Offline => force,
        ConnectionState::Unauthorized => force,
        ConnectionState::Missing => false,
    }
}

/// What a request comes to once its command has run: success, or the
/// command's own kind of failure.
pub fn outcome_for(result: &CommandOutcome) -> (r: Outcome)
    ensures
        r == outcome_of(result.failure()),
{
    match result {
        CommandOutcome::Completed(_) => Outcome::Success,
        CommandOutcome::Failed(f, _) => Outcome::Failed(*f),
    }
}

/// The bridge command for a package listing; see [`listing_command_of`].
pub fn listing_command(which: Listing) -> (args: Vec<String>)
    ensures
        texts(args@) == listing_command_of(which),
{
    let mut args: Vec<String> = Vec::new();
    assert(texts(args@) =~= Seq::<Seq<char>>::empty());
    push_word(&mut args, "shell");
    push_word(&mut args, "pm");
    push_word(&mut args, "list");
    push_word(&mut args, "packages");
    push_word(&mut args, "--user");
    push_word(&mut args, "0");
    match which {
        Listing::Enabled => push_word(&mut args, "-e"),
        Listing::Disabled => push_word(&mut args, "-d"),
        Listing::Known => push_word(&mut args, "-u"),
    }
    assert(texts(args@) =~= listing_command_of(which));
    args
}

/// Whether a listing names the package; see [`listed`].
pub fn lists_package(lines: &Vec<String>, package: &str) -> (r: bool)
    ensures
        r == listed(texts(lines@), package@),
{
    let wanted = String::from_str("package:").concat(package);
    let mut i: usize = 0;
    while i < lines.len()
        invariant
            i <= lines.len(),
            wanted@ == listing_line(package@),
            forall|j: int| 0 <= j < i ==> texts(lines@)[j] != listing_line(package@),
        decreases lines.len() - i,
    {
        assert(texts(lines@)[i as int] == lines@[i as int]@);
        if lines[i] == wanted {
            return true;
        }
        i = i + 1;
    }
    false
}

/// The state of a package as three listings of its device show it; see
/// [`state_from`].
pub fn read_state(
    enabled: &CommandOutcome,
    disabled: &CommandOutcome,
    known: &CommandOutcome,
    package: &str,
) -> (r: Result<InstalledState, Failure>)
    ensures
        r == state_from(*enabled, *disabled, *known, package@),
{
    let enabled_lines = match enabled {
        CommandOutcome::Failed(f, _) => {
            return Err(*f);
        },
        CommandOutcome::Completed(c) => &c.stdout,
    };
    let disabled_lines = match disabled {
        CommandOutcome::Failed(f, _) => {
            return Err(*f);
        },
        CommandOutcome::Completed(c) => &c.stdout,
    };
    let known_lines = match known {
        CommandOutcome::Failed(f, _) => {
            return Err(*f);
        },
        CommandOutcome::Completed(c) => &c.stdout,
    };
    if lists_package(enabled_lines, package) {
        Ok(InstalledState::Enabled)
    } else if lists_package(disabled_lines, package) {
        Ok(InstalledState::Disabled)
    } else if lists_package(known_lines, package) {
        Ok(InstalledState::Uninstalled)
    } else {
        Ok(InstalledState::Absent)
    }
}

} // verus!
