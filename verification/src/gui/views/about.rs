//! The page that tells what the program is, how current its package list and
//! the program itself are, and which bridge it talks to.

use crate::cache::{CacheView, PackageListCache};
use crate::date::compact_form;
use crate::executor::{version_of, CommandOutcome};
use crate::gui::{list_status_text, self_status_text, SelfUpdateStatus, UpdateState};
use std::path::PathBuf;
use vstd::prelude::*;
use vstd::string::*;

verus! {

/// `std::path::PathBuf`, carried through as it is.
#[verifier::external_type_specification]
#[verifier::external_body]
pub struct ExPathBuf(std::path::PathBuf);

/// `PathBuf::clone` of std: the copy is the same path.
pub assume_specification[ <std::path::PathBuf as Clone>::clone ](p: &PathBuf) -> (r: PathBuf)
    ensures
        r == *p,
;

/// The path that `PathBuf::from` of std makes of a text.
pub uninterp spec fn path_of(text: Seq<char>) -> PathBuf;

/// `PathBuf::from` of std, for a text: the path that the text names.
#[verifier::external_body]
fn path_from(text: &str) -> (r: PathBuf)
    ensures
        r == path_of(text@),
{
    PathBuf::from(text)
}

#[derive(Default, Debug, Clone)]
pub struct About {}

#[derive(Debug, Clone)]
pub enum Message {
    UrlPressed(PathBuf),
    UpdateUadLists,
    DoSelfUpdate,
}

/// A button with the message that pressing it sends.
#[derive(Debug)]
pub struct Button {
    pub label: String,
    pub on_press: Message,
}

pub struct ButtonView {
    pub label: Seq<char>,
    pub on_press: Message,
}

impl View for Button {
    type V = ButtonView;

    open spec fn view(&self) -> ButtonView {
        ButtonView { label: self.label@, on_press: self.on_press }
    }
}

/// One line of the update box: what is installed, the button that updates
/// it, and how the update stands.
#[derive(Debug)]
pub struct UpdateRow {
    pub installed: String,
    pub button: Button,
    pub status: String,
}

pub struct UpdateRowView {
    pub installed: Seq<char>,
    pub button: ButtonView,
    pub status: Seq<char>,
}

impl View for UpdateRow {
    type V = UpdateRowView;

    open spec fn view(&self) -> UpdateRowView {
        UpdateRowView { installed: self.installed@, button: self.button@, status: self.status@ }
    }
}

/// What the page shows, top to bottom.
#[derive(Debug)]
pub struct AboutPage {
    pub description: String,
    pub list_row: UpdateRow,
    pub program_row: UpdateRow,
    pub bridge_version: String,
    pub links: Vec<Button>,
}

pub struct AboutPageView {
    pub description: Seq<char>,
    pub list_row: UpdateRowView,
    pub program_row: UpdateRowView,
    pub bridge_version: Seq<char>,
    pub links: Seq<ButtonView>,
}

pub open spec fn button_views(v: Seq<Button>) -> Seq<ButtonView> {
    Seq::new(v.len(), |i: int| v[i]@)
}

impl View for AboutPage {
    type V = AboutPageView;

    open spec fn view(&self) -> AboutPageView {
        AboutPageView {
            description: self.description@,
            list_row: self.list_row@,
            program_row: self.program_row@,
            bridge_version: self.bridge_version@,
            links: button_views(self.links@),
        }
    }
}

pub open spec fn description_text() -> Seq<char> {
    "Universal Android Debloater Next Generation (UAD-ng) is a free and open-source community project \naiming at simplifying the removal of pre-installed apps on any Android device."@
}

/// Which package list is installed: its date as eight digits, or that there
/// is none.
pub open spec fn list_label(cache: CacheView) -> Seq<char> {
    match cache.stored {
        Some(s) => "UAD-ng package list: v"@ + compact_form(s.modified),
        None => "UAD-ng package list: none"@,
    }
}

pub open spec fn program_label(version: Seq<char>) -> Seq<char> {
    "UAD-ng version: v"@ + version
}

/// How the program's own update stands. Without a release on offer that is
/// the status, a finished check meaning that there is nothing newer; with
/// one it is the release's tag, unless the update is under way.
pub open spec fn self_update_text(latest: Option<Seq<char>>, status: SelfUpdateStatus) -> Seq<
    char,
> {
    match latest {
        None => if status == SelfUpdateStatus::Done {
            "(No update available)"@
        } else {
            self_status_text(status)
        },
        Some(tag) => if status == SelfUpdateStatus::Updating {
            self_status_text(status)
        } else {
            "("@ + tag + " available)"@
        },
    }
}

/// The bridge's version as shown: the first line that its version command
/// printed, and nothing where it printed none or failed.
pub open spec fn bridge_text(probe: CommandOutcome) -> Seq<char> {
    match probe {
        CommandOutcome::Completed(c) => if c.stdout@.len() > 0 {
            c.stdout@[0]@
        } else {
            Seq::<char>::empty()
        },
        CommandOutcome::Failed(_, _) => Seq::<char>::empty(),
    }
}

pub open spec fn update_button(message: Message) -> ButtonView {
    ButtonView { label: "Update"@, on_press: message }
}

pub open spec fn link(label: Seq<char>, target: Seq<char>) -> ButtonView {
    ButtonView { label: label, on_press: Message::UrlPressed(path_of(target)) }
}

/// The links at the foot of the page.
pub open spec fn links_of(cache_dir: Seq<char>) -> Seq<ButtonView> {
    seq![
        link(
            "GitHub page"@,
            "https://github.com/Universal-Debloater-Alliance/universal-android-debloater"@,
        ),
        link(
            "Wiki"@,
            "https://github.com/Universal-Debloater-Alliance/universal-android-debloater/wiki"@,
        ),
        link(
            "Have an issue?"@,
            "https://github.com/Universal-Debloater-Alliance/universal-android-debloater/issues"@,
        ),
        link("Locate the logfiles"@, cache_dir),
    ]
}

/// The whole page.
pub open spec fn page_of(
    update_state: UpdateState,
    cache: CacheView,
    version: Seq<char>,
    probe: CommandOutcome,
    cache_dir: Seq<char>,
) -> AboutPageView {
    AboutPageView {
        description: description_text(),
        list_row: UpdateRowView {
            installed: list_label(cache),
            button: update_button(Message::UpdateUadLists),
            status: list_status_text(update_state.uad_list),
        },
        program_row: UpdateRowView {
            installed: program_label(version),
            button: update_button(Message::DoSelfUpdate),
            status: self_update_text(
                match update_state.self_update.latest_release {
                    Some(r) => Some(r.tag_name@),
                    None => None,
                },
                update_state.self_update.status,
            ),
        },
        bridge_version: bridge_text(probe),
        links: links_of(cache_dir),
    }
}

/// The path that a message asks to have opened, if it asks for that.
pub open spec fn url_of(msg: Message) -> Option<PathBuf> {
    match msg {
        Message::UrlPressed(url) => Some(url),
        _ => None,
    }
}

fn link_to(label: &str, target: &str) -> (b: Button)
    ensures
        b@ == link(label@, target@),
{
    Button { label: String::from_str(label), on_press: Message::UrlPressed(path_from(target)) }
}

fn update_button_for(message: Message) -> (b: Button)
    ensures
        b@ == update_button(message),
{
    Button { label: String::from_str("Update"), on_press: message }
}

fn self_update_status(update_state: &UpdateState) -> (s: String)
    ensures
        s@ == self_update_text(
            match update_state.self_update.latest_release {
                Some(r) => Some(r.tag_name@),
                None => None,
            },
            update_state.self_update.status,
        ),
{
    let status = update_state.self_update.status;
    match &update_state.self_update.latest_release {
        None => {
            if status == SelfUpdateStatus::Done {
                String::from_str("(No update available)")
            } else {
                status.text()
            }
        },
        Some(r) => {
            if status == SelfUpdateStatus::Updating {
                status.text()
            } else {
                String::from_str("(").concat(r.tag_name.as_str()).concat(" available)")
            }
        },
    }
}

impl About {
    /// Takes in a message of the page. Nothing of the page changes; a pressed
    /// link hands back the path that is to be opened, and the two update
    /// requests are left to whoever shows the page.
    pub fn update(&mut self, msg: Message) -> (open: Option<PathBuf>)
        ensures
            open == url_of(msg),
            *final(self) == *old(self),
    {
        if let Message::UrlPressed(url) = msg {
            Some(url)
        } else {
            None
        }
    }

    /// What the page shows; see [`page_of`]. `version` is the version of the
    /// program, `probe` what the bridge's version command came to, and
    /// `cache_dir` the directory that holds the cache and the logfiles.
    pub fn view(
        &self,
        update_state: &UpdateState,
        cache: &PackageListCache,
        version: &str,
        probe: &CommandOutcome,
        cache_dir: &str,
    ) -> (page: AboutPage)
        ensures
            page@ == page_of(*update_state, cache@, version@, *probe, cache_dir@),
    {
        let list_label = match cache.freshness() {
            Some(date) => String::from_str("UAD-ng package list: v").concat(date.compact().as_str()),
            None => String::from_str("UAD-ng package list: none"),
        };
        let bridge_version = match version_of(probe) {
            Ok(line) => line,
            Err(_) => String::new(),
        };
        let mut links: Vec<Button> = Vec::new();
        links.push(
            link_to(
                "GitHub page",
                "https://github.com/Universal-Debloater-Alliance/universal-android-debloater",
            ),
        );
        links.push(
            link_to(
                "Wiki",
                "https://github.com/Universal-Debloater-Alliance/universal-android-debloater/wiki",
            ),
        );
        links.push(
            link_to(
                "Have an issue?",
                "https://github.com/Universal-Debloater-Alliance/universal-android-debloater/issues",
            ),
        );
        links.push(link_to("Locate the logfiles", cache_dir));
        assert(button_views(links@) =~= links_of(cache_dir@));
        AboutPage {
            description: String::from_str(
                "Universal Android Debloater Next Generation (UAD-ng) is a free and open-source community project \naiming at simplifying the removal of pre-installed apps on any Android device.",
            ),
            list_row: UpdateRow {
                installed: list_label,
                button: update_button_for(Message::UpdateUadLists),
                status: update_state.uad_list.text(),
            },
            program_row: UpdateRow {
                installed: String::from_str("UAD-ng version: v").concat(version),
                button: update_button_for(Message::DoSelfUpdate),
                status: self_update_status(update_state),
            },
            bridge_version,
            links,
        }
    }
}

} // verus!
