//! What the user interface shows, as plain values; drawing them is left to
//! the program around the library.

use vstd::prelude::*;
use vstd::string::*;

pub mod views;

verus! {

/// How the update of the package list stands.
#[derive(Clone, Copy, Debug, PartialEq, Eq, Structural)]
pub enum UadListState {
    Downloading,
    Done,
    Failed,
}

/// How the program's update of itself stands.
#[derive(Clone, Copy, Debug, PartialEq, Eq, Structural)]
pub enum SelfUpdateStatus {
    Checking,
    Updating,
    Failed,
    Done,
}

/// A release of the program that its source offers.
#[derive(Debug)]
pub struct ReleaseInfo {
    pub tag_name: String,
}

#[derive(Debug)]
pub struct SelfUpdateState {
    pub latest_release: Option<ReleaseInfo>,
    pub status: SelfUpdateStatus,
}

/// The state of both updates.
#[derive(Debug)]
pub struct UpdateState {
    pub uad_list: UadListState,
    pub self_update: SelfUpdateState,
}

pub open spec fn list_status_text(state: UadListState) -> Seq<char> {
    match state {
        UadListState::Downloading => "Checking updates..."@,
        UadListState::Done => "Done"@,
        UadListState::Failed => "Failed to check update!"@,
    }
}

pub open spec fn self_status_text(status: SelfUpdateStatus) -> Seq<char> {
    match status {
        SelfUpdateStatus::Checking => "Checking updates..."@,
        SelfUpdateStatus::Updating => "Updating..."@,
        SelfUpdateStatus::Failed => "Failed to check update!"@,
        SelfUpdateStatus::Done => "Done"@,
    }
}

impl UadListState {
    /// The state in words.
    pub fn text(&self) -> (s: String)
        ensures
            s@ == list_status_text(*self),
    {
        match self {
            UadListState::Downloading => String::from_str("Checking updates..."),
            UadListState::Done => String::from_str("Done"),
            UadListState::Failed => String::from_str("Failed to check update!"),
        }
    }
}

impl SelfUpdateStatus {
    /// The status in words.
    pub fn text(&self) -> (s: String)
        ensures
            s@ == self_status_text(*self),
    {
        match self {
            SelfUpdateStatus::Checking => String::from_str("Checking updates..."),
            SelfUpdateStatus::Updating => String::from_str("Updating..."),
            SelfUpdateStatus::Failed => String::from_str("Failed to check update!"),
            SelfUpdateStatus::Done => String::from_str("Done"),
        }
    }
}

} // verus!
