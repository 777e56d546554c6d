//! The dialog that offers a newer release: its phases and what it says in
//! each.
use crate::text;
use crate::updater::ReleaseInfo;
use vstd::prelude::*;

verus! {

/// Where the update stands.
#[derive(Debug, Clone, Copy, PartialEq, Eq, Structural)]
pub enum AppUpdatePhase {
    /// The release notes, with Update and Skip.
    Prompt,
    /// Downloading and installing.
    Updating,
    /// Installed; the program restarts.
    Completed,
    /// Downloading or installing failed.
    Failed,
}

/// The dialog's state.
#[derive(Debug, Clone)]
pub struct AppUpdateState {
    pub release: ReleaseInfo,
    pub phase: AppUpdatePhase,
    pub status_message: Option<String>,
    /// Advances with the timer while updating; turns the spinner.
    pub spinner_tick: usize,
}

/// The spinner's frame for a tick: four quarter-circles in turn.
pub open spec fn spinner_spec(tick: usize) -> Seq<char> {
    let k = tick % 4;
    if k == 0 {
        "\u{25d0}"@
    } else if k == 1 {
        "\u{25d3}"@
    } else if k == 2 {
        "\u{25d1}"@
    } else {
        "\u{25d2}"@
    }
}

pub fn spinner_char(tick: usize) -> (s: &'static str)
    ensures
        s@ == spinner_spec(tick),
{
    let k = tick % 4;
    if k == 0 {
        "\u{25d0}"
    } else if k == 1 {
        "\u{25d3}"
    } else if k == 2 {
        "\u{25d1}"
    } else {
        "\u{25d2}"
    }
}

/// `Update available: v<version>`.
pub fn update_title(release: &ReleaseInfo) -> (s: String)
    ensures
        s@ == "Update available: v"@ + release.version@,
{
    let mut v = text::lit("Update available: v");
    text::push_str(&mut v, release.version.as_str());
    text::string_from_chars(&v)
}

/// What the failed dialog says: the recorded message, or `Unknown error`.
pub fn failure_text(state: &AppUpdateState) -> (s: String)
    ensures
        s@ == match state.status_message {
            Some(m) => m@,
            None => "Unknown error"@,
        },
{
    match &state.status_message {
        Some(m) => m.clone(),
        None => "Unknown error".to_owned(),
    }
}

} // verus!
