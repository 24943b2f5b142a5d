//! What an update check tells the user. The check itself, the download and
//! the dialogs are the shell's; the choice of dialog for each outcome is
//! here. A background check that finds nothing stays silent, and a failed
//! one is only logged; a check the user asked for always answers.
use vstd::prelude::*;

use crate::text::{append_chars, chars_of, string_of};

verus! {

/// How a check for a newer release came out.
pub enum UpdateCheck {
    /// A newer release exists.
    Found { version: String },
    /// This is the newest release.
    UpToDate,
    /// The check could not be made.
    Failed { error: String },
}

/// A message box.
pub struct Dialog {
    pub title: String,
    pub message: String,
    /// Shown with the error icon.
    pub is_error: bool,
}

/// What to do once a check has come back.
pub enum UpdateStep {
    /// Ask whether to install, with "Install" and "Later" buttons.
    AskToInstall(Dialog),
    /// Show a message and wait for it to be dismissed.
    Show(Dialog),
    /// Write a line to the error log.
    Log(String),
    /// Nothing.
    Silent,
}

/// A dialog's parts, as strings.
pub open spec fn dialog_is(d: Dialog, title: Seq<char>, message: Seq<char>, is_error: bool) -> bool {
    d.title@ == title && d.message@ == message && d.is_error == is_error
}

/// The question asked when a newer release is found.
pub open spec fn available_message(version: Seq<char>) -> Seq<char> {
    "Envy "@ + version + " is available.\n\nInstall it now? Envy will restart."@
}

/// The answer to a check the user asked for that failed.
pub open spec fn check_failed_message(error: Seq<char>) -> Seq<char> {
    "Could not check for updates.\n\n"@ + error
}

/// The log line of a background check that failed.
pub open spec fn background_failure_line(error: Seq<char>) -> Seq<char> {
    "background update check failed: "@ + error
}

/// The report of an install that could not be staged.
pub open spec fn install_failed_message(error: Seq<char>) -> Seq<char> {
    "The update could not be installed.\n\n"@ + error
}

/// The answer of a build with no update channel.
pub open spec fn no_channel_message() -> Seq<char> {
    "This Linux build has no update channel yet.\n\nTo update, pull the repository and run ./build.sh."@
}

fn concat3(a: &str, b: &str, c: &str) -> (s: String)
    ensures
        s@ == a@ + b@ + c@,
{
    let mut v = chars_of(a);
    append_chars(&mut v, &chars_of(b));
    append_chars(&mut v, &chars_of(c));
    string_of(&v)
}

fn dialog(title: &str, message: String, is_error: bool) -> (d: Dialog)
    ensures
        dialog_is(d, title@, message@, is_error),
{
    Dialog { title: string_of(&chars_of(title)), message, is_error }
}

/// The step for a finished check: `manual` is a check the user asked for,
/// the only kind that reports finding nothing.
pub fn update_check_step(check: &UpdateCheck, manual: bool) -> (s: UpdateStep)
    ensures
        match check {
            UpdateCheck::Found { version } => s matches UpdateStep::AskToInstall(d) && dialog_is(
                d,
                "Update Available"@,
                available_message(version@),
                false,
            ),
            UpdateCheck::UpToDate => if manual {
                s matches UpdateStep::Show(d) && dialog_is(
                    d,
                    "No Updates"@,
                    "Envy is up to date."@,
                    false,
                )
            } else {
                s is Silent
            },
            UpdateCheck::Failed { error } => if manual {
                s matches UpdateStep::Show(d) && dialog_is(
                    d,
                    "Update Check Failed"@,
                    check_failed_message(error@),
                    true,
                )
            } else {
                s matches UpdateStep::Log(line) && line@ == background_failure_line(error@)
            },
        },
        manual ==> (s is AskToInstall || s is Show),
        !manual ==> !(s is Show),
{
    match check {
        UpdateCheck::Found { version } => {
            let m = concat3("Envy ", version.as_str(), " is available.\n\nInstall it now? Envy will restart.");
            UpdateStep::AskToInstall(dialog("Update Available", m, false))
        },
        UpdateCheck::UpToDate => {
            if manual {
                UpdateStep::Show(
                    dialog("No Updates", string_of(&chars_of("Envy is up to date.")), false),
                )
            } else {
                UpdateStep::Silent
            }
        },
        UpdateCheck::Failed { error } => {
            if manual {
                let m = concat3("Could not check for updates.\n\n", error.as_str(), "");
                proof {
                    reveal_strlit("");
                }
                UpdateStep::Show(dialog("Update Check Failed", m, true))
            } else {
                let line = concat3("background update check failed: ", error.as_str(), "");
                proof {
                    reveal_strlit("");
                }
                UpdateStep::Log(line)
            }
        },
    }
}

/// The report when an accepted update could not be staged.
pub fn install_failed_dialog(error: &str) -> (d: Dialog)
    ensures
        dialog_is(d, "Update Failed"@, install_failed_message(error@), true),
{
    proof {
        reveal_strlit("");
    }
    dialog("Update Failed", concat3("The update could not be installed.\n\n", error, ""), true)
}

/// A build with no update channel: a check the user asked for says so; a
/// background one does nothing.
pub fn no_update_channel_step(manual: bool) -> (s: UpdateStep)
    ensures
        manual ==> (s matches UpdateStep::Show(d) && dialog_is(
            d,
            "No Update Channel"@,
            no_channel_message(),
            false,
        )),
        !manual ==> s is Silent,
{
    if manual {
        let m = string_of(
            &chars_of(
                "This Linux build has no update channel yet.\n\nTo update, pull the repository and run ./build.sh.",
            ),
        );
        UpdateStep::Show(dialog("No Update Channel", m, false))
    } else {
        UpdateStep::Silent
    }
}

} // verus!
