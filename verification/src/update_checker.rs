//! Watching a firmware update: the firewall reboots in the course of it,
//! so the update is over when the firewall answers again after it went
//! silent or announced its reboot.

use vstd::prelude::*;

use crate::text::same_text;

verus! {

/// How long an update is watched before it is given up, in seconds.
pub const UPDATE_TIMEOUT_SECS: u64 = 1800;

/// How long the watcher waits between two looks, in seconds.
pub const UPDATE_POLL_SECS: u64 = 10;

/// What a look at the firewall found.
#[derive(Debug, PartialEq, Eq)]
pub enum WatchEvent {
    /// The firewall answered, with this status if it reported one.
    Answered(Option<String>),
    /// The firewall did not answer.
    Unreachable,
}

/// What the watcher does next.
#[derive(Clone, Copy, Debug, PartialEq, Eq, Structural)]
pub enum WatchAction {
    /// The update is over and the firewall is back.
    Finished,
    /// Wait, then look again.
    Continue,
}

/// Whether an event lets the watcher conclude that a reboot is under way:
/// the firewall is silent, or reports the status `reboot`.
pub open spec fn signals_reboot(event: WatchEvent) -> bool {
    match event {
        WatchEvent::Unreachable => true,
        WatchEvent::Answered(Some(status)) => status@ == "reboot"@,
        WatchEvent::Answered(None) => false,
    }
}

/// What the watcher does after an event, given whether a reboot was
/// detected before: an answer after a reboot ends the watch, anything else
/// continues it.
pub open spec fn watch_action(reboot_detected: bool, event: WatchEvent) -> WatchAction {
    if reboot_detected && event is Answered {
        WatchAction::Finished
    } else {
        WatchAction::Continue
    }
}

/// Takes in what a look at the firewall found. Returns whether a reboot
/// counts as detected from now on, and what to do next.
pub fn watch_step(reboot_detected: bool, event: &WatchEvent) -> (next: (bool, WatchAction))
    ensures
        next.1 == watch_action(reboot_detected, *event),
        next.0 == (reboot_detected || signals_reboot(*event)),
{
    match event {
        WatchEvent::Answered(status) => {
            if reboot_detected {
                (true, WatchAction::Finished)
            } else {
                let rebooting = match status {
                    Some(text) => same_text(text.as_str(), "reboot"),
                    None => false,
                };
                (rebooting, WatchAction::Continue)
            }
        },
        WatchEvent::Unreachable => (true, WatchAction::Continue),
    }
}

/// Whether an update that has been watched for `elapsed_secs` seconds is
/// still to be watched.
pub fn still_watching(elapsed_secs: u64) -> (yes: bool)
    ensures
        yes == (elapsed_secs < UPDATE_TIMEOUT_SECS),
{
    elapsed_secs < UPDATE_TIMEOUT_SECS
}

/// The name of the package whose upgrade is the firewall's own.
pub fn core_package() -> (name: &'static str)
    ensures
        name@ == "opnsense"@,
{
    "opnsense"
}

/// Whether the firmware status says that updates are to be had; nothing
/// is said where the firmware reports no status.
pub fn updates_available(status: Option<&str>) -> (available: Option<bool>)
    ensures
        available == match status {
            Some(text) => Some(text@ == "update"@),
            None => None,
        },
{
    match status {
        Some(text) => Some(same_text(text, "update")),
        None => None,
    }
}

} // verus!
