//! Choosing which existing window to bring to the foreground when a launch
//! defers to an already-running copy.
//!
//! The caller enumerates the top-level windows, hands in what it observed of
//! each, and performs the returned plan on the chosen window; finding nothing
//! is a silent no-op, never an error.

use vstd::prelude::*;

verus! {

/// What a caller observed of one top-level window, in enumeration order:
/// which process owns it, how long its title text is, and whether its style
/// marks it minimized or visible.
#[derive(Clone, Copy, Debug, PartialEq, Eq, Structural)]
pub struct WindowInfo {
    pub owner_pid: u32,
    pub title_len: u32,
    pub minimized: bool,
    pub visible: bool,
}

/// How to surface the chosen window before asking for foreground focus.
#[derive(Clone, Copy, Debug, PartialEq, Eq, Structural)]
pub enum ShowCommand {
    /// The window is minimized: restore it.
    Restore,
    /// The window is not visible: show it.
    Show,
    /// The window is already visible: only foreground focus is needed.
    FocusOnly,
}

/// The chosen window (by its index in the enumeration) and how to surface it.
/// Whatever the command, the caller finishes by requesting foreground focus.
#[derive(Clone, Copy, Debug, PartialEq, Eq, Structural)]
pub struct ActivationPlan {
    pub index: usize,
    pub command: ShowCommand,
}

/// Whether window `w` can stand in for a sibling instance: it is owned by one
/// of the target processes and has title text. The title filter skips the
/// invisible helper windows a process may own.
pub open spec fn is_candidate(w: WindowInfo, pids: Seq<u32>) -> bool {
    pids.contains(w.owner_pid) && w.title_len > 0
}

/// How a window in the given state is surfaced: restored when minimized,
/// shown when invisible, otherwise left as it is.
pub open spec fn spec_show_command(w: WindowInfo) -> ShowCommand {
    if w.minimized {
        ShowCommand::Restore
    } else if !w.visible {
        ShowCommand::Show
    } else {
        ShowCommand::FocusOnly
    }
}

/// Pick the window to activate: the first window in enumeration order owned
/// by one of `pids` and having title text, with the command that surfaces it.
/// `None` when no window qualifies.
pub fn plan_activation(windows: &Vec<WindowInfo>, pids: &Vec<u32>) -> (r: Option<ActivationPlan>)
    ensures
        (r is None <==> forall|i: int|
            0 <= i < windows@.len() ==> !is_candidate(windows@[i], pids@)),
        (r matches Some(plan) ==> plan.index < windows@.len() && is_candidate(
            windows@[plan.index as int],
            pids@,
        ) && plan.command == spec_show_command(windows@[plan.index as int]) && forall|j: int|
            0 <= j < plan.index ==> !is_candidate(windows@[j], pids@)),
{
    let n: usize = windows.len();
    for i in 0..n
        invariant
            n == windows@.len(),
            forall|j: int| 0 <= j < i ==> !is_candidate(windows@[j], pids@),
    {
        let w: &WindowInfo = &windows[i];
        if contains_pid(pids, w.owner_pid) && w.title_len > 0 {
            let command: ShowCommand = if w.minimized {
                ShowCommand::Restore
            } else if !w.visible {
                ShowCommand::Show
            } else {
                ShowCommand::FocusOnly
            };
            return Some(ActivationPlan { index: i, command });
        }
    }
    None
}

/// Whether `pids` holds `pid`.
fn contains_pid(pids: &Vec<u32>, pid: u32) -> (r: bool)
    ensures
        r == pids@.contains(pid),
{
    let n: usize = pids.len();
    for i in 0..n
        invariant
            n == pids@.len(),
            forall|j: int| 0 <= j < i ==> pids@[j] != pid,
    {
        if pids[i] == pid {
            return true;
        }
    }
    false
}

} // verus!
