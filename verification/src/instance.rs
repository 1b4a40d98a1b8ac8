//! Instance-policy enforcement: who of several running copies of the
//! application gets to keep running, and what the new copy must do about it.
//!
//! The caller takes the operating-system process snapshot and performs the
//! returned decision (activate a window and exit, terminate siblings and
//! pause, or just proceed); everything in between is decided here.

use vstd::prelude::*;
use crate::config::InstancePolicy;

verus! {

/// One process from an operating-system snapshot: its identifier and its
/// executable's file name (no path components).
#[derive(Clone, Debug)]
pub struct ProcessRecord {
    pub pid: u32,
    pub name: String,
}

/// Horizontal and vertical pixel shift applied per already-running sibling,
/// so concurrently launched windows cascade instead of stacking exactly.
pub const CASCADE_STEP_PX: i32 = 32;

/// How long a launch that terminated its siblings waits before proceeding,
/// giving the operating system time to reclaim their resources (such as an
/// exclusive lock on the geometry file).
pub const SIBLING_GRACE_MS: u64 = 200;

/// The exit code of a launch that defers to an already-running copy: a clean,
/// intentional deferral, not an error.
pub const DEFER_EXIT_CODE: i32 = 0;

/// The case-folded form of a character sequence, as `str::to_lowercase`
/// computes it; it depends on the characters alone.
pub uninterp spec fn lower_of(s: Seq<char>) -> Seq<char>;

/// Relies on `str::to_lowercase`: returns the input with every character
/// lowercased, a function of the input characters alone.
#[verifier::external_body]
fn lowercase(s: &str) -> (r: String)
    ensures
        r@ == lower_of(s@),
{
    s.to_lowercase()
}

/// Whether snapshot entry `p` is a sibling instance: another process (not
/// `our_pid`) whose executable file name equals `our_exe` up to case.
pub open spec fn is_sibling(p: ProcessRecord, our_pid: u32, our_exe: Seq<char>) -> bool {
    p.pid != our_pid && lower_of(p.name@) == lower_of(our_exe)
}

/// The identifiers of the sibling instances in `s`, in snapshot order: one
/// entry per snapshot record whose executable name matches `our_exe` up to
/// case, the caller's own process excluded.
pub open spec fn sibling_pids(s: Seq<ProcessRecord>, our_pid: u32, our_exe: Seq<char>) -> Seq<u32>
    decreases s.len(),
{
    if s.len() == 0 {
        Seq::empty()
    } else {
        let rest = sibling_pids(s.drop_last(), our_pid, our_exe);
        if is_sibling(s.last(), our_pid, our_exe) {
            rest.push(s.last().pid)
        } else {
            rest
        }
    }
}

/// A sibling list never contains the caller's own process identifier, so no
/// decision built from it can target the caller.
pub proof fn lemma_sibling_pids_exclude_self(s: Seq<ProcessRecord>, our_pid: u32, our_exe: Seq<char>)
    ensures
        forall|i: int|
            0 <= i < sibling_pids(s, our_pid, our_exe).len()
                ==> #[trigger] sibling_pids(s, our_pid, our_exe)[i] != our_pid,
    decreases s.len(),
{
    if s.len() > 0 {
        lemma_sibling_pids_exclude_self(s.drop_last(), our_pid, our_exe);
        let rest = sibling_pids(s.drop_last(), our_pid, our_exe);
        let whole = sibling_pids(s, our_pid, our_exe);
        if is_sibling(s.last(), our_pid, our_exe) {
            assert(whole == rest.push(s.last().pid));
            assert forall|i: int| 0 <= i < whole.len() implies whole[i] != our_pid by {
                if i < rest.len() {
                    assert(whole[i] == rest[i]);
                } else {
                    assert(whole[i] == s.last().pid);
                }
            }
        } else {
            assert(whole == rest);
        }
    }
}

/// Collect the identifiers of the sibling instances in `snapshot`: the
/// processes other than `our_pid` whose executable file name equals
/// `our_exe` up to case, in snapshot order.
pub fn list_sibling_pids(snapshot: &Vec<ProcessRecord>, our_pid: u32, our_exe: &str) -> (r: Vec<
    u32,
>)
    ensures
        r@ == sibling_pids(snapshot@, our_pid, our_exe@),
{
    let our_lower: String = lowercase(our_exe);
    let mut out: Vec<u32> = Vec::new();
    let n: usize = snapshot.len();
    for i in 0..n
        invariant
            n == snapshot@.len(),
            our_lower@ == lower_of(our_exe@),
            out@ == sibling_pids(snapshot@.subrange(0, i as int), our_pid, our_exe@),
    {
        let p: &ProcessRecord = &snapshot[i];
        let name_lower: String = lowercase(p.name.as_str());
        if p.pid != our_pid && name_lower == our_lower {
            out.push(p.pid);
        }
        proof {
            let prev = snapshot@.subrange(0, i as int);
            let t = snapshot@.subrange(0, i as int + 1);
            assert(t.drop_last() =~= prev);
            assert(t.last() == snapshot@[i as int]);
            assert(sibling_pids(t, our_pid, our_exe@) == if is_sibling(
                snapshot@[i as int],
                our_pid,
                our_exe@,
            ) {
                sibling_pids(prev, our_pid, our_exe@).push(snapshot@[i as int].pid)
            } else {
                sibling_pids(prev, our_pid, our_exe@)
            });
        }
    }
    proof {
        assert(snapshot@.subrange(0, n as int) =~= snapshot@);
    }
    out
}

/// How many sibling instances `snapshot` shows: other processes sharing the
/// caller's executable name, the caller itself excluded.
pub fn count_sibling_instances(snapshot: &Vec<ProcessRecord>, our_pid: u32, our_exe: &str) -> (n:
    usize)
    ensures
        n == sibling_pids(snapshot@, our_pid, our_exe@).len(),
{
    list_sibling_pids(snapshot, our_pid, our_exe).len()
}

/// What a fresh launch must do about its siblings, decided once, before any
/// window exists.
#[derive(Clone, Debug, PartialEq, Eq)]
pub enum InstanceDecision {
    /// Create the window as usual, shifting its restored position by
    /// `cascade_offset` pixels on both axes.
    Proceed { cascade_offset: i32 },
    /// Bring a window of one of `pids` to the foreground, then exit with
    /// `exit_code` without creating a window.
    ActivateThenExit { pids: Vec<u32>, exit_code: i32 },
    /// Request termination of every process in `pids` (best effort, one
    /// attempt each), wait `grace_ms` milliseconds, then proceed with no
    /// cascade offset.
    TerminateThenWait { pids: Vec<u32>, grace_ms: u64 },
}

/// Decide what this launch must do, given the configured policy and the
/// sibling instances observed in the process snapshot (as
/// [`list_sibling_pids`] collects them).
///
/// Unlimited copies: always proceed, cascading by [`CASCADE_STEP_PX`] pixels
/// per sibling. First wins: defer to a non-empty sibling set by activating
/// one of its windows and exiting cleanly. Last wins: terminate every
/// sibling, wait [`SIBLING_GRACE_MS`] milliseconds, then proceed. Under
/// `First` and `Last`, or with no siblings at all, the cascade offset is 0.
pub fn enforce_single_instance(policy: InstancePolicy, siblings: Vec<u32>) -> (r:
    InstanceDecision)
    requires
        (policy == InstancePolicy::Unlimited ==> CASCADE_STEP_PX * siblings@.len()
            <= i32::MAX),
    ensures
        (policy == InstancePolicy::Unlimited ==> (r matches InstanceDecision::Proceed {
            cascade_offset,
        } && cascade_offset == CASCADE_STEP_PX * siblings@.len())),
        (policy != InstancePolicy::Unlimited && siblings@.len() == 0 ==> r
            == (InstanceDecision::Proceed { cascade_offset: 0 })),
        (policy == InstancePolicy::First && siblings@.len() > 0 ==> (r
            matches InstanceDecision::ActivateThenExit { pids, exit_code } && pids == siblings
            && exit_code == DEFER_EXIT_CODE)),
        (policy == InstancePolicy::Last && siblings@.len() > 0 ==> (r
            matches InstanceDecision::TerminateThenWait { pids, grace_ms } && pids == siblings
            && grace_ms == SIBLING_GRACE_MS)),
{
    match policy {
        InstancePolicy::Unlimited => {
            let n: usize = siblings.len();
            InstanceDecision::Proceed { cascade_offset: (n as i32) * CASCADE_STEP_PX }
        },
        InstancePolicy::First => {
            if siblings.len() == 0 {
                InstanceDecision::Proceed { cascade_offset: 0 }
            } else {
                InstanceDecision::ActivateThenExit {
                    pids: siblings,
                    exit_code: DEFER_EXIT_CODE,
                }
            }
        },
        InstancePolicy::Last => {
            if siblings.len() == 0 {
                InstanceDecision::Proceed { cascade_offset: 0 }
            } else {
                InstanceDecision::TerminateThenWait {
                    pids: siblings,
                    grace_ms: SIBLING_GRACE_MS,
                }
            }
        },
    }
}

} // verus!
