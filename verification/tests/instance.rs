use webapp_wrapper::config::InstancePolicy;
use webapp_wrapper::instance::InstanceDecision;
use webapp_wrapper::instance::ProcessRecord;
use webapp_wrapper::instance::count_sibling_instances;
use webapp_wrapper::instance::enforce_single_instance;
use webapp_wrapper::instance::list_sibling_pids;

fn rec(pid: u32, name: &str) -> ProcessRecord {
    ProcessRecord { pid, name: String::from(name) }
}

fn snapshot_with_siblings(count: u32) -> Vec<ProcessRecord> {
    // our process is pid 1, named App.exe; unrelated processes in between
    let mut snap = vec![rec(1, "App.exe"), rec(1000, "explorer.exe")];
    for i in 0..count {
        snap.push(rec(100 + i, "APP.EXE"));
    }
    snap.push(rec(2000, "other.exe"));
    snap
}

#[test]
fn unlimited_policy_cascades_and_touches_nothing() {
    for count in [0u32, 1, 2, 5] {
        let snap = snapshot_with_siblings(count);
        let sibs = list_sibling_pids(&snap, 1, "app.exe");
        assert_eq!(sibs.len() as u32, count);
        let decision = enforce_single_instance(InstancePolicy::Unlimited, sibs);
        match decision {
            InstanceDecision::Proceed { cascade_offset } => {
                assert_eq!(cascade_offset, 32 * count as i32);
            }
            _ => panic!("unlimited policy must never exit or terminate"),
        }
    }
}

#[test]
fn first_policy_with_siblings_activates_and_exits_zero() {
    let snap = snapshot_with_siblings(2);
    let sibs = list_sibling_pids(&snap, 1, "app.exe");
    let decision = enforce_single_instance(InstancePolicy::First, sibs);
    match decision {
        InstanceDecision::ActivateThenExit { pids, exit_code } => {
            assert_eq!(exit_code, 0);
            assert_eq!(pids, vec![100, 101]);
        }
        _ => panic!("first policy with siblings must defer"),
    }
}

#[test]
fn first_policy_without_siblings_proceeds_without_offset() {
    let snap = snapshot_with_siblings(0);
    let sibs = list_sibling_pids(&snap, 1, "app.exe");
    let decision = enforce_single_instance(InstancePolicy::First, sibs);
    assert_eq!(decision, InstanceDecision::Proceed { cascade_offset: 0 });
}

#[test]
fn last_policy_terminates_each_sibling_once_then_waits() {
    let snap = vec![rec(1, "app.exe"), rec(7, "APP.exe"), rec(9, "app.EXE")];
    let sibs = list_sibling_pids(&snap, 1, "app.exe");
    let decision = enforce_single_instance(InstancePolicy::Last, sibs);
    match decision {
        InstanceDecision::TerminateThenWait { pids, grace_ms } => {
            assert_eq!(pids, vec![7, 9]);
            assert!(!pids.contains(&1), "must never target the caller's own pid");
            assert!(grace_ms >= 200);
            assert_eq!(grace_ms, 200);
        }
        _ => panic!("last policy with siblings must terminate them"),
    }
}

#[test]
fn last_policy_without_siblings_proceeds() {
    let snap = vec![rec(1, "app.exe")];
    let sibs = list_sibling_pids(&snap, 1, "app.exe");
    let decision = enforce_single_instance(InstancePolicy::Last, sibs);
    assert_eq!(decision, InstanceDecision::Proceed { cascade_offset: 0 });
}

#[test]
fn sibling_matching_ignores_case() {
    // would fail if the case folding handed its input back unchanged
    let snap = vec![rec(1, "app.exe"), rec(2, "APP.EXE"), rec(3, "App.Exe")];
    assert_eq!(count_sibling_instances(&snap, 1, "app.exe"), 2);
}

#[test]
fn sibling_matching_compares_whole_names() {
    let snap = vec![rec(2, "app.exe.bak"), rec(3, "app"), rec(4, "myapp.exe")];
    assert_eq!(count_sibling_instances(&snap, 1, "app.exe"), 0);
}

#[test]
fn own_pid_is_never_a_sibling() {
    let snap = vec![rec(1, "app.exe"), rec(2, "app.exe")];
    assert_eq!(count_sibling_instances(&snap, 1, "app.exe"), 1);
    assert_eq!(list_sibling_pids(&snap, 1, "app.exe"), vec![2]);
}
