use exp::hashing::content_hash;
use exp::scheduler::{plan, Scheduler, Step, Summary};
use exp::store::{failed_dir_name, running_dir_name, RunState, StateStore};

fn configs(texts: &[&str]) -> Vec<Vec<u8>> {
    texts.iter().map(|t| t.as_bytes().to_vec()).collect()
}

/// Drives a pass to the end; `outcome` says whether the configuration at a
/// position succeeds. Returns the positions executed, in order.
fn drive(s: &mut Scheduler, outcome: impl Fn(usize) -> bool) -> Vec<usize> {
    let mut executed = Vec::new();
    loop {
        match s.next_step() {
            Step::Done => break,
            Step::ClearFailed { .. } => s.cleared(),
            Step::CreateRunning { .. } => s.created(),
            Step::Execute { index, .. } => {
                executed.push(index);
                s.executed(outcome(index));
            }
            Step::Commit { .. } => s.committed(),
        }
    }
    executed
}

fn sorted(mut v: Vec<String>) -> Vec<String> {
    v.sort();
    v
}

#[test]
fn second_configuration_fails_during_run() {
    let c = configs(&[r#"{"n":1}"#, r#"{"n":2}"#, r#"{"n":3}"#]);
    let h: Vec<String> = c.iter().map(content_hash).collect();
    let mut s = Scheduler::new(&c, StateStore::new(Vec::new()), false);
    let executed = drive(&mut s, |i| i != 1);
    assert_eq!(executed, vec![0, 1, 2]);
    assert_eq!(
        sorted(s.store.entries.clone()),
        sorted(vec![h[0].clone(), failed_dir_name(&h[1]), h[2].clone()])
    );
    assert_eq!(
        s.summary(),
        Summary { executed: 3, failed: 1, skipped: 0, duplicates: 0 }
    );
}

#[test]
fn second_pass_runs_nothing() {
    let c = configs(&["a", "b", "c"]);
    let mut first = Scheduler::new(&c, StateStore::new(Vec::new()), false);
    assert_eq!(drive(&mut first, |_| true), vec![0, 1, 2]);
    let entries = first.store.entries.clone();
    let mut second = Scheduler::new(&c, StateStore::new(entries), false);
    assert_eq!(drive(&mut second, |_| true), Vec::<usize>::new());
    assert_eq!(
        second.summary(),
        Summary { executed: 0, failed: 0, skipped: 3, duplicates: 0 }
    );
}

#[test]
fn identical_content_runs_once() {
    let c = vec![b"same".to_vec(), b"same".to_vec()];
    let mut s = Scheduler::new(&c, StateStore::new(Vec::new()), false);
    assert_eq!(drive(&mut s, |_| true), vec![0]);
    assert_eq!(
        s.summary(),
        Summary { executed: 1, failed: 0, skipped: 0, duplicates: 1 }
    );
}

#[test]
fn interrupted_run_leaves_a_marker_and_is_rescheduled() {
    let c = configs(&["x"]);
    let h = content_hash(&c[0]);
    let mut s = Scheduler::new(&c, StateStore::new(Vec::new()), false);
    match s.next_step() {
        Step::CreateRunning { dir } => assert_eq!(dir, running_dir_name(&h)),
        _ => panic!("expected the running marker first"),
    }
    s.created();
    // the process stops here
    assert_eq!(s.store.state(&h), RunState::Running);
    assert_eq!(s.store.entries, vec![format!("{}.running", h)]);
    let mut again = Scheduler::new(&c, StateStore::new(s.store.entries.clone()), false);
    assert_eq!(drive(&mut again, |_| true), vec![0]);
    assert_eq!(again.store.state(&h), RunState::Completed);
}

#[test]
fn failed_configurations_are_terminal_unless_retried() {
    let c = configs(&["p", "q"]);
    let mut s = Scheduler::new(&c, StateStore::new(Vec::new()), false);
    drive(&mut s, |i| i == 0);
    let entries = s.store.entries.clone();

    let mut kept = Scheduler::new(&c, StateStore::new(entries.clone()), false);
    assert_eq!(drive(&mut kept, |_| true), Vec::<usize>::new());
    assert_eq!(kept.summary().skipped, 2);

    let mut retried = Scheduler::new(&c, StateStore::new(entries), true);
    let h1 = content_hash(&c[1]);
    match retried.next_step() {
        Step::ClearFailed { dir } => assert_eq!(dir, failed_dir_name(&h1)),
        _ => panic!("expected the failed directory to be cleared"),
    }
    assert_eq!(drive(&mut retried, |_| true), vec![1]);
    assert_eq!(retried.store.state(&h1), RunState::Completed);
    assert_eq!(retried.summary().skipped, 1);
}

#[test]
fn commit_renames_the_marker() {
    let c = configs(&["only"]);
    let h = content_hash(&c[0]);
    let mut s = Scheduler::new(&c, StateStore::new(Vec::new()), false);
    s.created();
    match s.next_step() {
        Step::Execute { index, dir } => {
            assert_eq!(index, 0);
            assert_eq!(dir, format!("{}.running", h));
        }
        _ => panic!("expected the run"),
    }
    s.executed(false);
    match s.next_step() {
        Step::Commit { from, to } => {
            assert_eq!(from, format!("{}.running", h));
            assert_eq!(to, format!("{}.failed", h));
        }
        _ => panic!("expected the commit"),
    }
}

#[test]
fn plan_counts_skips_and_duplicates() {
    let hashes = vec![
        "h1".to_string(),
        "h2".to_string(),
        "h1".to_string(),
        "h3".to_string(),
        "h2".to_string(),
    ];
    let store = StateStore::new(vec!["h2".to_string(), "h3.running".to_string()]);
    let p = plan(&hashes, &store, false);
    assert_eq!(p.to_run, vec![0, 3]);
    assert_eq!(p.duplicates, 2);
    assert_eq!(p.skipped, 1);
}

#[test]
fn empty_experiment_has_nothing_to_do() {
    let mut s = Scheduler::new(&Vec::new(), StateStore::new(Vec::new()), false);
    assert!(s.is_done());
    assert_eq!(drive(&mut s, |_| true), Vec::<usize>::new());
    assert_eq!(
        s.summary(),
        Summary { executed: 0, failed: 0, skipped: 0, duplicates: 0 }
    );
}

#[test]
fn state_reads_directory_names() {
    let store = StateStore::new(vec![
        "aa".to_string(),
        "bb.failed".to_string(),
        "cc.running".to_string(),
        "aa.failed".to_string(),
    ]);
    assert_eq!(store.state(&"aa".to_string()), RunState::Completed);
    assert_eq!(store.state(&"bb".to_string()), RunState::Failed);
    assert_eq!(store.state(&"cc".to_string()), RunState::Running);
    assert_eq!(store.state(&"dd".to_string()), RunState::Pending);
}

#[test]
fn store_insert_remove_and_rename() {
    let mut store = StateStore::new(Vec::new());
    store.insert("a.running".to_string());
    store.insert("a.running".to_string());
    assert_eq!(store.entries.len(), 1);
    store.rename(&"a.running".to_string(), "a".to_string());
    assert_eq!(store.entries, vec!["a".to_string()]);
    store.remove(&"a".to_string());
    assert!(store.entries.is_empty());
}
