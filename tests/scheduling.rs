use hako_tasks::executor::{join_keys, Admission, TaskExecutor};
use hako_tasks::lock::LockManager;
use hako_tasks::manager::TaskManager;
use hako_tasks::task::{TaskError, TaskPolicy, TaskState};

fn exclusive(tag: &str) -> TaskPolicy {
    let mut p = TaskPolicy::new(tag.to_string());
    p.requires_global_lock = true;
    p
}

fn locking(tag: &str, key: &str) -> TaskPolicy {
    let mut p = TaskPolicy::new(tag.to_string());
    p.locks = vec![key.to_string()];
    p
}

fn conflict_message(r: Result<Admission, TaskError>) -> String {
    match r {
        Err(TaskError::LockConflict(m)) => m,
        other => panic!("expected a lock conflict, got {:?}", other),
    }
}

#[test]
fn lock_batch_is_all_or_nothing() {
    let mut locks = LockManager::new();
    let a = vec!["a".to_string(), "b".to_string()];
    assert!(locks.try_acquire(&a).is_ok());
    let b = vec!["c".to_string(), "b".to_string()];
    let err = locks.try_acquire(&b).unwrap_err();
    assert_eq!(err, vec!["b".to_string()]);
    assert!(!locks.is_held(&"c".to_string()));
    locks.release(&a);
    assert!(!locks.is_held(&"a".to_string()));
    assert!(locks.try_acquire(&b).is_ok());
    assert!(locks.is_held(&"c".to_string()));
}

#[test]
fn release_of_unheld_key_is_noop() {
    let mut locks = LockManager::new();
    locks.release(&vec!["x".to_string()]);
    assert!(locks.try_acquire(&vec!["x".to_string()]).is_ok());
    locks.release(&vec!["x".to_string(), "y".to_string()]);
    assert!(!locks.is_held(&"x".to_string()));
}

#[test]
fn join_keys_separates_with_comma() {
    assert_eq!(join_keys(&vec![]), "");
    assert_eq!(join_keys(&vec!["a".to_string()]), "a");
    assert_eq!(join_keys(&vec!["a".to_string(), "b".to_string()]), "a, b");
}

#[test]
fn non_queueable_exclusive_conflict_is_refused() {
    let mut e = TaskExecutor::new(None);
    assert_eq!(e.submit(1, exclusive("download")).unwrap(), Admission::Admitted);
    let mut p = exclusive("download");
    p.queueable = false;
    let msg = conflict_message(e.submit(2, p));
    assert_eq!(msg, "download already running");
    assert!(!e.is_known(2));
}

#[test]
fn queued_exclusive_task_runs_after_holder_completes() {
    let mut e = TaskExecutor::new(None);
    assert_eq!(e.submit(1, exclusive("download")).unwrap(), Admission::Admitted);
    assert_eq!(e.try_start(1).unwrap(), true);
    assert_eq!(e.submit(2, exclusive("download")).unwrap(), Admission::Queued);
    assert!(e.try_start(2).is_err());
    let c = e.complete(1, true).unwrap();
    assert_eq!(c.state, TaskState::Completed);
    match c.woken {
        Some((id, Ok(()))) => assert_eq!(id, 2),
        _ => panic!("the queued task was not admitted"),
    }
    assert!(!e.is_known(1));
    assert!(e.is_slot_taken(&"download".to_string()));
    assert_eq!(e.try_start(2).unwrap(), true);
    let c = e.complete(2, true).unwrap();
    assert_eq!(c.state, TaskState::Completed);
    assert!(c.woken.is_none());
    assert!(!e.is_slot_taken(&"download".to_string()));
}

#[test]
fn most_recent_waiter_is_woken_first() {
    let mut e = TaskExecutor::new(None);
    e.submit(1, exclusive("download")).unwrap();
    e.try_start(1).unwrap();
    assert_eq!(e.submit(2, exclusive("download")).unwrap(), Admission::Queued);
    assert_eq!(e.submit(3, exclusive("download")).unwrap(), Admission::Queued);
    let c = e.complete(1, false).unwrap();
    assert_eq!(c.state, TaskState::Failed);
    assert_eq!(c.woken.unwrap().0, 3);
    assert!(e.is_known(2));
}

#[test]
fn resource_lock_conflict_until_release() {
    let mut e = TaskExecutor::new(None);
    assert_eq!(e.submit(1, locking("install", "/cluster/foo")).unwrap(), Admission::Admitted);
    assert_eq!(e.try_start(1).unwrap(), true);
    let msg = conflict_message(e.submit(2, locking("install", "/cluster/foo")));
    assert_eq!(msg, "/cluster/foo");
    assert!(!e.is_known(2));
    e.complete(1, true).unwrap();
    assert_eq!(e.submit(2, locking("install", "/cluster/foo")).unwrap(), Admission::Admitted);
}

#[test]
fn type_ceiling_of_one_serialises_runs() {
    let mut e = TaskExecutor::new(None);
    let mut p = TaskPolicy::new("extract".to_string());
    p.max_concurrent = Some(1);
    let q = p.clone();
    assert_eq!(e.submit(1, p).unwrap(), Admission::Admitted);
    assert_eq!(e.submit(2, q).unwrap(), Admission::Admitted);
    assert_eq!(e.try_start(2).unwrap(), true);
    assert_eq!(e.try_start(1).unwrap(), false);
    e.complete(2, true).unwrap();
    assert_eq!(e.try_start(1).unwrap(), true);
}

#[test]
fn global_ceiling_bounds_running_tasks() {
    let mut e = TaskExecutor::new(Some(1));
    e.submit(1, TaskPolicy::new("a".to_string())).unwrap();
    e.submit(2, TaskPolicy::new("b".to_string())).unwrap();
    assert_eq!(e.try_start(1).unwrap(), true);
    assert_eq!(e.try_start(2).unwrap(), false);
    assert!(matches!(e.complete(2, true), Err(TaskError::InvalidState)));
    e.complete(1, true).unwrap();
    assert_eq!(e.try_start(2).unwrap(), true);
}

#[test]
fn reused_identity_is_refused() {
    let mut e = TaskExecutor::new(None);
    e.submit(7, TaskPolicy::new("a".to_string())).unwrap();
    assert!(matches!(e.submit(7, TaskPolicy::new("b".to_string())), Err(TaskError::InvalidState)));
}

#[test]
fn cancel_unknown_identity_fails() {
    let mut m = TaskManager::new();
    assert!(matches!(m.cancel(42), Err(TaskError::InvalidState)));
}

#[test]
fn cancel_sets_the_trigger() {
    let mut m = TaskManager::new();
    assert_eq!(m.submit(1, TaskPolicy::new("download".to_string())).unwrap(), Admission::Admitted);
    assert!(m.try_start(1).unwrap());
    assert!(!m.is_cancelled(1));
    assert!(m.cancel(1).is_ok());
    assert!(m.is_cancelled(1));
    assert!(m.cancel(1).is_ok());
    assert!(m.is_cancelled(1));
}

#[test]
fn finished_task_leaves_the_registry() {
    let mut m = TaskManager::new();
    m.submit(1, exclusive("install")).unwrap();
    m.try_start(1).unwrap();
    assert_eq!(m.submit(2, exclusive("install")).unwrap(), Admission::Queued);
    assert!(!m.is_registered(2));
    assert!(m.is_registered(1));
    let c = m.complete(1, true).unwrap();
    assert!(c.woken.is_some());
    assert!(!m.is_registered(1));
    assert!(m.is_registered(2));
    assert!(matches!(m.cancel(1), Err(TaskError::InvalidState)));
    m.try_start(2).unwrap();
    m.complete(2, true).unwrap();
    assert!(!m.is_registered(2));
}

#[test]
fn terminal_states() {
    assert!(TaskState::Completed.is_terminal());
    assert!(TaskState::Failed.is_terminal());
    assert!(!TaskState::Pending.is_terminal());
    assert!(!TaskState::Running.is_terminal());
}

#[test]
fn first_declared_type_ceiling_is_kept() {
    let mut e = TaskExecutor::new(None);
    let mut p = TaskPolicy::new("extract".to_string());
    p.max_concurrent = Some(1);
    let mut q = TaskPolicy::new("extract".to_string());
    q.max_concurrent = Some(5);
    e.submit(1, p).unwrap();
    e.submit(2, q).unwrap();
    assert_eq!(e.try_start(1).unwrap(), true);
    assert_eq!(e.try_start(2).unwrap(), false);
}

#[test]
fn manager_runs_at_most_five_at_once() {
    let mut m = TaskManager::new();
    for id in 1..=6u128 {
        assert_eq!(m.submit(id, TaskPolicy::new(format!("t{}", id))).unwrap(), Admission::Admitted);
    }
    for id in 1..=5u128 {
        assert!(m.try_start(id).unwrap());
    }
    assert!(!m.try_start(6).unwrap());
    m.complete(3, false).unwrap();
    assert!(m.try_start(6).unwrap());
}
