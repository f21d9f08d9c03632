use os_sync::mutex::MutexBlocking;
use os_sync::process::ProcessInner;
use os_sync::syscall::{
    sys_condvar_create, sys_condvar_signal, sys_condvar_wait, sys_enable_deadlock_detect, sys_mutex_create,
    sys_mutex_lock, sys_mutex_unlock, sys_semaphore_create, sys_semaphore_down, sys_semaphore_up, sys_sleep,
    Action, SyscallOutcome,
};

fn process_with_threads(tasks: Vec<bool>) -> ProcessInner {
    ProcessInner {
        mutex_list: Vec::new(),
        semaphore_list: Vec::new(),
        condvar_list: Vec::new(),
        tasks,
        deadlock_detect: false,
    }
}

fn ok(action: Action) -> SyscallOutcome {
    SyscallOutcome { ret: 0, action }
}

fn refused() -> SyscallOutcome {
    SyscallOutcome { ret: -0xDEAD, action: Action::Continue }
}

#[test]
fn mutex_create_uses_first_free_id() {
    let mut p = process_with_threads(vec![true, false, true]);
    p.mutex_list = vec![Some(MutexBlocking::new()), None, Some(MutexBlocking::new())];
    assert_eq!(sys_mutex_create(&mut p, true), 1);
    assert_eq!(sys_mutex_create(&mut p, false), 3);
    assert_eq!(p.mutex_list.len(), 4);
    let m = p.mutex_list[1].as_ref().unwrap();
    // slots up to the largest live tid, all zero
    assert_eq!(m.inner.allocation, vec![0, 0, 0]);
    assert_eq!(m.inner.need, vec![0, 0, 0]);
    assert_eq!(m.inner.avail, 1);
    assert!(!m.inner.locked);
}

#[test]
fn mutex_create_with_no_live_thread_has_empty_tables() {
    let mut p = process_with_threads(vec![false, false]);
    assert_eq!(sys_mutex_create(&mut p, true), 0);
    assert!(p.mutex_list[0].as_ref().unwrap().inner.allocation.is_empty());
}

#[test]
fn relocking_own_mutex_is_refused_under_detection() {
    let mut p = process_with_threads(vec![true]);
    assert_eq!(sys_mutex_create(&mut p, true), 0);
    assert_eq!(sys_enable_deadlock_detect(&mut p, 1), 0);
    assert!(p.deadlock_detect);
    assert_eq!(sys_mutex_lock(&mut p, 0, 0), ok(Action::Continue));
    assert_eq!(sys_mutex_lock(&mut p, 0, 0), refused());
    // the refused request changed nothing
    let m = p.mutex_list[0].as_ref().unwrap();
    assert_eq!(m.inner.need, vec![0]);
    assert!(m.inner.wait_queue.is_empty());
}

#[test]
fn relocking_own_mutex_blocks_without_detection() {
    let mut p = process_with_threads(vec![true]);
    sys_mutex_create(&mut p, true);
    assert_eq!(sys_mutex_lock(&mut p, 0, 0), ok(Action::Continue));
    assert_eq!(sys_mutex_lock(&mut p, 0, 0), ok(Action::Block));
    assert_eq!(p.mutex_list[0].as_ref().unwrap().inner.need, vec![1]);
}

#[test]
fn crossed_mutexes_are_detected() {
    let mut p = process_with_threads(vec![true, true]);
    sys_mutex_create(&mut p, true);
    sys_mutex_create(&mut p, true);
    sys_enable_deadlock_detect(&mut p, 0);
    assert_eq!(sys_mutex_lock(&mut p, 0, 0), ok(Action::Continue));
    assert_eq!(sys_mutex_lock(&mut p, 1, 1), ok(Action::Continue));
    // thread 1 can still finish, so thread 0 may wait for mutex 1
    assert_eq!(sys_mutex_lock(&mut p, 0, 1), ok(Action::Block));
    // now neither could finish
    assert_eq!(sys_mutex_lock(&mut p, 1, 0), refused());
    // thread 1 releases mutex 1: thread 0 inherits it and is woken
    assert_eq!(sys_mutex_unlock(&mut p, 1, 1), ok(Action::Wake(0)));
    let m1 = p.mutex_list[1].as_ref().unwrap();
    assert!(m1.inner.locked);
    assert_eq!(m1.inner.need, vec![0, 0]);
}

#[test]
fn mutex_unlock_without_waiter_frees_it() {
    let mut p = process_with_threads(vec![true]);
    sys_mutex_create(&mut p, true);
    sys_mutex_lock(&mut p, 0, 0);
    assert_eq!(sys_mutex_unlock(&mut p, 0, 0), ok(Action::Continue));
    let m = p.mutex_list[0].as_ref().unwrap();
    assert!(!m.inner.locked);
    assert_eq!(m.inner.avail, 1);
    assert_eq!(m.inner.allocation, vec![0]);
}

#[test]
fn semaphore_create_and_use() {
    let mut p = process_with_threads(vec![true, true]);
    assert_eq!(sys_semaphore_create(&mut p, 2), 0);
    let s = p.semaphore_list[0].as_ref().unwrap();
    assert_eq!(s.inner.count, 2);
    assert_eq!(s.inner.avail, 2);
    assert_eq!(s.inner.allocation, vec![0, 0]);
    assert_eq!(sys_semaphore_down(&mut p, 0, 0), ok(Action::Continue));
    assert_eq!(sys_semaphore_down(&mut p, 1, 0), ok(Action::Continue));
    assert_eq!(sys_semaphore_down(&mut p, 1, 0), ok(Action::Block));
    assert_eq!(sys_semaphore_up(&mut p, 0, 0), ok(Action::Wake(1)));
    assert_eq!(sys_semaphore_up(&mut p, 1, 0), ok(Action::Continue));
    let s = p.semaphore_list[0].as_ref().unwrap();
    assert_eq!(s.inner.count, 1);
    assert_eq!(s.inner.avail, 1);
    assert_eq!(s.inner.allocation, vec![1, 0]);
}

#[test]
fn semaphore_deadlock_is_detected() {
    let mut p = process_with_threads(vec![true, true]);
    sys_semaphore_create(&mut p, 1);
    sys_enable_deadlock_detect(&mut p, 1);
    assert_eq!(sys_semaphore_down(&mut p, 0, 0), ok(Action::Continue));
    // thread 0 can finish and hand its unit back: thread 1 may wait
    assert_eq!(sys_semaphore_down(&mut p, 1, 0), ok(Action::Block));
    // thread 0 asking again: nobody could finish
    assert_eq!(sys_semaphore_down(&mut p, 0, 0), refused());
    assert_eq!(p.semaphore_list[0].as_ref().unwrap().inner.count, -1);
}

#[test]
fn semaphore_ids_are_reused() {
    let mut p = process_with_threads(vec![true]);
    assert_eq!(sys_semaphore_create(&mut p, 1), 0);
    assert_eq!(sys_semaphore_create(&mut p, 1), 1);
    p.semaphore_list[0] = None;
    assert_eq!(sys_semaphore_create(&mut p, 5), 0);
    assert_eq!(p.semaphore_list[0].as_ref().unwrap().inner.count, 5);
}

#[test]
fn condvar_syscalls() {
    let mut p = process_with_threads(vec![true, true]);
    assert_eq!(sys_condvar_create(&mut p), 0);
    assert_eq!(sys_condvar_create(&mut p), 1);
    sys_mutex_create(&mut p, true);
    assert_eq!(sys_condvar_signal(&mut p, 0), ok(Action::Continue));
    sys_mutex_lock(&mut p, 0, 0);
    sys_mutex_lock(&mut p, 1, 0);
    assert_eq!(
        sys_condvar_wait(&mut p, 0, 1, 0),
        ok(Action::WaitCondvar { woken: Some(1), mutex_id: 0 })
    );
    assert_eq!(sys_condvar_signal(&mut p, 1), ok(Action::Wake(0)));
    assert_eq!(sys_condvar_signal(&mut p, 1), ok(Action::Continue));
}

#[test]
fn sleep_sets_the_wakeup_time() {
    assert_eq!(sys_sleep(1000, 250), ok(Action::SleepUntil(1250)));
    assert_eq!(sys_sleep(7, 0), ok(Action::SleepUntil(7)));
}
