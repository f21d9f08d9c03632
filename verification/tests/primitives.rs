use os_sync::condvar::Condvar;
use os_sync::mutex::MutexBlocking;
use os_sync::semaphore::Semaphore;

#[test]
fn mutex_lock_takes_free_mutex_and_queues_others() {
    let mut m = MutexBlocking::new();
    m.set_tid(0);
    m.set_tid(1);
    assert_eq!(m.lock(0), false);
    assert!(m.inner.locked);
    assert_eq!(m.lock(1), true);
    assert_eq!(m.inner.wait_queue.len(), 1);
    assert_eq!(m.unlock(), Some(1));
    assert!(m.inner.locked);
    assert_eq!(m.unlock(), None);
    assert!(!m.inner.locked);
}

#[test]
fn mutex_lock_tid_keeps_counts() {
    let mut m = MutexBlocking::new();
    m.set_tid(0);
    m.set_tid(1);
    assert_eq!(m.inner.allocation, vec![0, 0]);
    assert_eq!(m.lock_tid(0), false);
    assert_eq!(m.inner.avail, 0);
    assert_eq!(m.inner.allocation, vec![1, 0]);
    assert_eq!(m.lock_tid(1), true);
    assert_eq!(m.inner.need, vec![0, 1]);
    // The waiter inherits the mutex; only its need drops.
    assert_eq!(m.unlock_tid(0), Some(1));
    assert_eq!(m.inner.need, vec![0, 0]);
    assert_eq!(m.inner.allocation, vec![1, 0]);
    assert_eq!(m.inner.avail, 0);
    assert!(m.inner.locked);
    assert_eq!(m.unlock_tid(1), None);
    assert_eq!(m.inner.avail, 1);
    assert_eq!(m.inner.allocation, vec![1, -1]);
    assert!(!m.inner.locked);
}

#[test]
fn mutex_lock_then_unlock_restores_state() {
    let mut m = MutexBlocking::new();
    m.set_tid(2);
    assert_eq!(m.lock_tid(2), false);
    assert_eq!(m.unlock_tid(2), None);
    assert_eq!(m.inner.avail, 1);
    assert_eq!(m.inner.allocation, vec![0, 0, 0]);
    assert_eq!(m.inner.need, vec![0, 0, 0]);
    assert!(!m.inner.locked);
    assert!(m.inner.wait_queue.is_empty());
}

#[test]
fn set_tid_grows_and_clears_slots() {
    let mut m = MutexBlocking::new();
    m.set_tid(3);
    assert_eq!(m.inner.allocation, vec![0, 0, 0, 0]);
    m.lock_tid(1);
    assert_eq!(m.inner.allocation, vec![0, 1, 0, 0]);
    m.set_tid(1);
    assert_eq!(m.inner.allocation, vec![0, 0, 0, 0]);
    m.set_tid(5);
    assert_eq!(m.inner.need.len(), 6);
}

#[test]
fn semaphore_down_blocks_when_no_unit_left() {
    let mut s = Semaphore::new(1);
    s.set_tid(0);
    s.set_tid(1);
    assert_eq!(s.down(0), false);
    assert_eq!(s.inner.count, 0);
    assert_eq!(s.inner.avail, 0);
    assert_eq!(s.inner.allocation, vec![1, 0]);
    assert_eq!(s.down(1), true);
    assert_eq!(s.inner.count, -1);
    assert_eq!(s.inner.need, vec![0, 1]);
    assert_eq!(s.up(0), Some(1));
    assert_eq!(s.inner.count, 0);
    assert_eq!(s.inner.need, vec![0, 0]);
    assert_eq!(s.inner.avail, 0);
    assert_eq!(s.up(1), None);
    assert_eq!(s.inner.count, 1);
    assert_eq!(s.inner.avail, 1);
    assert_eq!(s.inner.allocation, vec![1, -1]);
}

#[test]
fn semaphore_down_then_up_restores_state() {
    let mut s = Semaphore::new(3);
    s.set_tid(0);
    assert_eq!(s.down(0), false);
    assert_eq!(s.up(0), None);
    assert_eq!(s.inner.count, 3);
    assert_eq!(s.inner.avail, 3);
    assert_eq!(s.inner.allocation, vec![0]);
}

#[test]
fn semaphore_with_no_unit_blocks_at_once() {
    let mut s = Semaphore::new(0);
    s.set_tid(0);
    assert_eq!(s.down(0), true);
    assert_eq!(s.inner.wait_queue.len(), 1);
    assert_eq!(s.up(0), Some(0));
    assert_eq!(s.inner.count, 0);
    assert!(s.inner.wait_queue.is_empty());
}

#[test]
fn condvar_wait_releases_mutex_and_signal_wakes_in_order() {
    let mut m = MutexBlocking::new();
    m.set_tid(0);
    m.set_tid(1);
    m.set_tid(2);
    let mut c = Condvar::new();
    assert_eq!(m.lock(0), false);
    assert_eq!(m.lock(1), true);
    assert_eq!(c.wait(&mut m, 0), Some(1));
    assert!(m.inner.locked);
    assert_eq!(c.wait(&mut m, 1), None);
    assert!(!m.inner.locked);
    assert_eq!(c.signal(), Some(0));
    assert_eq!(c.signal(), Some(1));
    assert_eq!(c.signal(), None);
}

fn sum(v: &Vec<isize>) -> isize {
    v.iter().sum()
}

#[test]
fn fresh_mutex_can_be_locked_without_slots() {
    let mut m = MutexBlocking::new();
    assert_eq!(m.lock(7), false);
    assert!(m.inner.locked);
    assert_eq!(m.unlock(), None);
}

#[test]
fn mutex_books_stay_balanced() {
    let mut m = MutexBlocking::new();
    for t in 0..3 {
        m.set_tid(t);
    }
    let steps: Vec<(bool, usize)> = vec![(true, 0), (true, 1), (true, 2), (false, 0), (false, 1), (false, 2)];
    for (lock, t) in steps {
        if lock {
            m.lock_tid(t);
        } else {
            m.unlock_tid(t);
        }
        assert_eq!(m.inner.avail + sum(&m.inner.allocation), 1);
        assert_eq!(sum(&m.inner.need), m.inner.wait_queue.len() as isize);
        assert_eq!(m.inner.avail, if m.inner.locked { 0 } else { 1 });
    }
    assert!(!m.inner.locked);
}

#[test]
fn semaphore_books_stay_balanced() {
    let mut s = Semaphore::new(2);
    for t in 0..3 {
        s.set_tid(t);
    }
    let steps: Vec<(bool, usize)> = vec![(true, 0), (true, 1), (true, 2), (true, 0), (false, 1), (false, 2), (false, 0), (false, 0)];
    for (down, t) in steps {
        if down {
            s.down(t);
        } else {
            s.up(t);
        }
        assert_eq!(s.inner.avail + sum(&s.inner.allocation), 2);
        assert_eq!(sum(&s.inner.need), s.inner.wait_queue.len() as isize);
        assert_eq!(s.inner.count, s.inner.avail - s.inner.wait_queue.len() as isize);
    }
    assert_eq!(s.inner.count, 2);
}
