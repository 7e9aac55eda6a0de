use nun_spinlock::lock::NunSpinLock;

#[test]
fn new_starts_unlocked() {
    let lock = NunSpinLock::new(7u64);
    assert!(!lock.is_locked());
}

#[test]
fn lock_sets_the_flag_while_the_guard_is_live() {
    let mut lock = NunSpinLock::new(7u64);
    let guard = lock.lock();
    // At most one guard is live: while this one is, the flag stays set and a
    // second acquire is excluded.
    assert!(lock.is_locked());
    assert_eq!(*guard.get(), 7);
    lock.unlock(guard);
    assert!(!lock.is_locked());
}

#[test]
fn unlock_leaves_the_lock_acquirable_again() {
    let mut lock = NunSpinLock::new(0u64);
    let guard = lock.lock();
    lock.unlock(guard);
    // No permanent lockup: the next contender gets in.
    let guard = lock.lock();
    assert_eq!(*guard.get(), 0);
    lock.unlock(guard);
    assert!(!lock.is_locked());
}

#[test]
fn writes_are_visible_to_the_next_acquirer() {
    let mut lock = NunSpinLock::new(Vec::<u64>::new());
    let mut guard = lock.lock();
    guard.get_mut().push(10);
    guard.get_mut().push(20);
    lock.unlock(guard);
    let guard = lock.lock();
    assert_eq!(guard.get().as_slice(), &[10, 20]);
    lock.unlock(guard);
}

#[test]
fn two_thread_scenario_first_order() {
    // Thread A appends 1; thread B appends 2 twice in one critical section.
    let mut lock = NunSpinLock::new(Vec::<u64>::new());
    let mut guard = lock.lock();
    guard.get_mut().push(1);
    lock.unlock(guard);
    let mut guard = lock.lock();
    guard.get_mut().push(2);
    guard.get_mut().push(2);
    lock.unlock(guard);
    let guard = lock.lock();
    assert!(guard.get().as_slice() == &[1, 2, 2] || guard.get().as_slice() == &[2, 2, 1]);
    assert_eq!(guard.get().as_slice(), &[1, 2, 2]);
    lock.unlock(guard);
}

#[test]
fn two_thread_scenario_second_order() {
    // The same two critical sections in the other order: B's two appends are
    // still never split by A's.
    let mut lock = NunSpinLock::new(Vec::<u64>::new());
    let mut guard = lock.lock();
    guard.get_mut().push(2);
    guard.get_mut().push(2);
    lock.unlock(guard);
    let mut guard = lock.lock();
    guard.get_mut().push(1);
    lock.unlock(guard);
    let guard = lock.lock();
    assert!(guard.get().as_slice() == &[1, 2, 2] || guard.get().as_slice() == &[2, 2, 1]);
    assert_eq!(guard.get().as_slice(), &[2, 2, 1]);
    lock.unlock(guard);
}

fn bail_early(lock: &mut NunSpinLock<u64>, bail: bool) -> bool {
    let guard = lock.lock();
    if bail {
        lock.unlock(guard);
        return true;
    }
    lock.unlock(guard);
    false
}

#[test]
fn early_exit_leaves_no_permanent_lockup() {
    // The guard goes back on the early-return path as on the normal one, so
    // the lock stays acquirable either way.
    let mut lock = NunSpinLock::new(1u64);
    assert!(bail_early(&mut lock, true));
    assert!(!lock.is_locked());
    assert!(!bail_early(&mut lock, false));
    assert!(!lock.is_locked());
    let guard = lock.lock();
    lock.unlock(guard);
}

#[test]
fn increment_rounds_counts_every_acquisition() {
    let mut counter = NunSpinLock::new(0u64);
    nun_spinlock::lock::increment_rounds(&mut counter, 10);
    let guard = counter.lock();
    assert_eq!(*guard.get(), 10);
    counter.unlock(guard);
}

#[test]
fn increment_rounds_adds_to_a_running_counter() {
    let mut counter = NunSpinLock::new(5u64);
    nun_spinlock::lock::increment_rounds(&mut counter, 3);
    nun_spinlock::lock::increment_rounds(&mut counter, 0);
    let guard = counter.lock();
    assert_eq!(*guard.get(), 8);
    counter.unlock(guard);
}

#[test]
fn guard_mutation_replaces_the_stored_value() {
    let mut lock = NunSpinLock::new(String::from("before"));
    let mut guard = lock.lock();
    *guard.get_mut() = String::from("after");
    lock.unlock(guard);
    let guard = lock.lock();
    assert_eq!(guard.get().as_str(), "after");
    lock.unlock(guard);
}
