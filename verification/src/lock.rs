//! The lock itself: a flag plus the protected value, and the guard that
//! witnesses exclusive access.
//!
//! The lock lends its value to exactly one guard at a time.  Acquiring moves
//! the value into the guard and sets the flag; releasing consumes the guard,
//! returns the value and clears the flag, so a release happens exactly once
//! per acquire and no access to the value is possible except through a live
//! guard.

use vstd::prelude::*;

verus! {

/// The runtime witness of exclusive access: while a guard is live, the value
/// it wraps can be read and written only through it.
pub struct NunGuard<T> {
    value: T,
}

/// A lock owning a value of type `T`.  The flag is set exactly while a guard
/// is live; the value sits in the lock exactly while no guard is live.
pub struct NunSpinLock<T> {
    locked: bool,
    value: Option<T>,
}

impl<T> View for NunGuard<T> {
    type V = T;

    /// The protected value as the guard currently holds it.
    closed spec fn view(&self) -> T {
        self.value
    }
}

impl<T> NunSpinLock<T> {
    /// The lock's invariant: the flag is set iff the value is out with a guard.
    pub closed spec fn wf(self) -> bool {
        self.locked <==> self.value is None
    }

    /// Whether a guard is currently live for this lock.
    pub closed spec fn spec_is_locked(&self) -> bool {
        self.locked
    }

    /// The protected value, meaningful while no guard is live.
    pub closed spec fn contents(self) -> T
        recommends
            !self.spec_is_locked(),
    {
        self.value->0
    }

    /// Creates a lock that owns `value`, with the flag clear.
    pub fn new(value: T) -> (lock: Self)
        ensures
            lock.wf(),
            !lock.is_locked(),
            lock.contents() == value,
    {
        NunSpinLock { locked: false, value: Some(value) }
    }

    /// Whether a guard is currently live for this lock.
    #[verifier::when_used_as_spec(spec_is_locked)]
    pub fn is_locked(&self) -> (locked: bool)
        ensures
            locked == self.is_locked(),
    {
        self.locked
    }

    /// Acquires the lock: sets the flag and moves the value out into a fresh
    /// guard.  A caller that already holds the lock can never satisfy the
    /// precondition — acquiring a lock one already holds would spin forever,
    /// so that call is excluded rather than allowed to hang.
    pub fn lock(&mut self) -> (guard: NunGuard<T>)
        requires
            old(self).wf(),
            !old(self).is_locked(),
        ensures
            final(self).wf(),
            final(self).is_locked(),
            guard@ == old(self).contents(),
    {
        self.locked = true;
        let value = self.value.take().unwrap();
        NunGuard { value }
    }

    /// Releases the lock: takes the guard back, restores the value it carries
    /// and clears the flag.  Consuming the guard by value means a release
    /// happens exactly once per acquire — a guard cannot release twice, and a
    /// live guard cannot outlast the release.
    pub fn unlock(&mut self, guard: NunGuard<T>)
        requires
            old(self).wf(),
            old(self).is_locked(),
        ensures
            final(self).wf(),
            !final(self).is_locked(),
            final(self).contents() == guard@,
    {
        let NunGuard { value } = guard;
        self.value = Some(value);
        self.locked = false;
    }
}

/// Repeated acquire/increment/release rounds on a lock wrapping a counter:
/// the final counter equals the starting counter plus the number of
/// successful acquisitions, so no update is lost and none is counted twice.
pub fn increment_rounds(counter: &mut NunSpinLock<u64>, rounds: u64)
    requires
        old(counter).wf(),
        !old(counter).is_locked(),
        old(counter).contents() + rounds <= u64::MAX,
    ensures
        final(counter).wf(),
        !final(counter).is_locked(),
        final(counter).contents() == old(counter).contents() + rounds,
{
    let mut i: u64 = 0;
    while i < rounds
        invariant
            counter.wf(),
            !counter.is_locked(),
            i <= rounds,
            counter.contents() == old(counter).contents() + i,
            old(counter).contents() + rounds <= u64::MAX,
        decreases rounds - i,
    {
        let mut guard = counter.lock();
        let value = *guard.get();
        *guard.get_mut() = value + 1;
        counter.unlock(guard);
        i = i + 1;
    }
}

impl<T> NunGuard<T> {
    /// Read access to the protected value, valid while the guard is live.
    pub fn get(&self) -> (value: &T)
        ensures
            *value == self@,
    {
        &self.value
    }

    /// Write access to the protected value, valid while the guard is live.
    pub fn get_mut(&mut self) -> (value: &mut T)
        ensures
            *value == old(self)@,
            final(self)@ == *final(value),
    {
        &mut self.value
    }
}

} // verus!
