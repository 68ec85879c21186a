use vstd::prelude::*;

verus! {

/// A flag that is changed with interrupts held off.
pub struct AtomicBool {
    pub inner: bool,
}

impl AtomicBool {
    /// A flag holding `value`.
    pub fn new(value: bool) -> (r: Self)
        ensures
            r.inner == value,
    {
        AtomicBool { inner: value }
    }

    /// Sets the flag to `value` if it holds the other value; true when it changed.
    pub fn try_change(&mut self, value: bool) -> (r: bool)
        ensures
            r == (old(self).inner != value),
            final(self).inner == value,
    {
        if self.inner == value {
            false
        } else {
            self.inner = value;
            true
        }
    }

    /// Sets the flag to `value`.
    pub fn change(&mut self, value: bool)
        ensures
            final(self).inner == value,
    {
        self.inner = value;
    }
}

/// A value guarded by a lock.
pub struct Spinlock<T> {
    pub locked: AtomicBool,
    pub data: T,
}

/// The holder of a locked spinlock, through which the guarded value is reached; the lock is
/// left as the guard leaves it when the guard is released.
pub struct SpinlockGuard<'a, T> {
    pub lock: &'a mut Spinlock<T>,
}

impl<T> Spinlock<T> {
    /// An unlocked lock guarding `t`.
    pub fn new(t: T) -> (r: Spinlock<T>)
        ensures
            !r.locked.inner,
            r.data == t,
    {
        Spinlock { locked: AtomicBool::new(false), data: t }
    }

    /// Takes the lock, which no other holder has, and hands out its guard.
    pub fn lock(&mut self) -> (r: SpinlockGuard<'_, T>)
        requires
            !old(self).locked.inner,
        ensures
            r.view() == old(self).data,
            r.is_locked(),
            *final(self) == *final(r.lock),
    {
        let changed = self.locked.try_change(true);
        assert(changed);
        SpinlockGuard { lock: self }
    }
}

impl<'a, T> SpinlockGuard<'a, T> {
    /// The guarded value.
    pub closed spec fn view(&self) -> T {
        self.lock.data
    }

    /// The lock is held through this guard.
    pub closed spec fn is_locked(&self) -> bool {
        self.lock.locked.inner
    }

    /// The guarded value.
    pub fn get(&self) -> (r: &T)
        ensures
            *r == self.view(),
    {
        &self.lock.data
    }

    /// Replaces the guarded value.
    pub fn set(&mut self, value: T)
        requires
            old(self).is_locked(),
        ensures
            final(self).view() == value,
            final(self).is_locked(),
            *final(final(self).lock) == *final(old(self).lock),
    {
        self.lock.data = value;
    }

    /// Releases the lock: the lock is left unlocked, guarding the value the guard holds.
    pub fn unlock(self)
        requires
            self.is_locked(),
        ensures
            !final(self.lock).locked.inner,
            final(self.lock).data == self.view(),
    {
        self.lock.locked.change(false);
    }
}

} // verus!
