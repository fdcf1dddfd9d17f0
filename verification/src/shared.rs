//! What the threads of a process share.

use std::sync::{Condvar, Mutex};

use vstd::prelude::*;

use crate::engine::Registry;

verus! {

/// A lock around a value (`std::sync::Mutex`). Carried, never looked into.
#[verifier::external_type_specification]
#[verifier::external_body]
#[verifier::reject_recursive_types(T)]
pub struct ExMutex<T: ?Sized>(Mutex<T>);

/// A condition variable (`std::sync::Condvar`). Carried, never looked into.
#[verifier::external_type_specification]
#[verifier::external_body]
pub struct ExCondvar(Condvar);

/// The registry of a process behind its lock, and the condition variable on which openers wait
/// for a busy directory.
pub struct Shared {
    registry: Mutex<Registry>,
    cv: Condvar,
}

impl Shared {
    /// The lock around the registry.
    pub closed spec fn registry_lock(&self) -> Mutex<Registry> {
        self.registry
    }

    /// The condition variable.
    pub closed spec fn wakeups(&self) -> Condvar {
        self.cv
    }

    /// What a process shares: the lock around its registry, and its condition variable.
    pub fn new(registry: Mutex<Registry>, cv: Condvar) -> (shared: Shared)
        ensures
            shared.registry_lock() == registry,
            shared.wakeups() == cv,
    {
        Shared { registry, cv }
    }
}

/// The registry, behind its lock.
pub fn registry(shared: &Shared) -> (lock: &Mutex<Registry>)
    ensures
        *lock == shared.registry_lock(),
{
    &shared.registry
}

/// The condition variable on which openers wait. It is notified whenever a directory may have
/// stopped being busy.
pub fn cv(shared: &Shared) -> (wakeups: &Condvar)
    ensures
        *wakeups == shared.wakeups(),
{
    &shared.cv
}

} // verus!
