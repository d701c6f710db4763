//! The reader-writer lock of `parking_lot`, as far as the limiter uses it.
//!
//! Nothing in this file is proved. The declarations make the outside types
//! known, and each function makes one call on the lock. What a lock guards
//! may have been changed by any thread that held it, so no function here
//! says anything of the value that it gives access to.
//!
//! `read` and `write` wait for the lock, and a thread that waits for a lock
//! of which it holds a guard itself waits for ever. The limiter asks for a
//! lock only while it holds no guard of that lock, and for the lock of the
//! current slot only after that of the prior slots, never the other way
//! round.
use parking_lot::{RwLock, RwLockReadGuard, RwLockWriteGuard};
use std::ops::{Deref, DerefMut};
use vstd::prelude::*;

verus! {

/// `parking_lot::RawRwLock`, the raw lock inside every `parking_lot::RwLock`.
/// Nothing is said of it; no code here touches one.
#[verifier::external_type_specification]
#[verifier::external_body]
pub struct ExRawRwLock(parking_lot::RawRwLock);

/// `lock_api::RwLock`, of which `parking_lot::RwLock<T>` is the form with a
/// `parking_lot::RawRwLock` inside. The value it guards is not visible in
/// contracts.
#[verifier::external_type_specification]
#[verifier::external_body]
#[verifier::reject_recursive_types(R)]
#[verifier::reject_recursive_types(T)]
pub struct ExRwLock<R, T: ?Sized>(parking_lot::lock_api::RwLock<R, T>);

/// Shared access to the value behind a lock. It holds a
/// `parking_lot::RwLockReadGuard`, which gives the access back when it is
/// dropped; the guard's own type is bound by a trait of `lock_api` and
/// cannot be declared as it stands.
#[verifier::external_body]
#[verifier::reject_recursive_types(T)]
pub(crate) struct ReadGuard<'a, T> {
    guard: RwLockReadGuard<'a, T>,
}

/// Exclusive access to the value behind a lock. It holds a
/// `parking_lot::RwLockWriteGuard`, which gives the access back when it is
/// dropped; the guard's own type is bound by a trait of `lock_api` and
/// cannot be declared as it stands.
#[verifier::external_body]
#[verifier::reject_recursive_types(T)]
pub(crate) struct WriteGuard<'a, T> {
    guard: RwLockWriteGuard<'a, T>,
}

/// Calls `RwLock::new`, which makes an unlocked lock around `value`. The
/// contract claims nothing of the lock.
#[verifier::external_body]
pub(crate) fn guarded<T>(value: T) -> (lock: RwLock<T>) {
    RwLock::new(value)
}

/// Calls `RwLock::read`, which waits until no writer holds the lock and
/// then grants shared access. The contract claims nothing of the guard.
#[verifier::external_body]
pub(crate) fn read_lock<'a, T>(lock: &'a RwLock<T>) -> (guard: ReadGuard<'a, T>) {
    ReadGuard { guard: lock.read() }
}

/// Calls `RwLock::try_read`, which grants shared access if that can be done
/// at once and gives `None` if not; it never waits. The contract does not
/// say which of the two comes back.
#[verifier::external_body]
pub(crate) fn try_read_lock<'a, T>(lock: &'a RwLock<T>) -> (guard: Option<ReadGuard<'a, T>>) {
    match lock.try_read() {
        Some(guard) => Some(ReadGuard { guard }),
        None => None,
    }
}

/// Calls `RwLock::write`, which waits until nobody else holds the lock and
/// then grants exclusive access. The contract claims nothing of the guard.
#[verifier::external_body]
pub(crate) fn write_lock<'a, T>(lock: &'a RwLock<T>) -> (guard: WriteGuard<'a, T>) {
    WriteGuard { guard: lock.write() }
}

/// Calls `Deref::deref` on the read guard, which borrows the value behind
/// the lock for as long as the guard is borrowed. The contract claims
/// nothing of the value.
#[verifier::external_body]
pub(crate) fn shared<'a, 'b, T>(guard: &'b ReadGuard<'a, T>) -> (value: &'b T) {
    guard.guard.deref()
}

/// Calls `DerefMut::deref_mut` on the write guard, which borrows the value
/// behind the lock mutably for as long as the guard is borrowed. The
/// contract claims nothing of the value found there, and what the caller
/// leaves there is what the next holder of the lock finds.
#[verifier::external_body]
pub(crate) fn exclusive<'a, 'b, T>(guard: &'b mut WriteGuard<'a, T>) -> (value: &'b mut T) {
    guard.guard.deref_mut()
}

} // verus!
