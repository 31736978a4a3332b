//! What the library takes from std's reader-writer lock.
//!
//! The contracts say which lock a guard holds, which store it gives access to, and
//! that a write guard starts out with the store as it was found, poisoned or not.
//! What the store behind a lock holds at a given moment is up to the threads that
//! share it, and no contract speaks of it.
use std::sync::{PoisonError, RwLock, RwLockReadGuard, RwLockWriteGuard};

use vstd::prelude::*;

use crate::db::DbStore;

verus! {

/// std's `RwLock`.
#[verifier::external_type_specification]
#[verifier::external_body]
#[verifier::reject_recursive_types(T)]
pub struct ExRwLock<T: ?Sized>(RwLock<T>);

/// std's `RwLockReadGuard`.
#[verifier::external_type_specification]
#[verifier::external_body]
#[verifier::reject_recursive_types(T)]
pub struct ExRwLockReadGuard<'a, T: ?Sized>(RwLockReadGuard<'a, T>);

/// std's `RwLockWriteGuard`.
#[verifier::external_type_specification]
#[verifier::external_body]
#[verifier::reject_recursive_types(T)]
pub struct ExRwLockWriteGuard<'a, T: ?Sized + 'a>(RwLockWriteGuard<'a, T>);

/// std's `PoisonError`.
#[verifier::external_type_specification]
#[verifier::external_body]
#[verifier::reject_recursive_types(T)]
pub struct ExPoisonError<T>(PoisonError<T>);

/// The store that a lock was made with.
pub uninterp spec fn initial_store(lock: RwLock<DbStore>) -> DbStore;

/// The lock that a read guard holds.
pub uninterp spec fn read_guard_lock(guard: RwLockReadGuard<'_, DbStore>) -> RwLock<DbStore>;

/// The store that a read guard gives access to.
pub uninterp spec fn read_guard_store(guard: RwLockReadGuard<'_, DbStore>) -> DbStore;

/// The lock that a write guard holds.
pub uninterp spec fn write_guard_lock(guard: RwLockWriteGuard<'_, DbStore>) -> RwLock<DbStore>;

/// The store that a write guard gives access to.
pub uninterp spec fn write_guard_store(guard: RwLockWriteGuard<'_, DbStore>) -> DbStore;

/// The store that a write guard found behind its lock when the lock was taken.
pub uninterp spec fn write_guard_found(guard: RwLockWriteGuard<'_, DbStore>) -> DbStore;

/// The read guard that a poison error carries.
pub uninterp spec fn poisoned_read_guard(
    error: PoisonError<RwLockReadGuard<'_, DbStore>>,
) -> RwLockReadGuard<'_, DbStore>;

/// The write guard that a poison error carries.
pub uninterp spec fn poisoned_write_guard(
    error: PoisonError<RwLockWriteGuard<'_, DbStore>>,
) -> RwLockWriteGuard<'_, DbStore>;

/// std's `RwLock::new`: the lock starts out with `store` behind it.
#[verifier::external_body]
pub(crate) fn new_lock(store: DbStore) -> (lock: RwLock<DbStore>)
    ensures
        initial_store(lock) == store,
{
    RwLock::new(store)
}

/// std's `RwLock::read`: a read guard of `lock`, or, where the lock is poisoned, an
/// error that carries one.
///
/// std leaves open whether the call panics or never returns where the calling
/// thread already holds the lock; that is not stated here.
#[verifier::external_body]
pub(crate) fn lock_for_read(lock: &RwLock<DbStore>) -> (outcome: Result<
    RwLockReadGuard<'_, DbStore>,
    PoisonError<RwLockReadGuard<'_, DbStore>>,
>)
    ensures
        match outcome {
            Ok(guard) => read_guard_lock(guard) == *lock,
            Err(error) => read_guard_lock(poisoned_read_guard(error)) == *lock,
        },
{
    lock.read()
}

/// std's `RwLock::write`: a write guard of `lock`, or, where the lock is poisoned,
/// an error that carries one. Either way the guard gives access to the store as it
/// was found: taking the lock changes nothing behind it.
///
/// std leaves open whether the call panics or never returns where the calling
/// thread already holds the lock; that is not stated here.
#[verifier::external_body]
pub(crate) fn lock_for_write(lock: &RwLock<DbStore>) -> (outcome: Result<
    RwLockWriteGuard<'_, DbStore>,
    PoisonError<RwLockWriteGuard<'_, DbStore>>,
>)
    ensures
        match outcome {
            Ok(guard) => write_guard_lock(guard) == *lock && write_guard_store(guard)
                == write_guard_found(guard),
            Err(error) => {
                let guard = poisoned_write_guard(error);
                write_guard_lock(guard) == *lock && write_guard_store(guard) == write_guard_found(
                    guard,
                )
            },
        },
{
    lock.write()
}

/// std's `PoisonError::into_inner` on a read guard: the guard that the error
/// carries.
#[verifier::external_body]
pub(crate) fn read_guard_within<'a>(error: PoisonError<RwLockReadGuard<'a, DbStore>>) -> (guard:
    RwLockReadGuard<'a, DbStore>)
    ensures
        guard == poisoned_read_guard(error),
{
    error.into_inner()
}

/// std's `PoisonError::into_inner` on a write guard: the guard that the error
/// carries.
#[verifier::external_body]
pub(crate) fn write_guard_within<'a>(error: PoisonError<RwLockWriteGuard<'a, DbStore>>) -> (guard:
    RwLockWriteGuard<'a, DbStore>)
    ensures
        guard == poisoned_write_guard(error),
{
    error.into_inner()
}

/// std's `Deref::deref` of a read guard: the store that the guard shows. It stays
/// as it is while the guard lives, since nobody can write meanwhile.
#[verifier::external_body]
pub(crate) fn guarded_store<'g>(guard: &'g RwLockReadGuard<'_, DbStore>) -> (store: &'g DbStore)
    ensures
        *store == read_guard_store(*guard),
{
    std::ops::Deref::deref(guard)
}

/// std's `DerefMut::deref_mut` of a write guard: the store that the guard gives
/// access to. What is done to it through the reference, the guard shows
/// afterwards; it still holds the same lock, and what it found there stays what it
/// was.
#[verifier::external_body]
pub(crate) fn guarded_store_mut<'g, 'l>(guard: &'g mut RwLockWriteGuard<'l, DbStore>) -> (store:
    &'g mut DbStore)
    ensures
        *store == write_guard_store(*old(guard)),
        write_guard_store(*final(guard)) == *final(store),
        write_guard_lock(*final(guard)) == write_guard_lock(*old(guard)),
        write_guard_found(*final(guard)) == write_guard_found(*old(guard)),
{
    std::ops::DerefMut::deref_mut(guard)
}

} // verus!
