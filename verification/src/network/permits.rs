//! Counted permission: the semaphore of the `tokio` crate, used by one owner.
//!
//! [`permits_free`] names how many permits a semaphore has left and
//! [`permits_closed`] whether it was closed; each function here makes one call and
//! says what it does to them.

use tokio::sync::Semaphore;
use vstd::prelude::*;

verus! {

/// `tokio::sync::Semaphore`, a counter of permits.
#[verifier::external_type_specification]
#[verifier::external_body]
pub struct ExSemaphore(Semaphore);

/// The number of permits that are left.
pub uninterp spec fn permits_free(s: Semaphore) -> nat;

/// Whether the semaphore was closed.
pub uninterp spec fn permits_closed(s: Semaphore) -> bool;

/// The most permits that a semaphore can have.
pub open spec fn most_permits() -> int {
    usize::MAX as int / 8
}

/// Calls `Semaphore::new`: all the permits are left and it is not closed. More
/// permits than a semaphore can have make it panic, so they are left out.
#[verifier::external_body]
pub(crate) fn permits_new(count: usize) -> (s: Semaphore)
    requires
        count <= most_permits(),
    ensures
        permits_free(s) == count,
        !permits_closed(s),
{
    Semaphore::new(count)
}

/// Calls `Semaphore::try_acquire` and keeps the permit for good: one permit less is
/// left, unless there was none or the semaphore was closed.
#[verifier::external_body]
pub(crate) fn permits_take(s: &mut Semaphore) -> (taken: bool)
    ensures
        taken == (permits_free(*old(s)) > 0 && !permits_closed(*old(s))),
        permits_free(*final(s)) == permits_free(*old(s)) - if taken { 1int } else { 0 },
        permits_closed(*final(s)) == permits_closed(*old(s)),
{
    match s.try_acquire() {
        Ok(permit) => {
            permit.forget();
            true
        },
        Err(_) => false,
    }
}

/// Calls `Semaphore::add_permits`: that many more permits are left. More permits
/// than a semaphore can have make it panic, so they are left out.
#[verifier::external_body]
pub(crate) fn permits_give(s: &mut Semaphore, count: usize)
    requires
        permits_free(*old(s)) + count <= most_permits(),
    ensures
        permits_free(*final(s)) == permits_free(*old(s)) + count,
        permits_closed(*final(s)) == permits_closed(*old(s)),
{
    s.add_permits(count)
}

/// Calls `Semaphore::available_permits`, the number of permits that are left.
#[verifier::external_body]
pub(crate) fn permits_left(s: &Semaphore) -> (n: usize)
    ensures
        n == permits_free(*s),
{
    s.available_permits()
}

} // verus!
