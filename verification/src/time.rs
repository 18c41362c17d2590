//! Time operations a host supplies to the platform loop.

use vstd::prelude::*;

verus! {

/// A clock the platform sleeps on between cycles.
pub trait Time {
    /// Sleep for the given number of milliseconds.
    fn sleep(&self, millis: u64);
}

} // verus!
