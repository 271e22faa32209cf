//! The faults that end a run of the executor.

use vstd::prelude::*;

verus! {

/// Why the reactor or the run loop gave up. `E` is the error type of the
/// readiness source.
#[derive(Debug)]
pub enum RuntimeError<E> {
    /// The readiness source failed, or reported a failure of a descriptor.
    Io(E),
    /// The readiness source reported a timeout, which nothing asked for.
    Timeout,
    /// A readiness event arrived for a descriptor and direction for which
    /// no waker is stored.
    NoWaker,
    /// A task was to be polled while its poll guard was held.
    CannotLock,
}

} // verus!
