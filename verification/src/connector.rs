//! The connector's decision: a freshly-connected socket is registered for
//! writable readiness, and the connection counts as established only if
//! that signal arrives within the deadline (`CONNECT_TIMEOUT_MS`).  The
//! wait itself is I/O and lives outside the library; this module decides
//! what its outcome means.

use vstd::prelude::*;

use crate::interest::InterestSet;
use crate::RelayError;

verus! {

/// The interest to register on the socket while waiting for the
/// connection-established (writable) signal.
pub fn connect_phase_interest() -> (r: InterestSet)
    ensures
        !r.readable,
        r.writable,
{
    InterestSet { readable: false, writable: true }
}

/// Judges the bounded wait for the connection-established signal: success
/// exactly if some readiness event arrived before the deadline, and a
/// `ConnectionTimeout` error otherwise.  On success the socket's interest
/// must switch to its steady state, read-only until bytes queue up, which
/// the returned set names.
pub fn connect_outcome(signal_arrived: bool) -> (r: Result<InterestSet, RelayError>)
    ensures
        r is Ok <==> signal_arrived,
        match r {
            Ok(s) => s == (InterestSet { readable: true, writable: false }),
            Err(e) => e == RelayError::ConnectionTimeout,
        },
{
    if signal_arrived {
        Ok(InterestSet { readable: true, writable: false })
    } else {
        Err(RelayError::ConnectionTimeout)
    }
}

} // verus!
