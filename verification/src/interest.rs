//! Readiness-interest bookkeeping: the backpressure mechanism.
//!
//! The readiness mechanism is edge-triggered, so writable interest must be
//! re-registered explicitly whenever it changes; a registration that is
//! never re-armed silently stops delivering notifications.  Each endpoint
//! records the interest set it last registered, and recomputes the desired
//! one from its queue's emptiness: a destination wants writability exactly
//! while there are bytes queued for it.

use vstd::prelude::*;

verus! {

/// A readiness subscription: which conditions an endpoint is registered
/// for.  `{ readable: false, writable: false }` is the empty interest.
#[derive(Clone, Copy, Debug, PartialEq, Eq, Structural)]
pub struct InterestSet {
    pub readable: bool,
    pub writable: bool,
}

/// The interest a destination endpoint should hold: its fixed readable
/// interest, plus writable interest exactly while its queue is non-empty.
pub open spec fn desired_interest(fixed_readable: bool, queue_empty: bool) -> InterestSet {
    InterestSet { readable: fixed_readable, writable: !queue_empty }
}

/// Recomputes the interest set for a destination endpoint from its queue's
/// emptiness.
pub fn recompute_interest(fixed_readable: bool, queue_empty: bool) -> (r: InterestSet)
    ensures
        r == desired_interest(fixed_readable, queue_empty),
{
    InterestSet { readable: fixed_readable, writable: !queue_empty }
}

/// The recorded registration state of one destination endpoint.
pub struct EndpointInterest {
    /// Whether this endpoint is permanently subscribed to readability
    /// (the socket is; standard output is not).
    pub fixed_readable: bool,
    /// The writable interest that was last registered.
    pub registered_writable: bool,
}

impl EndpointInterest {
    /// Initial state for an endpoint that is not yet subscribed to
    /// writability.
    pub fn new(fixed_readable: bool) -> (r: EndpointInterest)
        ensures
            r.fixed_readable == fixed_readable,
            !r.registered_writable,
    {
        EndpointInterest { fixed_readable, registered_writable: false }
    }

    /// The interest set this endpoint currently has registered.
    pub open spec fn registered(&self) -> InterestSet {
        InterestSet { readable: self.fixed_readable, writable: self.registered_writable }
    }

    /// Recomputes the desired interest from the queue's emptiness and
    /// diffs it against the registered state.  Returns the interest set to
    /// re-register exactly when the desire changed — that is, exactly on an
    /// empty/non-empty transition of the queue — and records it as
    /// registered; otherwise changes nothing.
    pub fn update(&mut self, queue_empty: bool) -> (r: Option<InterestSet>)
        ensures
            final(self).fixed_readable == old(self).fixed_readable,
            final(self).registered() == desired_interest(old(self).fixed_readable, queue_empty),
            r is Some <==> old(self).registered_writable == queue_empty,
            match r {
                Some(s) => s == final(self).registered(),
                None => final(self).registered() == old(self).registered(),
            },
    {
        let desired = recompute_interest(self.fixed_readable, queue_empty);
        if desired.writable != self.registered_writable {
            self.registered_writable = desired.writable;
            Some(desired)
        } else {
            None
        }
    }
}

} // verus!
