//! A verified core for an interactive TCP relay ("netcat"-style client).
//!
//! The library models the two buffered byte pipelines of such a relay
//! (standard input -> socket, socket -> standard output), the non-blocking
//! read and write pumps that move bytes through them, the readiness-interest
//! bookkeeping that implements backpressure, and the connect-timeout
//! decision.  All actual I/O (polling, the TCP socket, the standard streams)
//! lives outside the library, behind the `ByteSource` / `ByteSink` traits.

use vstd::prelude::*;

pub mod connector;
pub mod endpoint;
pub mod interest;
pub mod mem;
pub mod pump;
pub mod queue;
pub mod step;

verus! {

/// Size of the fixed read buffer used by the read pumps.
pub const DEFAULT_BUF_SIZE: usize = 1024;

/// How long the connector waits for the connection-established signal.
pub const CONNECT_TIMEOUT_MS: u64 = 1000;

/// A fatal condition that terminates the relay.
#[derive(Clone, Copy, Debug, PartialEq, Eq, Structural)]
pub enum RelayError {
    /// No connection-established signal arrived within the deadline.
    ConnectionTimeout,
    /// The `HOST:PORT` argument could not be parsed.
    AddressParseError,
    /// An endpoint failed with an error other than would-block.
    IoError,
}

impl RelayError {
    /// A human-readable message, for the process's single error report.
    pub fn message(&self) -> (r: &'static str)
        ensures
            r@ == match self {
                RelayError::ConnectionTimeout => "connection timeout"@,
                RelayError::AddressParseError => "invalid address"@,
                RelayError::IoError => "i/o error"@,
            },
    {
        match self {
            RelayError::ConnectionTimeout => "connection timeout",
            RelayError::AddressParseError => "invalid address",
            RelayError::IoError => "i/o error",
        }
    }
}

} // verus!
