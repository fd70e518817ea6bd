//! The library's model of a non-blocking byte endpoint.
//!
//! The relay's pumps are generic over the endpoints they drain and fill, so
//! that the same verified pump serves the socket, standard input and
//! standard output.  An `Endpoint` carries a ghost history of every byte
//! that has crossed it in either direction (`sourced`, `sunk`); a
//! `ByteSource` can be read, a `ByteSink` written, and each operation's
//! contract says how one call extends the history — and that it leaves the
//! opposite direction alone, so a duplex endpoint such as the socket keeps
//! both histories coherent.  A caller learns nothing about *when* an
//! endpoint is ready — a would-block answer is always possible — so
//! everything proved downstream holds of every schedule.

use vstd::prelude::*;

verus! {

/// Why a non-blocking operation made no progress.
#[derive(Clone, Copy, Debug, PartialEq, Eq, Structural)]
pub enum IoFailure {
    /// The endpoint cannot proceed right now; not an error.
    WouldBlock,
    /// A real I/O error; fatal to the relay.
    Fatal,
}

/// The ghost state of a byte endpoint.  An endpoint that is only ever read
/// (or only written) fixes the unused history at the empty sequence.
pub trait Endpoint {
    /// The endpoint's fixed configuration — for a scripted endpoint, its
    /// script.  Both operations preserve it, so a caller that hands the
    /// endpoint to generic code keeps what it knew of the configuration.
    type Setup;

    /// This endpoint's configuration, never changed by reads or writes.
    open spec fn setup(&self) -> Self::Setup {
        vstd::pervasive::arbitrary()
    }

    /// Every byte this endpoint has handed out so far, in order.
    open spec fn sourced(&self) -> Seq<u8> {
        Seq::empty()
    }

    /// Every byte this endpoint has absorbed so far, in order.
    open spec fn sunk(&self) -> Seq<u8> {
        Seq::empty()
    }

    /// How many more successful reads this endpoint will answer before it
    /// reports would-block: the burst is finite, which is what lets a
    /// drain-until-would-block loop terminate.  A would-block answer may
    /// replenish it.
    open spec fn read_budget(&self) -> nat {
        0
    }

    /// How many more successful writes this endpoint will answer before it
    /// reports would-block; a would-block answer may replenish it.
    open spec fn write_budget(&self) -> nat {
        0
    }

    /// The offer made by each read so far: the length of the buffer the
    /// caller handed in.  Together with `read_answers`, a full record of
    /// every read call, letting a caller's contract say what its loop
    /// offered the endpoint — not only what it got back.
    open spec fn read_offers(&self) -> Seq<nat> {
        Seq::empty()
    }

    /// The answer given to each read so far, in call order.
    open spec fn read_answers(&self) -> Seq<Result<usize, IoFailure>> {
        Seq::empty()
    }

    /// The offer made by each write so far: the exact bytes the caller
    /// handed in.
    open spec fn write_offers(&self) -> Seq<Seq<u8>> {
        Seq::empty()
    }

    /// The answer given to each write so far, in call order.
    open spec fn write_answers(&self) -> Seq<Result<usize, IoFailure>> {
        Seq::empty()
    }

    /// The answer this endpoint gave to its most recent read, if any.
    /// Lets a caller's contract tie its own result to how the endpoint
    /// last answered (stopped at would-block, failed, reached end of
    /// stream).
    open spec fn last_read(&self) -> Option<Result<usize, IoFailure>> {
        None
    }

    /// The answer this endpoint gave to its most recent write, if any.
    open spec fn last_write(&self) -> Option<Result<usize, IoFailure>> {
        None
    }
}

/// A readable endpoint: a non-blocking producer of bytes.
pub trait ByteSource: Endpoint {
    /// One non-blocking read into `buf`.  On `Ok(n)`, the first `n` bytes
    /// of `buf` are the bytes read, the rest of `buf` is unchanged, and the
    /// sourced history grows by exactly those `n` bytes; `Ok(0)` means end
    /// of stream or nothing available.  On `Err`, nothing was read.  The
    /// sunk history is untouched either way.
    fn read(&mut self, buf: &mut Vec<u8>) -> (r: Result<usize, IoFailure>)
        ensures
            final(self).sunk() == old(self).sunk(),
            final(self).setup() == old(self).setup(),
            final(self).last_read() == Some(r),
            final(self).last_write() == old(self).last_write(),
            final(self).read_offers() == old(self).read_offers().push(old(buf)@.len()),
            final(self).read_answers() == old(self).read_answers().push(r),
            final(self).write_offers() == old(self).write_offers(),
            final(self).write_answers() == old(self).write_answers(),
            match r {
                Ok(n) => {
                    &&& n <= old(buf)@.len()
                    &&& final(buf)@.len() == old(buf)@.len()
                    &&& final(buf)@.skip(n as int) == old(buf)@.skip(n as int)
                    &&& final(self).sourced() == old(self).sourced() + final(buf)@.take(n as int)
                    &&& n > 0 ==> final(self).read_budget() < old(self).read_budget()
                },
                Err(_) => {
                    &&& final(buf)@ == old(buf)@
                    &&& final(self).sourced() == old(self).sourced()
                },
            },
    ;
}

/// A writable endpoint: a non-blocking consumer of bytes.
pub trait ByteSink: Endpoint {
    /// One non-blocking write of a prefix of `buf`.  On `Ok(n)`, the
    /// endpoint absorbed exactly the first `n` bytes of `buf`; on `Err`,
    /// it absorbed nothing.  The sourced history is untouched either way.
    fn write(&mut self, buf: &[u8]) -> (r: Result<usize, IoFailure>)
        ensures
            final(self).sourced() == old(self).sourced(),
            final(self).setup() == old(self).setup(),
            final(self).last_write() == Some(r),
            final(self).last_read() == old(self).last_read(),
            final(self).write_offers() == old(self).write_offers().push(buf@),
            final(self).write_answers() == old(self).write_answers().push(r),
            final(self).read_offers() == old(self).read_offers(),
            final(self).read_answers() == old(self).read_answers(),
            match r {
                Ok(n) => {
                    &&& n <= buf@.len()
                    &&& final(self).sunk() == old(self).sunk() + buf@.take(n as int)
                    &&& final(self).write_budget() < old(self).write_budget()
                },
                Err(_) => final(self).sunk() == old(self).sunk(),
            },
    ;
}

} // verus!
