//! The non-blocking read and write pumps.
//!
//! A read pump drains a readable endpoint into a pipeline queue; a write
//! pump drains a pipeline queue into a writable endpoint.  Their contracts
//! say that bytes move through a pipeline exactly once and in order: the
//! queue gains precisely the bytes the source handed out, and the sink
//! absorbs precisely the bytes the queue loses, front first.

use vstd::prelude::*;
use vstd::slice::slice_subrange;

use crate::endpoint::{ByteSink, ByteSource, IoFailure};
use crate::queue::{chunks_wf, cursor_ok, lemma_pending_advance, lemma_pending_pop,
    lemma_pending_push, lemma_queued_push, pending, prefix_chunk, queue_wf, queued};
use crate::{RelayError, DEFAULT_BUF_SIZE};

use std::collections::VecDeque;

verus! {

/// A byte count as a pump reports it: exact until it would exceed the
/// machine word, then pinned at the maximum.
pub open spec fn saturated(n: nat) -> nat {
    if n <= usize::MAX {
        n
    } else {
        usize::MAX as nat
    }
}

/// The bytes an endpoint's history gained during a call: the suffix of the
/// final history past the old one.
pub open spec fn gained(older: Seq<u8>, newer: Seq<u8>) -> Seq<u8> {
    newer.skip(older.len() as int)
}

/// An unchanged history gained nothing, and is trivially a prefix of
/// itself.
pub proof fn lemma_gained_refl(s: Seq<u8>)
    ensures
        gained(s, s) == Seq::<u8>::empty(),
        s.is_prefix_of(s),
{
    assert(gained(s, s) =~= Seq::<u8>::empty());
    assert(s.take(s.len() as int) =~= s);
}

/// The exact call trace of a write pump run: starting from queue `bufs`
/// and cursor `pos`, each offer in `offers` is precisely the pending head
/// remainder of the state that the previous answers had produced, each
/// `Ok(n)` answer advances the cursor by `n` (popping a finished head and
/// resetting the cursor), an `Err` answer ends the run on the spot, and
/// `bufs_end` / `pos_end` are the state the answers account for.  This is
/// what rules out a pump that offers anything but the real queued bytes.
pub open spec fn write_trace_to(
    bufs: Seq<Vec<u8>>,
    pos: int,
    offers: Seq<Seq<u8>>,
    answers: Seq<Result<usize, IoFailure>>,
    bufs_end: Seq<Vec<u8>>,
    pos_end: int,
) -> bool
    decreases offers.len(),
{
    if offers.len() == 0 {
        answers.len() == 0 && bufs_end == bufs && pos_end == pos
    } else if answers.len() != offers.len() {
        false
    } else {
        &&& bufs.len() > 0
        &&& offers[0] == bufs[0]@.skip(pos)
        &&& match answers[0] {
            Ok(n) => {
                &&& n <= offers[0].len()
                &&& if pos + n == bufs[0]@.len() {
                    write_trace_to(
                        bufs.drop_first(),
                        0,
                        offers.drop_first(),
                        answers.drop_first(),
                        bufs_end,
                        pos_end,
                    )
                } else {
                    write_trace_to(
                        bufs,
                        pos + n,
                        offers.drop_first(),
                        answers.drop_first(),
                        bufs_end,
                        pos_end,
                    )
                }
            },
            Err(_) => offers.len() == 1 && bufs_end == bufs && pos_end == pos,
        }
    }
}

/// Extending a trace of successful answers by one more legal call keeps it
/// a trace.
pub proof fn lemma_write_trace_push(
    bufs: Seq<Vec<u8>>,
    pos: int,
    offers: Seq<Seq<u8>>,
    answers: Seq<Result<usize, IoFailure>>,
    bc: Seq<Vec<u8>>,
    pc: int,
    o: Seq<u8>,
    a: Result<usize, IoFailure>,
    bn: Seq<Vec<u8>>,
    pn: int,
)
    requires
        write_trace_to(bufs, pos, offers, answers, bc, pc),
        forall|i: int| 0 <= i < answers.len() ==> #[trigger] answers[i] is Ok,
        bc.len() > 0,
        o == bc[0]@.skip(pc),
        match a {
            Ok(n) => {
                &&& n <= o.len()
                &&& if pc + n == bc[0]@.len() {
                    bn == bc.drop_first() && pn == 0
                } else {
                    bn == bc && pn == pc + n
                }
            },
            Err(_) => bn == bc && pn == pc,
        },
    ensures
        write_trace_to(bufs, pos, offers.push(o), answers.push(a), bn, pn),
    decreases offers.len(),
{
    if offers.len() == 0 {
        assert(bc == bufs && pc == pos);
        let off1 = offers.push(o);
        let ans1 = answers.push(a);
        assert(off1[0] == o);
        assert(ans1[0] == a);
        assert(off1.drop_first() =~= Seq::<Seq<u8>>::empty());
        assert(ans1.drop_first() =~= Seq::<Result<usize, IoFailure>>::empty());
        match a {
            Ok(n) => {
                if pc + n == bc[0]@.len() {
                    assert(write_trace_to(
                        bufs.drop_first(),
                        0,
                        off1.drop_first(),
                        ans1.drop_first(),
                        bn,
                        pn,
                    ));
                } else {
                    assert(write_trace_to(bufs, pc + n, off1.drop_first(), ans1.drop_first(), bn, pn));
                }
            },
            Err(_) => {},
        }
        assert(write_trace_to(bufs, pos, off1, ans1, bn, pn));
    } else {
        assert(answers[0] is Ok);
        assert(offers.push(o)[0] == offers[0]);
        assert(answers.push(a)[0] == answers[0]);
        assert(offers.push(o).drop_first() =~= offers.drop_first().push(o));
        assert(answers.push(a).drop_first() =~= answers.drop_first().push(a));
        assert forall|i: int| 0 <= i < answers.drop_first().len() implies #[trigger] answers
            .drop_first()[i] is Ok by {
            assert(answers.drop_first()[i] == answers[i + 1]);
        }
        let n = answers[0]->Ok_0;
        if pos + n == bufs[0]@.len() {
            lemma_write_trace_push(
                bufs.drop_first(),
                0,
                offers.drop_first(),
                answers.drop_first(),
                bc,
                pc,
                o,
                a,
                bn,
                pn,
            );
        } else {
            lemma_write_trace_push(
                bufs,
                pos + n,
                offers.drop_first(),
                answers.drop_first(),
                bc,
                pc,
                o,
                a,
                bn,
                pn,
            );
        }
    }
}

/// Bookkeeping for one more recorded read call: prefixes, lengths and the
/// per-element facts carry over a push of one offer and one answer.
proof fn lemma_read_log_step(
    off0: Seq<nat>,
    ans0: Seq<Result<usize, IoFailure>>,
    off_pre: Seq<nat>,
    ans_pre: Seq<Result<usize, IoFailure>>,
    off1: Seq<nat>,
    ans1: Seq<Result<usize, IoFailure>>,
)
    requires
        off0.is_prefix_of(off_pre),
        ans0.is_prefix_of(ans_pre),
        off_pre.len() - off0.len() == ans_pre.len() - ans0.len(),
        exists|o: nat| off1 == off_pre.push(o),
        exists|a: Result<usize, IoFailure>| ans1 == ans_pre.push(a),
    ensures
        off0.is_prefix_of(off1),
        ans0.is_prefix_of(ans1),
        off1.len() - off0.len() == ans1.len() - ans0.len(),
        forall|i: int| off0.len() <= i < off1.len() - 1 ==> #[trigger] off1[i] == off_pre[i],
        forall|i: int| ans0.len() <= i < ans1.len() - 1 ==> #[trigger] ans1[i] == ans_pre[i],
        off1[off1.len() - 1] == off1.last(),
        ans1[ans1.len() - 1] == ans1.last(),
{
    let o = choose|o: nat| off1 == off_pre.push(o);
    let a = choose|a: Result<usize, IoFailure>| ans1 == ans_pre.push(a);
    assert(off1.take(off0.len() as int) =~= off0);
    assert(ans1.take(ans0.len() as int) =~= ans0);
}

/// The standard-input read pump: exactly one non-blocking read per
/// invocation, so that interactive input is not over-read in a single
/// wake.  A read of `n > 0` bytes is appended to the queue as one chunk of
/// exactly `n` bytes; a zero-length read or a would-block answer appends
/// nothing.  Any other failure is fatal.
pub fn read_line<T: ByteSource>(fd: &mut T, bufs: &mut VecDeque<Vec<u8>>) -> (r: Result<
    usize,
    RelayError,
>)
    ensures
        old(fd).sourced().is_prefix_of(final(fd).sourced()),
        final(fd).sunk() == old(fd).sunk(),
        final(fd).setup() == old(fd).setup(),
        old(bufs)@.len() <= final(bufs)@.len() <= old(bufs)@.len() + 1,
        final(bufs)@.take(old(bufs)@.len() as int) == old(bufs)@,
        queued(final(bufs)@) == queued(old(bufs)@) + gained(
            old(fd).sourced(),
            final(fd).sourced(),
        ),
        // One read per wake: at most a bufferful is gained.
        final(fd).sourced().len() - old(fd).sourced().len() <= DEFAULT_BUF_SIZE,
        // An appended chunk holds exactly the bytes read: never empty,
        // never beyond the fixed read size.
        forall|i: int|
            old(bufs)@.len() <= i < final(bufs)@.len() ==> 1 <= #[trigger] final(bufs)@[i]@.len()
                <= DEFAULT_BUF_SIZE,
        chunks_wf(old(bufs)@) ==> chunks_wf(final(bufs)@),
        // When nothing was read, nothing was appended.
        final(fd).sourced() == old(fd).sourced() ==> final(bufs)@ == old(bufs)@,
        // Exactly one read is made, and it offers the full fixed-size
        // buffer.
        final(fd).read_offers() == old(fd).read_offers().push(DEFAULT_BUF_SIZE as nat),
        final(fd).read_answers().len() == old(fd).read_answers().len() + 1,
        // An error is returned exactly when the source answered fatally;
        // a would-block answer is swallowed, never propagated.  An `Ok`
        // result is the single answer itself: `Ok(n)` for a read of `n`
        // bytes, or `Ok(0)` for a swallowed would-block.
        r matches Err(_) <==> final(fd).last_read() == Some(
            Err::<usize, IoFailure>(IoFailure::Fatal),
        ),
        r matches Ok(n) ==> (final(fd).last_read() == Some(Ok::<usize, IoFailure>(n)) || (n == 0
            && final(fd).last_read() == Some(Err::<usize, IoFailure>(IoFailure::WouldBlock)))),
        match r {
            Ok(n) => n == final(fd).sourced().len() - old(fd).sourced().len(),
            Err(e) => {
                &&& e == RelayError::IoError
                &&& final(bufs)@ == old(bufs)@
                &&& final(fd).sourced() == old(fd).sourced()
            },
        },
{
    let mut rbuf: Vec<u8> = vec![0u8; DEFAULT_BUF_SIZE];
    match fd.read(&mut rbuf) {
        Ok(0) => {
            proof {
                assert(gained(old(fd).sourced(), fd.sourced()) =~= Seq::<u8>::empty());
                assert(queued(bufs@) =~= queued(old(bufs)@) + gained(
                    old(fd).sourced(),
                    fd.sourced(),
                ));
                assert(bufs@.take(old(bufs)@.len() as int) =~= old(bufs)@);
            }
            Ok(0)
        },
        Ok(len) => {
            let chunk = prefix_chunk(&rbuf, len);
            bufs.push_back(chunk);
            proof {
                lemma_queued_push(old(bufs)@, chunk);
                assert(gained(old(fd).sourced(), fd.sourced()) =~= chunk@);
                assert(bufs@.take(old(bufs)@.len() as int) =~= old(bufs)@);
                assert(bufs@[old(bufs)@.len() as int] == chunk);
                if chunks_wf(old(bufs)@) {
                    assert forall|i: int| 0 <= i < bufs@.len() implies #[trigger] bufs@[i]@.len()
                        >= 1 by {
                        if i < old(bufs)@.len() {
                            assert(bufs@[i] == old(bufs)@[i]);
                        }
                    }
                }
            }
            Ok(len)
        },
        Err(IoFailure::WouldBlock) => {
            proof {
                assert(gained(old(fd).sourced(), fd.sourced()) =~= Seq::<u8>::empty());
                assert(queued(bufs@) =~= queued(old(bufs)@) + gained(
                    old(fd).sourced(),
                    fd.sourced(),
                ));
                assert(bufs@.take(old(bufs)@.len() as int) =~= old(bufs)@);
            }
            Ok(0)
        },
        Err(IoFailure::Fatal) => {
            proof {
                assert(bufs@.take(old(bufs)@.len() as int) =~= old(bufs)@);
                assert(queued(bufs@) =~= queued(old(bufs)@) + gained(
                    old(fd).sourced(),
                    fd.sourced(),
                ));
            }
            Err(RelayError::IoError)
        },
    }
}

/// The socket read pump: drains the endpoint until it reports no more
/// data.  Each read of `n > 0` bytes is appended as one chunk of exactly
/// `n` bytes; a zero-length read or a would-block answer stops the pump
/// without appending.  Any other failure is fatal; chunks read before the
/// failure stay queued.
///
/// A zero-length read is treated as "nothing available", not as peer
/// closed: the relay never shuts a pipeline down on it and simply idles
/// until some endpoint produces bytes or fails.
pub fn read<T: ByteSource>(fd: &mut T, bufs: &mut VecDeque<Vec<u8>>) -> (r: Result<
    usize,
    RelayError,
>)
    ensures
        old(fd).sourced().is_prefix_of(final(fd).sourced()),
        final(fd).sunk() == old(fd).sunk(),
        final(fd).setup() == old(fd).setup(),
        final(bufs)@.len() >= old(bufs)@.len(),
        final(bufs)@.take(old(bufs)@.len() as int) == old(bufs)@,
        queued(final(bufs)@) == queued(old(bufs)@) + gained(
            old(fd).sourced(),
            final(fd).sourced(),
        ),
        // Each appended chunk holds exactly the bytes of one read: never
        // empty, never beyond the fixed read size.
        forall|i: int|
            old(bufs)@.len() <= i < final(bufs)@.len() ==> 1 <= #[trigger] final(bufs)@[i]@.len()
                <= DEFAULT_BUF_SIZE,
        chunks_wf(old(bufs)@) ==> chunks_wf(final(bufs)@),
        // When nothing was read, nothing was appended.
        final(fd).sourced() == old(fd).sourced() ==> final(bufs)@ == old(bufs)@,
        // The pump stops only on a terminator: an error exactly when the
        // source answered fatally, and otherwise only once the source
        // answered would-block or a zero-length read — never after a mere
        // short read.
        r matches Err(_) <==> final(fd).last_read() == Some(
            Err::<usize, IoFailure>(IoFailure::Fatal),
        ),
        // Every read offered the full fixed-size buffer, at least one read
        // was made, and every answer before the last was a successful
        // non-zero read: the pump never stops after a mere short read.
        old(fd).read_offers().is_prefix_of(final(fd).read_offers()),
        old(fd).read_answers().is_prefix_of(final(fd).read_answers()),
        final(fd).read_offers().len() - old(fd).read_offers().len()
            == final(fd).read_answers().len() - old(fd).read_answers().len(),
        final(fd).read_answers().len() > old(fd).read_answers().len(),
        forall|i: int|
            old(fd).read_offers().len() <= i < final(fd).read_offers().len()
                ==> #[trigger] final(fd).read_offers()[i] == DEFAULT_BUF_SIZE as nat,
        forall|i: int|
            old(fd).read_answers().len() <= i < final(fd).read_answers().len() - 1 ==> (
            #[trigger] final(fd).read_answers()[i] matches Ok(n) && n >= 1),
        r matches Ok(n) ==> ((final(fd).last_read() == Some(
            Err::<usize, IoFailure>(IoFailure::WouldBlock),
        ) && n as nat == saturated(
            (final(fd).sourced().len() - old(fd).sourced().len()) as nat,
        )) || (final(fd).last_read() == Some(Ok::<usize, IoFailure>(0)) && n == 0)),
        match r {
            Ok(n) => n == 0 || n as nat == saturated(
                (final(fd).sourced().len() - old(fd).sourced().len()) as nat,
            ),
            Err(e) => e == RelayError::IoError,
        },
{
    let mut tot_len: usize = 0;
    let mut rbuf: Vec<u8> = vec![0u8; DEFAULT_BUF_SIZE];

    loop
        invariant
            rbuf@.len() == DEFAULT_BUF_SIZE,
            old(fd).sourced().is_prefix_of(fd.sourced()),
            fd.sunk() == old(fd).sunk(),
            fd.setup() == old(fd).setup(),
            bufs@.len() >= old(bufs)@.len(),
            bufs@.take(old(bufs)@.len() as int) == old(bufs)@,
            queued(bufs@) == queued(old(bufs)@) + gained(old(fd).sourced(), fd.sourced()),
            forall|i: int|
                old(bufs)@.len() <= i < bufs@.len() ==> 1 <= #[trigger] bufs@[i]@.len()
                    <= DEFAULT_BUF_SIZE,
            chunks_wf(old(bufs)@) ==> chunks_wf(bufs@),
            fd.sourced() == old(fd).sourced() ==> bufs@ == old(bufs)@,
            tot_len as nat == saturated(
                (fd.sourced().len() - old(fd).sourced().len()) as nat,
            ),
            old(fd).read_offers().is_prefix_of(fd.read_offers()),
            old(fd).read_answers().is_prefix_of(fd.read_answers()),
            fd.read_offers().len() - old(fd).read_offers().len() == fd.read_answers().len() - old(
                fd,
            ).read_answers().len(),
            forall|i: int|
                old(fd).read_offers().len() <= i < fd.read_offers().len()
                    ==> #[trigger] fd.read_offers()[i] == DEFAULT_BUF_SIZE as nat,
            forall|i: int|
                old(fd).read_answers().len() <= i < fd.read_answers().len() ==> (
                #[trigger] fd.read_answers()[i] matches Ok(n) && n >= 1),
        decreases fd.read_budget(),
    {
        let ghost sourced_pre = fd.sourced();
        let ghost roff_pre = fd.read_offers();
        let ghost rans_pre = fd.read_answers();
        match fd.read(&mut rbuf) {
            Ok(0) => {
                proof {
                    assert(fd.sourced() =~= fd.sourced() + Seq::<u8>::empty());
                    lemma_read_log_step(old(fd).read_offers(), old(fd).read_answers(), roff_pre,
                        rans_pre, fd.read_offers(), fd.read_answers());
                }
                return Ok(0);
            },
            Ok(len) => {
                let ghost bufs_before = bufs@;
                let chunk = prefix_chunk(&rbuf, len);
                proof {
                    lemma_queued_push(bufs@, chunk);
                }
                bufs.push_back(chunk);
                proof {
                    assert(bufs@.take(old(bufs)@.len() as int) =~= old(bufs)@);
                    assert(queued(bufs@) =~= queued(old(bufs)@) + gained(
                        old(fd).sourced(),
                        fd.sourced(),
                    ));
                    assert(bufs@[bufs_before.len() as int] == chunk);
                    assert forall|i: int|
                        old(bufs)@.len() <= i < bufs@.len() implies 1 <= #[trigger] bufs@[i]@.len()
                        <= DEFAULT_BUF_SIZE by {
                        if i < bufs_before.len() {
                            assert(bufs@[i] == bufs_before[i]);
                        }
                    }
                    if chunks_wf(old(bufs)@) {
                        assert forall|i: int| 0 <= i < bufs@.len() implies #[trigger] bufs@[i]@.len()
                            >= 1 by {
                            if i < old(bufs)@.len() {
                                assert(bufs@[i] == old(bufs)@[i]);
                            }
                        }
                    }
                    assert(fd.sourced().len() == sourced_pre.len() + len);
                    assert(fd.sourced().len() > old(fd).sourced().len());
                    lemma_read_log_step(old(fd).read_offers(), old(fd).read_answers(), roff_pre,
                        rans_pre, fd.read_offers(), fd.read_answers());
                }
                tot_len = tot_len.saturating_add(len);
            },
            Err(IoFailure::WouldBlock) => {
                proof {
                    lemma_read_log_step(old(fd).read_offers(), old(fd).read_answers(), roff_pre,
                        rans_pre, fd.read_offers(), fd.read_answers());
                }
                return Ok(tot_len);
            },
            Err(IoFailure::Fatal) => {
                proof {
                    lemma_read_log_step(old(fd).read_offers(), old(fd).read_answers(), roff_pre,
                        rans_pre, fd.read_offers(), fd.read_answers());
                }
                return Err(RelayError::IoError);
            },
        }
    }
}

/// The write pump: while the queue is non-empty, writes the head chunk
/// from the cursor onward; a full head chunk is popped and the cursor
/// reset.  A would-block answer stops the pump without error.  The sink
/// gains exactly the bytes the pending stream loses, front first: nothing
/// is re-sent, lost or reordered.  On an already-empty queue the pump is a
/// no-op.
pub fn write<T: ByteSink>(fd: &mut T, bufs: &mut VecDeque<Vec<u8>>, pos: &mut usize) -> (r: Result<
    usize,
    RelayError,
>)
    requires
        cursor_ok(old(bufs)@, *old(pos) as int),
    ensures
        cursor_ok(final(bufs)@, *final(pos) as int),
        old(fd).sunk().is_prefix_of(final(fd).sunk()),
        final(fd).sourced() == old(fd).sourced(),
        final(fd).setup() == old(fd).setup(),
        final(fd).sunk() + pending(final(bufs)@, *final(pos) as int) == old(fd).sunk() + pending(
            old(bufs)@,
            *old(pos) as int,
        ),
        final(bufs)@.len() <= old(bufs)@.len(),
        final(bufs)@ == old(bufs)@.skip(old(bufs)@.len() - final(bufs)@.len()),
        match r {
            Ok(n) => n as nat == saturated(
                (final(fd).sunk().len() - old(fd).sunk().len()) as nat,
            ),
            Err(e) => e == RelayError::IoError,
        },
        old(bufs)@.len() == 0 ==> {
            &&& r == Ok::<usize, RelayError>(0)
            &&& final(fd).sunk() == old(fd).sunk()
            &&& final(bufs)@ == old(bufs)@
            &&& *final(pos) == *old(pos)
        },
        // The pump never stops of its own accord: an error is returned
        // exactly when the sink answered fatally, and bytes are left
        // pending only once the sink answered would-block.
        r matches Err(_) ==> final(fd).last_write() == Some(
            Err::<usize, IoFailure>(IoFailure::Fatal),
        ),
        (final(fd).write_answers().len() > old(fd).write_answers().len() && final(fd).last_write()
            == Some(Err::<usize, IoFailure>(IoFailure::Fatal))) ==> r matches Err(_),
        (r matches Ok(_) && final(bufs)@.len() > 0) ==> final(fd).last_write() == Some(
            Err::<usize, IoFailure>(IoFailure::WouldBlock),
        ),
        // A sink with no write budget refuses every write: the queue, the
        // cursor and the sink are left exactly as they were.
        old(fd).write_budget() == 0 ==> {
            &&& final(bufs)@ == old(bufs)@
            &&& *final(pos) == *old(pos)
            &&& final(fd).sunk() == old(fd).sunk()
        },
        // The queue invariant is preserved: a fully-written head chunk is
        // popped at once, with the cursor reset, never left behind.
        queue_wf(old(bufs)@, *old(pos) as int) ==> queue_wf(final(bufs)@, *final(pos) as int),
        // The exact call trace: every write offered precisely the pending
        // head remainder of the moment, and the final queue and cursor are
        // the state those answers account for.  A pump that offers the sink
        // anything else — empty slices, stale bytes — does not meet this.
        old(fd).write_offers().is_prefix_of(final(fd).write_offers()),
        old(fd).write_answers().is_prefix_of(final(fd).write_answers()),
        final(fd).write_offers().len() - old(fd).write_offers().len()
            == final(fd).write_answers().len() - old(fd).write_answers().len(),
        write_trace_to(
            old(bufs)@,
            *old(pos) as int,
            final(fd).write_offers().skip(old(fd).write_offers().len() as int),
            final(fd).write_answers().skip(old(fd).write_answers().len() as int),
            final(bufs)@,
            *final(pos) as int,
        ),
{
    let mut tot_len: usize = 0;

    loop
        invariant
            cursor_ok(bufs@, *pos as int),
            old(fd).sunk().is_prefix_of(fd.sunk()),
            fd.sourced() == old(fd).sourced(),
            fd.setup() == old(fd).setup(),
            fd.sunk() + pending(bufs@, *pos as int) == old(fd).sunk() + pending(
                old(bufs)@,
                *old(pos) as int,
            ),
            bufs@.len() <= old(bufs)@.len(),
            bufs@ == old(bufs)@.skip(old(bufs)@.len() - bufs@.len()),
            tot_len as nat == saturated((fd.sunk().len() - old(fd).sunk().len()) as nat),
            old(bufs)@.len() == 0 ==> {
                &&& tot_len == 0
                &&& fd.sunk() == old(fd).sunk()
                &&& bufs@ == old(bufs)@
                &&& *pos == *old(pos)
            },
            old(fd).write_budget() == 0 ==> {
                &&& fd.write_budget() == 0
                &&& fd.sunk() == old(fd).sunk()
                &&& bufs@ == old(bufs)@
                &&& *pos == *old(pos)
            },
            queue_wf(old(bufs)@, *old(pos) as int) ==> queue_wf(bufs@, *pos as int),
            old(fd).write_offers().is_prefix_of(fd.write_offers()),
            old(fd).write_answers().is_prefix_of(fd.write_answers()),
            fd.write_offers().len() - old(fd).write_offers().len() == fd.write_answers().len()
                - old(fd).write_answers().len(),
            forall|i: int|
                old(fd).write_answers().len() <= i < fd.write_answers().len()
                    ==> #[trigger] fd.write_answers()[i] is Ok,
            fd.write_answers().len() > old(fd).write_answers().len() ==> fd.last_write() == Some(
                fd.write_answers().last(),
            ),
            write_trace_to(
                old(bufs)@,
                *old(pos) as int,
                fd.write_offers().skip(old(fd).write_offers().len() as int),
                fd.write_answers().skip(old(fd).write_answers().len() as int),
                bufs@,
                *pos as int,
            ),
        decreases fd.write_budget(),
    {
        if bufs.len() == 0 {
            proof {
                if fd.write_answers().len() > old(fd).write_answers().len() {
                    assert(fd.write_answers()[fd.write_answers().len() - 1] is Ok);
                }
            }
            return Ok(tot_len);
        }
        let ghost bufs_before = bufs@;
        let ghost pos_before = *pos as int;
        let ghost off_before = fd.write_offers().skip(old(fd).write_offers().len() as int);
        let ghost ans_before = fd.write_answers().skip(old(fd).write_answers().len() as int);
        let head = &bufs[0];
        let head_len = head.len();
        let part = slice_subrange(head.as_slice(), *pos, head_len);
        match fd.write(part) {
            Ok(len) => {
                proof {
                    assert(part@ =~= bufs_before[0]@.skip(pos_before));
                    assert(fd.write_offers().skip(old(fd).write_offers().len() as int)
                        =~= off_before.push(part@));
                    assert(fd.write_answers().skip(old(fd).write_answers().len() as int)
                        =~= ans_before.push(Ok(len)));
                    assert(fd.write_offers().take(old(fd).write_offers().len() as int)
                        =~= old(fd).write_offers());
                    assert(fd.write_answers().take(old(fd).write_answers().len() as int)
                        =~= old(fd).write_answers());
                }
                proof {
                    assert(part@ =~= pending(bufs_before, pos_before).take(
                        head_len - pos_before,
                    ));
                    assert(part@.take(len as int) =~= pending(bufs_before, pos_before).take(
                        len as int,
                    ));
                    lemma_pending_advance(bufs_before, pos_before, len as int);
                    assert(pending(bufs_before, pos_before) =~= pending(
                        bufs_before,
                        pos_before,
                    ).take(len as int) + pending(bufs_before, pos_before).skip(len as int));
                }
                *pos = *pos + len;
                if head_len == *pos {
                    proof {
                        lemma_pending_pop(bufs_before);
                    }
                    bufs.pop_front();
                    *pos = 0;
                    proof {
                        let j = old(bufs)@.len() - bufs_before.len();
                        assert(bufs@ =~= bufs_before.skip(1));
                        old(bufs)@.lemma_seq_skip_skip(j);
                        assert(bufs_before.skip(1) =~= old(bufs)@.skip(j + 1));
                        assert(bufs@ =~= old(bufs)@.skip(old(bufs)@.len() - bufs@.len()));
                        if queue_wf(old(bufs)@, *old(pos) as int) {
                            assert forall|i: int| 0 <= i < bufs@.len() implies #[trigger] bufs@[
                                i
                            ]@.len() >= 1 by {
                                assert(bufs@[i] == bufs_before.skip(1)[i]);
                                assert(bufs_before.skip(1)[i] == bufs_before[i + 1]);
                            }
                        }
                    }
                }
                tot_len = tot_len.saturating_add(len);
                proof {
                    lemma_write_trace_push(
                        old(bufs)@,
                        *old(pos) as int,
                        off_before,
                        ans_before,
                        bufs_before,
                        pos_before,
                        part@,
                        Ok(len),
                        bufs@,
                        *pos as int,
                    );
                    assert forall|i: int|
                        old(fd).write_answers().len() <= i < fd.write_answers().len() implies
                        #[trigger] fd.write_answers()[i] is Ok by {
                        if i < fd.write_answers().len() - 1 {
                            assert(fd.write_answers()[i] == ans_before[i - old(fd).write_answers().len()]);
                        } else {
                            assert(fd.write_answers()[i] == fd.write_answers().last());
                        }
                    }
                }
            },
            Err(IoFailure::WouldBlock) => {
                proof {
                    assert(part@ =~= bufs_before[0]@.skip(pos_before));
                    assert(fd.write_offers().skip(old(fd).write_offers().len() as int)
                        =~= off_before.push(part@));
                    assert(fd.write_answers().skip(old(fd).write_answers().len() as int)
                        =~= ans_before.push(Err(IoFailure::WouldBlock)));
                    assert(fd.write_offers().take(old(fd).write_offers().len() as int)
                        =~= old(fd).write_offers());
                    assert(fd.write_answers().take(old(fd).write_answers().len() as int)
                        =~= old(fd).write_answers());
                    lemma_write_trace_push(
                        old(bufs)@,
                        *old(pos) as int,
                        off_before,
                        ans_before,
                        bufs_before,
                        pos_before,
                        part@,
                        Err(IoFailure::WouldBlock),
                        bufs@,
                        *pos as int,
                    );
                }
                return Ok(tot_len);
            },
            Err(IoFailure::Fatal) => {
                proof {
                    assert(part@ =~= bufs_before[0]@.skip(pos_before));
                    assert(fd.write_offers().skip(old(fd).write_offers().len() as int)
                        =~= off_before.push(part@));
                    assert(fd.write_answers().skip(old(fd).write_answers().len() as int)
                        =~= ans_before.push(Err(IoFailure::Fatal)));
                    assert(fd.write_offers().take(old(fd).write_offers().len() as int)
                        =~= old(fd).write_offers());
                    assert(fd.write_answers().take(old(fd).write_answers().len() as int)
                        =~= old(fd).write_answers());
                    lemma_write_trace_push(
                        old(bufs)@,
                        *old(pos) as int,
                        off_before,
                        ans_before,
                        bufs_before,
                        pos_before,
                        part@,
                        Err(IoFailure::Fatal),
                        bufs@,
                        *pos as int,
                    );
                }
                return Err(RelayError::IoError);
            },
        }
    }
}

} // verus!
