//! One iteration of the event loop in its connected state.
//!
//! The loop's driver (outside the library) blocks until at least one
//! endpoint reports readiness, then hands the readable flags to `step`,
//! which runs the relay's fixed per-iteration schedule: reads before
//! writes, upload direction before download direction.  Write pumps run
//! unconditionally — an empty queue makes them a no-op — and each is
//! followed by the interest recomputation for its destination, whose
//! result, if any, the driver must re-register.
//!
//! The contract states the conservation law of both pipelines: per
//! direction, bytes absorbed by the destination followed by bytes still
//! pending equal the bytes previously absorbed and pending followed by
//! everything newly read from that direction's source.  Nothing is lost,
//! duplicated or reordered, whatever the endpoints answered.

use vstd::prelude::*;

use crate::endpoint::{ByteSink, ByteSource, IoFailure};
use crate::interest::{desired_interest, EndpointInterest, InterestSet};
use crate::pump::{gained, lemma_gained_refl, read, read_line};
use crate::queue::{cursor_ok, lemma_pending_extend, lemma_queue_wf_extend, pending, queue_wf,
    queued};
use crate::RelayError;

use std::collections::VecDeque;

verus! {

/// What the driver must do after one iteration: re-register the socket's
/// or standard output's interest where it changed.
pub struct StepActions {
    pub sock_register: Option<InterestSet>,
    pub out_register: Option<InterestSet>,
}

/// Runs one connected-state iteration: the standard-input read pump if
/// standard input woke readable, the socket read pump if the socket woke
/// readable, then unconditionally the socket write pump and the socket's
/// interest update, then the standard-output write pump and its interest
/// update.  Any fatal pump error propagates; would-block answers do not.
#[verifier::rlimit(60)]
pub fn step<I: ByteSource, S: ByteSource + ByteSink, O: ByteSink>(
    stdin: &mut I,
    sock: &mut S,
    stdout: &mut O,
    stdin_readable: bool,
    sock_readable: bool,
    in_bufs: &mut VecDeque<Vec<u8>>,
    sent_pos: &mut usize,
    sock_interest: &mut EndpointInterest,
    out_bufs: &mut VecDeque<Vec<u8>>,
    wrote_pos: &mut usize,
    out_interest: &mut EndpointInterest,
) -> (r: Result<StepActions, RelayError>)
    requires
        cursor_ok(old(in_bufs)@, *old(sent_pos) as int),
        cursor_ok(old(out_bufs)@, *old(wrote_pos) as int),
    ensures
        cursor_ok(final(in_bufs)@, *final(sent_pos) as int),
        cursor_ok(final(out_bufs)@, *final(wrote_pos) as int),
        old(stdin).sourced().is_prefix_of(final(stdin).sourced()),
        old(sock).sourced().is_prefix_of(final(sock).sourced()),
        old(sock).sunk().is_prefix_of(final(sock).sunk()),
        old(stdout).sunk().is_prefix_of(final(stdout).sunk()),
        // Upload conservation: socket intake plus upload backlog equals the
        // old intake and backlog plus everything newly read from stdin.
        final(sock).sunk() + pending(final(in_bufs)@, *final(sent_pos) as int) == old(sock).sunk()
            + pending(old(in_bufs)@, *old(sent_pos) as int) + gained(
            old(stdin).sourced(),
            final(stdin).sourced(),
        ),
        // Download conservation, symmetrically.
        final(stdout).sunk() + pending(final(out_bufs)@, *final(wrote_pos) as int) == old(
            stdout,
        ).sunk() + pending(old(out_bufs)@, *old(wrote_pos) as int) + gained(
            old(sock).sourced(),
            final(sock).sourced(),
        ),
        !stdin_readable ==> final(stdin).sourced() == old(stdin).sourced(),
        !sock_readable ==> final(sock).sourced() == old(sock).sourced(),
        // An iteration that consults no endpoint cannot fail: with nothing
        // readable and both queues empty, the write pumps are no-ops.
        (!stdin_readable && !sock_readable && old(in_bufs)@.len() == 0 && old(out_bufs)@.len()
            == 0) ==> r is Ok,
        // The queue invariants are preserved, whatever the endpoints
        // answered.
        queue_wf(old(in_bufs)@, *old(sent_pos) as int) ==> queue_wf(
            final(in_bufs)@,
            *final(sent_pos) as int,
        ),
        queue_wf(old(out_bufs)@, *old(wrote_pos) as int) ==> queue_wf(
            final(out_bufs)@,
            *final(wrote_pos) as int,
        ),
        // A failure comes only from an endpoint that answered fatally;
        // would-block answers never propagate.
        r matches Err(_) ==> {
            ||| final(stdin).last_read() == Some(Err::<usize, IoFailure>(IoFailure::Fatal))
            ||| final(sock).last_read() == Some(Err::<usize, IoFailure>(IoFailure::Fatal))
            ||| final(sock).last_write() == Some(Err::<usize, IoFailure>(IoFailure::Fatal))
            ||| final(stdout).last_write() == Some(Err::<usize, IoFailure>(IoFailure::Fatal))
        },
        match r {
            Ok(actions) => {
                &&& final(sock_interest).fixed_readable == old(sock_interest).fixed_readable
                &&& final(out_interest).fixed_readable == old(out_interest).fixed_readable
                &&& final(sock_interest).registered() == desired_interest(
                    old(sock_interest).fixed_readable,
                    final(in_bufs)@.len() == 0,
                )
                &&& final(out_interest).registered() == desired_interest(
                    old(out_interest).fixed_readable,
                    final(out_bufs)@.len() == 0,
                )
                &&& (actions.sock_register is Some <==> old(sock_interest).registered_writable == (
                final(in_bufs)@.len() == 0))
                &&& (actions.out_register is Some <==> old(out_interest).registered_writable == (
                final(out_bufs)@.len() == 0))
                &&& match actions.sock_register {
                    Some(s) => s == final(sock_interest).registered(),
                    None => true,
                }
                &&& match actions.out_register {
                    Some(s) => s == final(out_interest).registered(),
                    None => true,
                }
            },
            Err(e) => e == RelayError::IoError,
        },
{
    let ghost in_bufs0 = in_bufs@;
    let ghost out_bufs0 = out_bufs@;
    let ghost pos0 = *sent_pos as int;
    let ghost wpos0 = *wrote_pos as int;

    if stdin_readable {
        match read_line(stdin, in_bufs) {
            Ok(_) => {},
            Err(e) => {
                proof {
                    lemma_gained_refl(old(stdin).sourced());
                    lemma_gained_refl(old(sock).sourced());
                    lemma_gained_refl(old(sock).sunk());
                    lemma_gained_refl(old(stdout).sunk());
                    assert(sock.sunk() + pending(in_bufs@, *sent_pos as int) =~= old(sock).sunk()
                        + pending(in_bufs0, pos0) + gained(old(stdin).sourced(), stdin.sourced()));
                    assert(stdout.sunk() + pending(out_bufs@, *wrote_pos as int) =~= old(
                        stdout,
                    ).sunk() + pending(out_bufs0, wpos0) + gained(
                        old(sock).sourced(),
                        sock.sourced(),
                    ));
                }
                return Err(e);
            },
        }
    }
    proof {
        assert(in_bufs@.take(in_bufs0.len() as int) =~= in_bufs0);
        lemma_pending_extend(in_bufs0, in_bufs@, pos0);
        if queue_wf(in_bufs0, pos0) {
            lemma_queue_wf_extend(in_bufs0, in_bufs@, pos0);
        }
        if !stdin_readable {
            lemma_gained_refl(old(stdin).sourced());
        }
        assert(queued(in_bufs@) =~= queued(in_bufs0) + gained(
            old(stdin).sourced(),
            stdin.sourced(),
        ));
        assert(queued(in_bufs@).skip(queued(in_bufs0).len() as int) =~= gained(
            old(stdin).sourced(),
            stdin.sourced(),
        ));
        assert(pending(in_bufs@, pos0) =~= pending(in_bufs0, pos0) + gained(
            old(stdin).sourced(),
            stdin.sourced(),
        ));
    }

    if sock_readable {
        match read(sock, out_bufs) {
            Ok(_) => {},
            Err(e) => {
                proof {
                    lemma_gained_refl(old(stdout).sunk());
                    assert(out_bufs@.take(out_bufs0.len() as int) =~= out_bufs0);
                    lemma_pending_extend(out_bufs0, out_bufs@, wpos0);
                    if queue_wf(out_bufs0, wpos0) {
                        lemma_queue_wf_extend(out_bufs0, out_bufs@, wpos0);
                    }
                    assert(queued(out_bufs@).skip(queued(out_bufs0).len() as int) =~= gained(
                        old(sock).sourced(),
                        sock.sourced(),
                    ));
                    assert(sock.sunk() + pending(in_bufs@, *sent_pos as int) =~= old(sock).sunk()
                        + pending(in_bufs0, pos0) + gained(old(stdin).sourced(), stdin.sourced()));
                    assert(stdout.sunk() + pending(out_bufs@, *wrote_pos as int) =~= old(
                        stdout,
                    ).sunk() + pending(out_bufs0, wpos0) + gained(
                        old(sock).sourced(),
                        sock.sourced(),
                    ));
                }
                return Err(e);
            },
        }
    }
    proof {
        assert(out_bufs@.take(out_bufs0.len() as int) =~= out_bufs0);
        lemma_pending_extend(out_bufs0, out_bufs@, wpos0);
        if queue_wf(out_bufs0, wpos0) {
            lemma_queue_wf_extend(out_bufs0, out_bufs@, wpos0);
        }
        if !sock_readable {
            lemma_gained_refl(old(sock).sourced());
        }
        assert(queued(out_bufs@) =~= queued(out_bufs0) + gained(
            old(sock).sourced(),
            sock.sourced(),
        ));
        assert(queued(out_bufs@).skip(queued(out_bufs0).len() as int) =~= gained(
            old(sock).sourced(),
            sock.sourced(),
        ));
        assert(pending(out_bufs@, wpos0) =~= pending(out_bufs0, wpos0) + gained(
            old(sock).sourced(),
            sock.sourced(),
        ));
        lemma_gained_refl(old(sock).sunk());
        lemma_gained_refl(old(stdout).sunk());
    }

    let ghost gin = gained(old(stdin).sourced(), stdin.sourced());
    let ghost gsock = gained(old(sock).sourced(), sock.sourced());

    match crate::pump::write(sock, in_bufs, sent_pos) {
        Ok(_) => {
            proof {
                assert(sock.sunk() + pending(in_bufs@, *sent_pos as int) =~= old(sock).sunk()
                    + pending(in_bufs0, pos0) + gin);
            }
        },
        Err(e) => {
            proof {
                assert(sock.sunk() + pending(in_bufs@, *sent_pos as int) =~= old(sock).sunk()
                    + pending(in_bufs0, pos0) + gin);
                assert(stdout.sunk() + pending(out_bufs@, *wrote_pos as int) =~= old(stdout).sunk()
                    + pending(out_bufs0, wpos0) + gsock);
            }
            return Err(e);
        },
    }
    let sock_register = sock_interest.update(in_bufs.len() == 0);

    match crate::pump::write(stdout, out_bufs, wrote_pos) {
        Ok(_) => {
            proof {
                assert(stdout.sunk() + pending(out_bufs@, *wrote_pos as int) =~= old(stdout).sunk()
                    + pending(out_bufs0, wpos0) + gsock);
            }
        },
        Err(e) => {
            proof {
                assert(stdout.sunk() + pending(out_bufs@, *wrote_pos as int) =~= old(stdout).sunk()
                    + pending(out_bufs0, wpos0) + gsock);
            }
            return Err(e);
        },
    }
    let out_register = out_interest.update(out_bufs.len() == 0);

    Ok(StepActions { sock_register, out_register })
}

/// Order preservation, for either pipeline (standard input to socket, and
/// symmetrically socket to standard output): if, before an iteration, the
/// destination had absorbed exactly the source's output minus the backlog
/// still pending, then the same holds after the iteration — so at every
/// moment the destination has absorbed a prefix of the source's output, in
/// order, with no duplication or loss, whatever the endpoints answered.
/// The premises are exactly what `step` ensures of each pipeline.
pub proof fn lemma_step_order_preservation(
    sunk0: Seq<u8>,
    pend0: Seq<u8>,
    sourced0: Seq<u8>,
    sunk1: Seq<u8>,
    pend1: Seq<u8>,
    sourced1: Seq<u8>,
)
    requires
        sunk0 + pend0 == sourced0,
        sourced0.is_prefix_of(sourced1),
        sunk1 + pend1 == sunk0 + pend0 + gained(sourced0, sourced1),
    ensures
        sunk1 + pend1 == sourced1,
        sunk1.is_prefix_of(sourced1),
{
    assert(sourced0 + gained(sourced0, sourced1) =~= sourced1);
    assert(sunk1 + pend1 =~= sourced1);
    assert(sourced1.take(sunk1.len() as int) =~= sunk1);
}

/// Backpressure correctness: a write pump call turns an absorbed history
/// `sunk0` and backlog `pend0` into `sunk1` and `pend1` with the
/// conservation property below (its ensures).  Then a blocked destination
/// — one that absorbed nothing — leaves the backlog exactly as it was, no
/// byte dropped; and whenever the backlog fully drains, the destination
/// has absorbed exactly the old backlog, appended in its original order.
pub proof fn lemma_backpressure(sunk0: Seq<u8>, pend0: Seq<u8>, sunk1: Seq<u8>, pend1: Seq<u8>)
    requires
        sunk0.is_prefix_of(sunk1),
        sunk1 + pend1 == sunk0 + pend0,
    ensures
        sunk1 == sunk0 ==> pend1 == pend0,
        pend1.len() == 0 ==> sunk1 == sunk0 + pend0,
{
    if sunk1 == sunk0 {
        assert((sunk1 + pend1).len() == sunk1.len() + pend1.len());
        assert((sunk0 + pend0).len() == sunk0.len() + pend0.len());
        assert(pend1.len() == pend0.len());
        assert forall|i: int| 0 <= i < pend1.len() implies pend1[i] == pend0[i] by {
            assert(pend1[i] == (sunk1 + pend1)[sunk1.len() + i]);
            assert(pend0[i] == (sunk0 + pend0)[sunk0.len() + i]);
        }
        assert(pend1 =~= pend0);
    }
    if pend1.len() == 0 {
        assert(sunk1 =~= sunk0 + pend0);
    }
}

} // verus!
