use std::collections::VecDeque;

use mio_echo_client::connector::{connect_outcome, connect_phase_interest};
use mio_echo_client::interest::{EndpointInterest, InterestSet};
use mio_echo_client::mem::{EchoSock, MemSink, MemSource, SinkStep, TailSignal};
use mio_echo_client::pump;
use mio_echo_client::step::step;
use mio_echo_client::RelayError;

fn chunk_queue(chunks: &[&[u8]]) -> VecDeque<Vec<u8>> {
    let mut q = VecDeque::new();
    for c in chunks {
        q.push_back(c.to_vec());
    }
    q
}

#[test]
fn partial_write_resumes_without_resending() {
    // A 1024-byte chunk, a destination that accepts only 600 bytes first:
    // the next successful write must send exactly the remaining 424 bytes.
    let chunk: Vec<u8> = (0..1024u32).map(|i| (i % 251) as u8).collect();
    let mut bufs = VecDeque::new();
    bufs.push_back(chunk.clone());
    let mut pos: usize = 0;
    let mut sink = MemSink::new(vec![SinkStep::Accept(600), SinkStep::Accept(usize::MAX)]);

    let r = pump::write(&mut sink, &mut bufs, &mut pos);
    assert_eq!(r, Ok(1024));
    assert_eq!(sink.bytes().as_slice(), chunk.as_slice());
    assert!(bufs.is_empty());
    assert_eq!(pos, 0);
}

#[test]
fn partial_write_blocked_midway_keeps_cursor() {
    let chunk: Vec<u8> = (0..1024u32).map(|i| (i % 251) as u8).collect();
    let mut bufs = VecDeque::new();
    bufs.push_back(chunk.clone());
    let mut pos: usize = 0;
    let mut sink = MemSink::new(vec![SinkStep::Accept(600), SinkStep::Block]);

    let r = pump::write(&mut sink, &mut bufs, &mut pos);
    assert_eq!(r, Ok(600));
    assert_eq!(sink.bytes().as_slice(), &chunk[..600]);
    assert_eq!(bufs.len(), 1);
    assert_eq!(pos, 600);

    // Once unblocked, only the tail goes out.
    let mut sink2 = MemSink::new(vec![SinkStep::Accept(usize::MAX)]);
    let r2 = pump::write(&mut sink2, &mut bufs, &mut pos);
    assert_eq!(r2, Ok(424));
    assert_eq!(sink2.bytes().as_slice(), &chunk[600..]);
    assert!(bufs.is_empty());
    assert_eq!(pos, 0);
}

#[test]
fn write_pump_on_empty_queue_is_a_noop() {
    let mut bufs: VecDeque<Vec<u8>> = VecDeque::new();
    let mut pos: usize = 0;
    let mut sink = MemSink::new(vec![SinkStep::Accept(usize::MAX)]);

    let r = pump::write(&mut sink, &mut bufs, &mut pos);
    assert_eq!(r, Ok(0));
    assert!(sink.bytes().is_empty());
    assert!(bufs.is_empty());
    assert_eq!(pos, 0);
}

#[test]
fn blocked_destination_drops_nothing_and_drains_in_order() {
    let mut bufs = chunk_queue(&[b"first ", b"second ", b"third"]);
    let mut pos: usize = 0;

    let mut blocked = MemSink::new(vec![SinkStep::Block]);
    let r = pump::write(&mut blocked, &mut bufs, &mut pos);
    assert_eq!(r, Ok(0));
    assert!(blocked.bytes().is_empty());
    assert_eq!(bufs.len(), 3);
    assert_eq!(pos, 0);

    let mut open = MemSink::new(vec![
        SinkStep::Accept(usize::MAX),
        SinkStep::Accept(usize::MAX),
        SinkStep::Accept(usize::MAX),
    ]);
    let r2 = pump::write(&mut open, &mut bufs, &mut pos);
    assert_eq!(r2, Ok(18));
    assert_eq!(open.bytes().as_slice(), b"first second third");
    assert!(bufs.is_empty());
}

#[test]
fn refusing_sink_leaves_everything_untouched() {
    // A sink whose script is exhausted refuses every write: the queue, the
    // cursor and the sink keep their exact state, and no error is raised.
    let mut bufs = chunk_queue(&[b"abc", b"def"]);
    let mut pos: usize = 1;
    let mut sink = MemSink::new(vec![]);
    let r = pump::write(&mut sink, &mut bufs, &mut pos);
    assert_eq!(r, Ok(0));
    assert!(sink.bytes().is_empty());
    assert_eq!(bufs.len(), 2);
    assert_eq!(bufs[0].as_slice(), b"abc");
    assert_eq!(pos, 1);
}

#[test]
fn unfailing_sink_write_returns_ok() {
    // The proven corollary: a sink that never answers fatally cannot turn
    // the pump into an error, blocked or not.
    let mut bufs = chunk_queue(&[b"abc", b"def"]);
    let mut pos: usize = 0;
    let mut sink = MemSink::new(vec![SinkStep::Accept(4), SinkStep::Block]);
    let r = mio_echo_client::mem::write_to_unfailing_sink(&mut sink, &mut bufs, &mut pos);
    assert!(r.is_ok());
    assert_eq!(r, Ok(3));
    sink.recall_scripted();
    assert_eq!(sink.bytes().as_slice(), b"abc");
    assert_eq!(bufs.len(), 1);
    assert_eq!(pos, 0);
}

#[test]
fn write_pump_propagates_fatal_errors() {
    let mut bufs = chunk_queue(&[b"abc"]);
    let mut pos: usize = 0;
    let mut sink = MemSink::new(vec![SinkStep::Fail]);
    let r = pump::write(&mut sink, &mut bufs, &mut pos);
    assert_eq!(r, Err(RelayError::IoError));
    assert_eq!(bufs.len(), 1);
}

#[test]
fn read_pump_drains_until_would_block_in_order() {
    let mut src = MemSource::new(vec![b"hello ".to_vec(), b"world".to_vec()], TailSignal::Block);
    let mut bufs: VecDeque<Vec<u8>> = VecDeque::new();
    let r = pump::read(&mut src, &mut bufs);
    assert_eq!(r, Ok(11));
    assert_eq!(bufs.len(), 2);
    assert_eq!(bufs[0].as_slice(), b"hello ");
    assert_eq!(bufs[1].as_slice(), b"world");
}

#[test]
fn read_pump_zero_read_appends_nothing() {
    let mut src = MemSource::new(vec![], TailSignal::Eof);
    let mut bufs: VecDeque<Vec<u8>> = VecDeque::new();
    let r = pump::read(&mut src, &mut bufs);
    assert_eq!(r, Ok(0));
    assert!(bufs.is_empty());
}

#[test]
fn read_pump_propagates_fatal_errors() {
    let mut src = MemSource::new(vec![b"kept".to_vec()], TailSignal::Fail);
    let mut bufs: VecDeque<Vec<u8>> = VecDeque::new();
    let r = pump::read(&mut src, &mut bufs);
    assert_eq!(r, Err(RelayError::IoError));
    // What was read before the failure stays queued.
    assert_eq!(bufs.len(), 1);
    assert_eq!(bufs[0].as_slice(), b"kept");
}

#[test]
fn read_line_reads_at_most_once_per_wake() {
    let mut src = MemSource::new(vec![b"abc".to_vec(), b"def".to_vec()], TailSignal::Block);
    let mut bufs: VecDeque<Vec<u8>> = VecDeque::new();

    let r = pump::read_line(&mut src, &mut bufs);
    assert_eq!(r, Ok(3));
    assert_eq!(bufs.len(), 1);
    assert_eq!(bufs[0].as_slice(), b"abc");

    let r2 = pump::read_line(&mut src, &mut bufs);
    assert_eq!(r2, Ok(3));
    assert_eq!(bufs.len(), 2);
    assert_eq!(bufs[1].as_slice(), b"def");

    // Exhausted: a would-block answer is not an error and appends nothing.
    let r3 = pump::read_line(&mut src, &mut bufs);
    assert_eq!(r3, Ok(0));
    assert_eq!(bufs.len(), 2);
}

#[test]
fn read_line_zero_read_appends_no_chunk() {
    let mut src = MemSource::new(vec![Vec::new()], TailSignal::Block);
    let mut bufs: VecDeque<Vec<u8>> = VecDeque::new();
    let r = pump::read_line(&mut src, &mut bufs);
    assert_eq!(r, Ok(0));
    assert!(bufs.is_empty());
}

#[test]
fn connect_times_out_without_signal() {
    let r = connect_outcome(false);
    assert_eq!(r, Err(RelayError::ConnectionTimeout));
    assert_eq!(RelayError::ConnectionTimeout.message(), "connection timeout");
}

#[test]
fn connect_switches_to_steady_interest_on_signal() {
    let pre = connect_phase_interest();
    assert_eq!(pre, InterestSet { readable: false, writable: true });
    let r = connect_outcome(true);
    assert_eq!(r, Ok(InterestSet { readable: true, writable: false }));
}

#[test]
fn interest_reregisters_exactly_on_emptiness_transitions() {
    let mut sock = EndpointInterest::new(true);
    // Queue became non-empty: subscribe to writable as well.
    assert_eq!(sock.update(false), Some(InterestSet { readable: true, writable: true }));
    // No transition: no re-registration.
    assert_eq!(sock.update(false), None);
    // Queue drained: back to read-only interest.
    assert_eq!(sock.update(true), Some(InterestSet { readable: true, writable: false }));
    assert_eq!(sock.update(true), None);

    let mut out = EndpointInterest::new(false);
    assert_eq!(out.update(false), Some(InterestSet { readable: false, writable: true }));
    assert_eq!(out.update(true), Some(InterestSet { readable: false, writable: false }));
}

#[test]
fn echo_round_trip_hello() {
    // A loopback echo peer: bytes sent to standard input come back out on
    // standard output, byte for byte.
    let mut stdin = MemSource::new(vec![b"hello\n".to_vec()], TailSignal::Block);
    let mut sock = EchoSock::new(16);
    let mut stdout = MemSink::new(vec![
        SinkStep::Accept(usize::MAX),
        SinkStep::Accept(usize::MAX),
        SinkStep::Accept(usize::MAX),
    ]);

    let mut in_bufs: VecDeque<Vec<u8>> = VecDeque::new();
    let mut sent_pos: usize = 0;
    let mut sock_interest = EndpointInterest::new(true);
    let mut out_bufs: VecDeque<Vec<u8>> = VecDeque::new();
    let mut wrote_pos: usize = 0;
    let mut out_interest = EndpointInterest::new(false);

    // Standard input woke readable: the line is read and relayed to the
    // socket within the same iteration.
    let a1 = step(
        &mut stdin,
        &mut sock,
        &mut stdout,
        true,
        false,
        &mut in_bufs,
        &mut sent_pos,
        &mut sock_interest,
        &mut out_bufs,
        &mut wrote_pos,
        &mut out_interest,
    )
    .unwrap();
    assert!(in_bufs.is_empty());
    assert!(a1.sock_register.is_none());
    assert!(a1.out_register.is_none());

    // The socket woke readable with the echoed bytes: they are relayed to
    // standard output within the same iteration.
    let a2 = step(
        &mut stdin,
        &mut sock,
        &mut stdout,
        false,
        true,
        &mut in_bufs,
        &mut sent_pos,
        &mut sock_interest,
        &mut out_bufs,
        &mut wrote_pos,
        &mut out_interest,
    )
    .unwrap();
    assert!(out_bufs.is_empty());
    assert!(a2.sock_register.is_none());
    assert!(a2.out_register.is_none());

    assert_eq!(stdout.bytes().as_slice(), b"hello\n");
}

#[test]
fn interleaved_steps_preserve_order_end_to_end() {
    // Three separate writes to standard input, interleaved with socket
    // readiness: the bytes reaching standard output are their
    // concatenation, in order, with no duplication or loss.
    let mut stdin =
        MemSource::new(vec![b"ab".to_vec(), b"cd".to_vec(), b"ef".to_vec()], TailSignal::Block);
    let mut sock = EchoSock::new(16);
    let mut stdout = MemSink::new(vec![
        SinkStep::Accept(usize::MAX),
        SinkStep::Accept(usize::MAX),
        SinkStep::Accept(usize::MAX),
        SinkStep::Accept(usize::MAX),
    ]);

    let mut in_bufs: VecDeque<Vec<u8>> = VecDeque::new();
    let mut sent_pos: usize = 0;
    let mut sock_interest = EndpointInterest::new(true);
    let mut out_bufs: VecDeque<Vec<u8>> = VecDeque::new();
    let mut wrote_pos: usize = 0;
    let mut out_interest = EndpointInterest::new(false);

    for round in 0..4 {
        let stdin_readable = round < 3;
        step(
            &mut stdin,
            &mut sock,
            &mut stdout,
            stdin_readable,
            true,
            &mut in_bufs,
            &mut sent_pos,
            &mut sock_interest,
            &mut out_bufs,
            &mut wrote_pos,
            &mut out_interest,
        )
        .unwrap();
    }

    assert_eq!(stdout.bytes().as_slice(), b"abcdef");
    assert!(in_bufs.is_empty());
    assert!(out_bufs.is_empty());
}

#[test]
fn step_requests_writable_interest_while_socket_is_blocked() {
    let mut stdin = MemSource::new(vec![b"abc".to_vec()], TailSignal::Block);
    // No credits: every socket write answers would-block.
    let mut sock = EchoSock::new(0);
    let mut stdout = MemSink::new(vec![]);

    let mut in_bufs: VecDeque<Vec<u8>> = VecDeque::new();
    let mut sent_pos: usize = 0;
    let mut sock_interest = EndpointInterest::new(true);
    let mut out_bufs: VecDeque<Vec<u8>> = VecDeque::new();
    let mut wrote_pos: usize = 0;
    let mut out_interest = EndpointInterest::new(false);

    let a = step(
        &mut stdin,
        &mut sock,
        &mut stdout,
        true,
        false,
        &mut in_bufs,
        &mut sent_pos,
        &mut sock_interest,
        &mut out_bufs,
        &mut wrote_pos,
        &mut out_interest,
    )
    .unwrap();
    // The upload queue went empty -> non-empty, so the socket must be
    // re-registered with writable interest added; nothing was lost.
    assert_eq!(a.sock_register, Some(InterestSet { readable: true, writable: true }));
    assert_eq!(in_bufs.len(), 1);
    assert_eq!(in_bufs[0].as_slice(), b"abc");
    assert_eq!(sent_pos, 0);
}

#[test]
fn step_propagates_fatal_errors() {
    let mut stdin = MemSource::new(vec![], TailSignal::Fail);
    let mut sock = EchoSock::new(1);
    let mut stdout = MemSink::new(vec![]);

    let mut in_bufs: VecDeque<Vec<u8>> = VecDeque::new();
    let mut sent_pos: usize = 0;
    let mut sock_interest = EndpointInterest::new(true);
    let mut out_bufs: VecDeque<Vec<u8>> = VecDeque::new();
    let mut wrote_pos: usize = 0;
    let mut out_interest = EndpointInterest::new(false);

    let r = step(
        &mut stdin,
        &mut sock,
        &mut stdout,
        true,
        false,
        &mut in_bufs,
        &mut sent_pos,
        &mut sock_interest,
        &mut out_bufs,
        &mut wrote_pos,
        &mut out_interest,
    );
    assert_eq!(r.err(), Some(RelayError::IoError));
}

#[test]
fn short_reads_truncate_chunks_to_actual_length() {
    // A short read must yield a chunk of exactly the bytes read, never the
    // full fixed buffer size.
    let mut src = MemSource::new(vec![b"xy".to_vec()], TailSignal::Block);
    let mut bufs: VecDeque<Vec<u8>> = VecDeque::new();
    let r = pump::read(&mut src, &mut bufs);
    assert_eq!(r, Ok(2));
    assert_eq!(bufs.len(), 1);
    assert_eq!(bufs[0].len(), 2);
    assert_eq!(bufs[0].as_slice(), b"xy");
}
