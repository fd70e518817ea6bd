//! The mathematical model of a pipeline queue: a FIFO sequence of byte
//! chunks together with a write cursor into the head chunk.
//!
//! The executable queue is a `VecDeque<Vec<u8>>` plus a `usize` cursor; the
//! spec functions here say what such a pair means as a single stream of
//! bytes still to be written.

use vstd::prelude::*;

verus! {

/// All bytes held by the queue, head chunk first, in chunk order.
pub open spec fn queued(bufs: Seq<Vec<u8>>) -> Seq<u8>
    decreases bufs.len(),
{
    if bufs.len() == 0 {
        Seq::empty()
    } else {
        bufs[0]@ + queued(bufs.drop_first())
    }
}

/// The bytes still to be written: the head chunk past the cursor, then the
/// remaining chunks.  On an empty queue nothing is pending.
pub open spec fn pending(bufs: Seq<Vec<u8>>, pos: int) -> Seq<u8> {
    if bufs.len() == 0 {
        Seq::empty()
    } else {
        bufs[0]@.skip(pos) + queued(bufs.drop_first())
    }
}

/// The cursor invariant: it points into the head chunk, and is zero when
/// the queue is empty.
pub open spec fn cursor_ok(bufs: Seq<Vec<u8>>, pos: int) -> bool {
    &&& 0 <= pos
    &&& bufs.len() > 0 ==> pos <= bufs[0]@.len()
    &&& bufs.len() == 0 ==> pos == 0
}

/// Every chunk holds at least one byte: a read pump never appends an
/// empty chunk, so a relay's queues satisfy this throughout.
pub open spec fn chunks_wf(bufs: Seq<Vec<u8>>) -> bool {
    forall|i: int| 0 <= i < bufs.len() ==> #[trigger] bufs[i]@.len() >= 1
}

/// The full queue invariant: non-empty chunks, a valid cursor, and a
/// cursor strictly inside the head chunk — a fully-written head is popped
/// at once (with the cursor reset), never left to linger.
pub open spec fn queue_wf(bufs: Seq<Vec<u8>>, pos: int) -> bool {
    &&& chunks_wf(bufs)
    &&& cursor_ok(bufs, pos)
    &&& bufs.len() > 0 ==> pos < bufs[0]@.len()
}

/// Appending a chunk appends its bytes to the queued stream.
pub proof fn lemma_queued_push(bufs: Seq<Vec<u8>>, c: Vec<u8>)
    ensures
        queued(bufs.push(c)) == queued(bufs) + c@,
    decreases bufs.len(),
{
    if bufs.len() == 0 {
        assert(bufs.push(c).drop_first() =~= Seq::<Vec<u8>>::empty());
        assert(bufs.push(c)[0] == c);
        assert(queued(bufs.push(c)) == c@ + queued(Seq::<Vec<u8>>::empty()));
        assert(queued(bufs.push(c)) =~= queued(bufs) + c@);
    } else {
        assert(bufs.push(c).drop_first() =~= bufs.drop_first().push(c));
        lemma_queued_push(bufs.drop_first(), c);
        assert(queued(bufs.push(c)) =~= queued(bufs) + c@);
    }
}

/// Appending a chunk appends its bytes to the pending stream, provided the
/// cursor is valid.
pub proof fn lemma_pending_push(bufs: Seq<Vec<u8>>, pos: int, c: Vec<u8>)
    requires
        cursor_ok(bufs, pos),
    ensures
        pending(bufs.push(c), pos) == pending(bufs, pos) + c@,
{
    if bufs.len() == 0 {
        assert(bufs.push(c)[0] == c);
        assert(bufs.push(c).drop_first() =~= Seq::empty());
        assert(c@.skip(0) =~= c@);
        assert(pending(bufs.push(c), pos) =~= pending(bufs, pos) + c@);
    } else {
        assert(bufs.push(c)[0] == bufs[0]);
        assert(bufs.push(c).drop_first() =~= bufs.drop_first().push(c));
        lemma_queued_push(bufs.drop_first(), c);
        assert(pending(bufs.push(c), pos) =~= pending(bufs, pos) + c@);
    }
}

/// Advancing the cursor by `n` drops exactly `n` bytes from the front of
/// the pending stream.
pub proof fn lemma_pending_advance(bufs: Seq<Vec<u8>>, pos: int, n: int)
    requires
        bufs.len() > 0,
        0 <= pos,
        0 <= n,
        pos + n <= bufs[0]@.len(),
    ensures
        pending(bufs, pos + n) == pending(bufs, pos).skip(n),
{
    assert(bufs[0]@.skip(pos + n) =~= bufs[0]@.skip(pos).skip(n));
    assert(pending(bufs, pos + n) =~= pending(bufs, pos).skip(n));
}

/// Popping a fully-written head chunk (cursor at its end) and resetting the
/// cursor leaves the pending stream unchanged.
pub proof fn lemma_pending_pop(bufs: Seq<Vec<u8>>)
    requires
        bufs.len() > 0,
    ensures
        pending(bufs.drop_first(), 0) == pending(bufs, bufs[0]@.len() as int),
{
    assert(bufs[0]@.skip(bufs[0]@.len() as int) =~= Seq::<u8>::empty());
    if bufs.drop_first().len() == 0 {
        assert(pending(bufs.drop_first(), 0) =~= pending(bufs, bufs[0]@.len() as int));
    } else {
        let rest = bufs.drop_first();
        assert(rest[0]@.skip(0) =~= rest[0]@);
        assert(queued(rest) =~= rest[0]@ + queued(rest.drop_first()));
        assert(pending(rest, 0) =~= pending(bufs, bufs[0]@.len() as int));
    }
}

/// Appending chunks at the back (what a read pump does) keeps the cursor
/// valid and appends the new bytes to the pending stream: writes already
/// in flight are unaffected by concurrent arrivals.
pub proof fn lemma_pending_extend(b1: Seq<Vec<u8>>, b2: Seq<Vec<u8>>, pos: int)
    requires
        b1.len() <= b2.len(),
        b2.take(b1.len() as int) == b1,
        cursor_ok(b1, pos),
    ensures
        cursor_ok(b2, pos),
        queued(b1).is_prefix_of(queued(b2)),
        pending(b2, pos) == pending(b1, pos) + queued(b2).skip(queued(b1).len() as int),
    decreases b2.len() - b1.len(),
{
    if b1.len() == b2.len() {
        assert(b2 =~= b1);
        assert(queued(b2).skip(queued(b1).len() as int) =~= Seq::<u8>::empty());
        assert(pending(b2, pos) =~= pending(b1, pos) + queued(b2).skip(queued(b1).len() as int));
        assert(queued(b1).is_prefix_of(queued(b2)));
    } else {
        let b2p = b2.drop_last();
        let c = b2.last();
        assert(b2p.take(b1.len() as int) =~= b1);
        lemma_pending_extend(b1, b2p, pos);
        assert(b2 =~= b2p.push(c));
        lemma_queued_push(b2p, c);
        lemma_pending_push(b2p, pos, c);
        assert(queued(b2).skip(queued(b1).len() as int) =~= queued(b2p).skip(
            queued(b1).len() as int,
        ) + c@);
        assert(pending(b2, pos) =~= pending(b1, pos) + queued(b2).skip(queued(b1).len() as int));
        assert(queued(b1).is_prefix_of(queued(b2)));
    }
}

/// Appending well-formed chunks at the back (what a read pump does) keeps
/// the queue invariant: the head chunk and the cursor are untouched, and a
/// previously empty queue gains a non-empty head with the cursor at zero.
pub proof fn lemma_queue_wf_extend(b1: Seq<Vec<u8>>, b2: Seq<Vec<u8>>, pos: int)
    requires
        queue_wf(b1, pos),
        b2.len() >= b1.len(),
        b2.take(b1.len() as int) == b1,
        chunks_wf(b2),
    ensures
        queue_wf(b2, pos),
{
    if b2.len() > 0 && b1.len() > 0 {
        assert(b2.take(b1.len() as int)[0] == b2[0]);
        assert(b2[0] == b1[0]);
    }
}

/// Copies the first `n` bytes of `buf` into a fresh chunk.  This is the
/// short-read truncation: a read of length `n` into a fixed-size buffer
/// yields a chunk of exactly `n` bytes.
pub fn prefix_chunk(buf: &Vec<u8>, n: usize) -> (c: Vec<u8>)
    requires
        n <= buf@.len(),
    ensures
        c@ == buf@.take(n as int),
{
    let mut c: Vec<u8> = Vec::new();
    let mut i: usize = 0;
    while i < n
        invariant
            i <= n,
            n <= buf@.len(),
            c@ == buf@.take(i as int),
        decreases n - i,
    {
        c.push(buf[i]);
        proof {
            assert(buf@.take(i + 1 as int) =~= buf@.take(i as int).push(buf@[i as int]));
        }
        i = i + 1;
    }
    c
}

/// Copies the bytes of `buf` from `n` onward into a fresh chunk.
pub fn suffix_chunk(buf: &Vec<u8>, n: usize) -> (c: Vec<u8>)
    requires
        n <= buf@.len(),
    ensures
        c@ == buf@.skip(n as int),
{
    let mut c: Vec<u8> = Vec::new();
    let mut i: usize = n;
    while i < buf.len()
        invariant
            n <= i <= buf@.len(),
            c@ == buf@.subrange(n as int, i as int),
        decreases buf@.len() - i,
    {
        c.push(buf[i]);
        proof {
            assert(buf@.subrange(n as int, i + 1 as int) =~= buf@.subrange(n as int, i as int).push(
                buf@[i as int],
            ));
        }
        i = i + 1;
    }
    proof {
        assert(buf@.subrange(n as int, buf@.len() as int) =~= buf@.skip(n as int));
    }
    c
}

/// Overwrites the first `n` bytes of `buf` with the first `n` bytes of
/// `src`, leaving the rest of `buf` and its length unchanged — how a read
/// deposits bytes at the front of a caller's buffer.
pub fn refill(buf: &mut Vec<u8>, src: &Vec<u8>, n: usize)
    requires
        n <= src@.len(),
        n <= old(buf)@.len(),
    ensures
        final(buf)@.len() == old(buf)@.len(),
        final(buf)@.take(n as int) == src@.take(n as int),
        final(buf)@.skip(n as int) == old(buf)@.skip(n as int),
{
    let mut nb = prefix_chunk(src, n);
    let mut i: usize = n;
    while i < buf.len()
        invariant
            n <= i <= buf@.len(),
            buf@ == old(buf)@,
            n <= src@.len(),
            nb@ == src@.take(n as int) + buf@.subrange(n as int, i as int),
        decreases buf@.len() - i,
    {
        nb.push(buf[i]);
        proof {
            assert(src@.take(n as int) + buf@.subrange(n as int, i + 1 as int) =~= (src@.take(
                n as int,
            ) + buf@.subrange(n as int, i as int)).push(buf@[i as int]));
        }
        i = i + 1;
    }
    *buf = nb;
    proof {
        assert(buf@.take(n as int) =~= src@.take(n as int));
        assert(buf@.skip(n as int) =~= old(buf)@.skip(n as int));
    }
}

} // verus!
