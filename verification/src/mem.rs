//! In-memory endpoints: verified implementations of `ByteSource` and
//! `ByteSink` whose behaviour is scripted in advance.
//!
//! They exist so that the pumps and the event-loop step can be exercised
//! against every endpoint answer a real socket or stream could give —
//! short reads, zero-length reads, would-block, partial writes, hard
//! failures — without any I/O, and they demonstrate that the endpoint
//! traits are implementable.  Their contracts pin each answer to the
//! script, so scenarios can be driven by proof as well as by running.

use vstd::prelude::*;

use crate::endpoint::{ByteSink, ByteSource, Endpoint, IoFailure};
use crate::queue::{chunks_wf, cursor_ok, pending, queued, refill, suffix_chunk};
use crate::RelayError;

use std::collections::VecDeque;

verus! {

/// What a scripted source answers once its data is exhausted.
#[derive(Clone, Copy, Debug, PartialEq, Eq, Structural)]
pub enum TailSignal {
    /// A zero-length read, forever.
    Eof,
    /// Would-block, forever.
    Block,
    /// A fatal error, forever.
    Fail,
}

/// Pops the head chunk of `chunks` and deposits up to `buf`'s length of it
/// at the front of `buf`; an unread remainder goes back to the front of
/// `chunks`.  Returns how many bytes were deposited: the head chunk's
/// length or `buf`'s length, whichever is smaller.
fn take_from_chunks(chunks: &mut VecDeque<Vec<u8>>, buf: &mut Vec<u8>) -> (n: usize)
    requires
        old(chunks)@.len() > 0,
    ensures
        n as int == if old(chunks)@[0]@.len() <= old(buf)@.len() {
            old(chunks)@[0]@.len() as int
        } else {
            old(buf)@.len() as int
        },
        final(buf)@.len() == old(buf)@.len(),
        final(buf)@.skip(n as int) == old(buf)@.skip(n as int),
        final(buf)@.take(n as int) == queued(old(chunks)@).take(n as int),
        queued(final(chunks)@) == queued(old(chunks)@).skip(n as int),
        old(chunks)@[0]@.len() <= old(buf)@.len() ==> final(chunks)@ == old(chunks)@.drop_first(),
        old(chunks)@[0]@.len() > old(buf)@.len() ==> {
            &&& final(chunks)@.len() == old(chunks)@.len()
            &&& final(chunks)@.drop_first() == old(chunks)@.drop_first()
            &&& final(chunks)@[0]@ == old(chunks)@[0]@.skip(n as int)
        },
{
    let ghost chunks0 = chunks@;
    let c = match chunks.pop_front() {
        Some(c) => c,
        None => {
            proof {
                assert(false);
            }
            Vec::new()
        },
    };
    proof {
        assert(chunks@ =~= chunks0.drop_first());
    }
    let n = if c.len() <= buf.len() {
        c.len()
    } else {
        buf.len()
    };
    refill(buf, &c, n);
    proof {
        assert(queued(chunks0) == c@ + queued(chunks0.drop_first()));
        assert(queued(chunks0).take(n as int) =~= c@.take(n as int));
    }
    if n < c.len() {
        let rem = suffix_chunk(&c, n);
        chunks.push_front(rem);
        proof {
            assert(chunks@.drop_first() =~= chunks0.drop_first());
            assert(queued(chunks@) == rem@ + queued(chunks0.drop_first()));
            assert(queued(chunks@) =~= queued(chunks0).skip(n as int));
        }
    } else {
        proof {
            assert(queued(chunks@) =~= queued(chunks0).skip(n as int));
        }
    }
    n
}

/// A scripted readable endpoint: hands out its chunks in order, one read
/// answering at most one chunk (a short chunk scripts a short read, an
/// empty chunk a zero-length read), then answers its tail signal forever.
pub struct MemSource {
    chunks: VecDeque<Vec<u8>>,
    tail: TailSignal,
    hist: Ghost<Seq<u8>>,
    roff: Ghost<Seq<nat>>,
    rans: Ghost<Seq<Result<usize, IoFailure>>>,
}

impl MemSource {
    /// The bytes this source has not yet handed out.
    pub closed spec fn remaining(&self) -> Seq<u8> {
        queued(self.chunks@)
    }

    /// The chunks this source has not yet handed out, in order.
    pub closed spec fn chunk_plan(&self) -> Seq<Seq<u8>> {
        self.chunks@.map_values(|c: Vec<u8>| c@)
    }

    /// What this source answers once its chunks are exhausted.
    pub closed spec fn tail_plan(&self) -> TailSignal {
        self.tail
    }

    /// A source that will hand out `chunks` in order, then answer `tail`.
    pub fn new(chunks: Vec<Vec<u8>>, tail: TailSignal) -> (r: MemSource)
        ensures
            r.sourced() == Seq::<u8>::empty(),
            r.remaining() == queued(chunks@),
            r.chunk_plan() == chunks@.map_values(|c: Vec<u8>| c@),
            r.tail_plan() == tail,
    {
        let ghost target = chunks@;
        let mut q: VecDeque<Vec<u8>> = VecDeque::new();
        let mut rest = chunks;
        proof {
            assert(q@ + rest@ =~= target);
        }
        while rest.len() > 0
            invariant
                q@ + rest@ =~= target,
            decreases rest@.len(),
        {
            let c = rest.remove(0);
            q.push_back(c);
            proof {
                assert(q@ + rest@ =~= target);
            }
        }
        proof {
            assert(q@ =~= target);
        }
        MemSource {
            chunks: q,
            tail,
            hist: Ghost(Seq::empty()),
            roff: Ghost(Seq::empty()),
            rans: Ghost(Seq::empty()),
        }
    }
}

impl Endpoint for MemSource {
    type Setup = TailSignal;

    closed spec fn setup(&self) -> TailSignal {
        self.tail
    }

    closed spec fn sourced(&self) -> Seq<u8> {
        self.hist@
    }

    closed spec fn sunk(&self) -> Seq<u8> {
        Seq::empty()
    }

    closed spec fn read_budget(&self) -> nat {
        queued(self.chunks@).len()
    }

    closed spec fn write_budget(&self) -> nat {
        0
    }

    closed spec fn read_offers(&self) -> Seq<nat> {
        self.roff@
    }

    closed spec fn read_answers(&self) -> Seq<Result<usize, IoFailure>> {
        self.rans@
    }

    closed spec fn last_read(&self) -> Option<Result<usize, IoFailure>> {
        if self.rans@.len() == 0 {
            None
        } else {
            Some(self.rans@.last())
        }
    }
}

impl ByteSource for MemSource {
    fn read(&mut self, buf: &mut Vec<u8>) -> (r: Result<usize, IoFailure>)
        ensures
            final(self).tail_plan() == old(self).tail_plan(),
            r matches Ok(n) ==> final(self).remaining() == old(self).remaining().skip(n as int),
            // An exhausted source answers exactly its tail signal and
            // changes nothing.
            old(self).chunk_plan().len() == 0 ==> {
                &&& final(self).chunk_plan() == old(self).chunk_plan()
                &&& match old(self).tail_plan() {
                    TailSignal::Eof => r == Ok::<usize, IoFailure>(0),
                    TailSignal::Block => r == Err::<usize, IoFailure>(IoFailure::WouldBlock),
                    TailSignal::Fail => r == Err::<usize, IoFailure>(IoFailure::Fatal),
                }
            },
            // A source with chunks left answers the head chunk, as much of
            // it as the buffer holds, and keeps the rest at the front.
            old(self).chunk_plan().len() > 0 ==> (r matches Ok(n) && n as int == (
            if old(self).chunk_plan()[0].len() <= old(buf)@.len() {
                old(self).chunk_plan()[0].len() as int
            } else {
                old(buf)@.len() as int
            }) && final(self).chunk_plan() == (
            if n as int == old(self).chunk_plan()[0].len() {
                old(self).chunk_plan().drop_first()
            } else {
                seq![old(self).chunk_plan()[0].skip(n as int)] + old(self).chunk_plan().drop_first()
            })),
    {
        let ghost off = buf@.len();
        self.roff = Ghost(self.roff@.push(off));
        if self.chunks.len() == 0 {
            match self.tail {
                TailSignal::Eof => {
                    self.rans = Ghost(self.rans@.push(Ok(0)));
                    proof {
                        assert(self.hist@ =~= self.hist@ + buf@.take(0));
                        assert(self.remaining() =~= self.remaining().skip(0));
                    }
                    Ok(0)
                },
                TailSignal::Block => {
                    self.rans = Ghost(self.rans@.push(Err(IoFailure::WouldBlock)));
                    Err(IoFailure::WouldBlock)
                },
                TailSignal::Fail => {
                    self.rans = Ghost(self.rans@.push(Err(IoFailure::Fatal)));
                    Err(IoFailure::Fatal)
                },
            }
        } else {
            let ghost plan0 = self.chunk_plan();
            let n = take_from_chunks(&mut self.chunks, buf);
            self.hist = Ghost(self.hist@ + buf@.take(n as int));
            self.rans = Ghost(self.rans@.push(Ok(n)));
            proof {
                assert(plan0[0] == old(self).chunks@[0]@);
                if n as int == plan0[0].len() {
                    assert(self.chunk_plan() =~= plan0.drop_first());
                } else {
                    let target = seq![plan0[0].skip(n as int)] + plan0.drop_first();
                    assert forall|i: int| 0 <= i < self.chunk_plan().len() implies self
                        .chunk_plan()[i] == target[i] by {
                        if i > 0 {
                            assert(self.chunks@[i] == self.chunks@.drop_first()[i - 1]);
                            assert(self.chunks@.drop_first()[i - 1] == old(
                                self,
                            ).chunks@.drop_first()[i - 1]);
                            assert(plan0.drop_first()[i - 1] == plan0[i]);
                        }
                    }
                    assert(self.chunk_plan() =~= target);
                }
            }
            Ok(n)
        }
    }
}

/// One scripted answer of a `MemSink`.
#[derive(Clone, Copy, Debug, PartialEq, Eq, Structural)]
pub enum SinkStep {
    /// Absorb up to this many bytes of the offered buffer.
    Accept(usize),
    /// Answer would-block.
    Block,
    /// Answer a fatal error.
    Fail,
}

/// What a scripted sink answers to one write: the scripted step applied to
/// the offered bytes, or would-block once the script is exhausted (`None`).
pub open spec fn scripted_answer(
    step: Option<SinkStep>,
    offer: Seq<u8>,
    answer: Result<usize, IoFailure>,
) -> bool {
    match step {
        None => answer == Err::<usize, IoFailure>(IoFailure::WouldBlock),
        Some(SinkStep::Accept(k)) => (answer matches Ok(n) && n as int == (
        if k <= offer.len() {
            k as int
        } else {
            offer.len() as int
        })),
        Some(SinkStep::Block) => answer == Err::<usize, IoFailure>(IoFailure::WouldBlock),
        Some(SinkStep::Fail) => answer == Err::<usize, IoFailure>(IoFailure::Fatal),
    }
}

/// A scripted writable endpoint: each write consumes the next step of the
/// script; an exhausted script answers would-block forever.  Everything it
/// ever absorbs is kept, in order.
pub struct MemSink {
    accepted: Vec<u8>,
    script: Vec<SinkStep>,
    used: usize,
    woff: Ghost<Seq<Seq<u8>>>,
    wans: Ghost<Seq<Result<usize, IoFailure>>>,
}

impl MemSink {
    /// The scripted answers not yet given, in order.
    pub closed spec fn plan(&self) -> Seq<SinkStep> {
        if self.used <= self.script@.len() {
            self.script@.skip(self.used as int)
        } else {
            Seq::empty()
        }
    }

    /// The whole script this sink was built with.
    pub closed spec fn full_plan(&self) -> Seq<SinkStep> {
        self.script@
    }

    /// The honesty invariant: the sink has consumed exactly one script
    /// step per recorded write, and each answer is that step applied to
    /// that write's offer (would-block once the script ran out).  It holds
    /// of every `MemSink` at all times, so a caller may recover it
    /// (`recall_scripted`) even after handing the sink to generic code.
    #[verifier::type_invariant]
    closed spec fn scripted(self) -> bool {
        &&& self.wans@.len() == self.woff@.len()
        &&& self.used as int == if self.wans@.len() <= self.script@.len() {
            self.wans@.len() as int
        } else {
            self.script@.len() as int
        }
        &&& forall|i: int|
            0 <= i < self.wans@.len() ==> scripted_answer(
                if i < self.script@.len() {
                    Some(self.script@[i])
                } else {
                    None
                },
                self.woff@[i],
                #[trigger] self.wans@[i],
            )
    }

    /// Every answer this sink has ever given follows its script: answer
    /// `i` is script step `i` applied to offer `i` (would-block once the
    /// script ran out), and the most recent answer is the last recorded
    /// one.  Recovers the honesty invariant for a caller that handed the
    /// sink to generic code, such as a write pump.
    pub fn recall_scripted(&self)
        ensures
            self.write_answers().len() == self.write_offers().len(),
            forall|i: int|
                0 <= i < self.write_answers().len() ==> scripted_answer(
                    if i < self.full_plan().len() {
                        Some(self.full_plan()[i])
                    } else {
                        None
                    },
                    self.write_offers()[i],
                    #[trigger] self.write_answers()[i],
                ),
            self.last_write() == (if self.write_answers().len() == 0 {
                None
            } else {
                Some(self.write_answers().last())
            }),
    {
        proof {
            use_type_invariant(self);
        }
    }

    /// A sink that will answer the steps of `script` in order.
    pub fn new(script: Vec<SinkStep>) -> (r: MemSink)
        ensures
            r.sunk() == Seq::<u8>::empty(),
            r.plan() == script@,
            r.full_plan() == script@,
            r.write_offers() == Seq::<Seq<u8>>::empty(),
            r.write_budget() == script@.len(),
    {
        let r = MemSink {
            accepted: Vec::new(),
            script,
            used: 0,
            woff: Ghost(Seq::empty()),
            wans: Ghost(Seq::empty()),
        };
        proof {
            assert(r.plan() =~= r.script@);
        }
        r
    }

    /// Every byte this sink has absorbed, in order.
    pub fn bytes(&self) -> (r: &Vec<u8>)
        ensures
            r@ == self.sunk(),
    {
        &self.accepted
    }
}

impl Endpoint for MemSink {
    type Setup = Seq<SinkStep>;

    closed spec fn setup(&self) -> Seq<SinkStep> {
        self.script@
    }

    closed spec fn sourced(&self) -> Seq<u8> {
        Seq::empty()
    }

    closed spec fn sunk(&self) -> Seq<u8> {
        self.accepted@
    }

    closed spec fn read_budget(&self) -> nat {
        0
    }

    closed spec fn write_budget(&self) -> nat {
        self.plan().len()
    }

    closed spec fn write_offers(&self) -> Seq<Seq<u8>> {
        self.woff@
    }

    closed spec fn write_answers(&self) -> Seq<Result<usize, IoFailure>> {
        self.wans@
    }

    closed spec fn last_write(&self) -> Option<Result<usize, IoFailure>> {
        if self.wans@.len() == 0 {
            None
        } else {
            Some(self.wans@.last())
        }
    }
}

impl ByteSink for MemSink {
    fn write(&mut self, buf: &[u8]) -> (r: Result<usize, IoFailure>)
        ensures
            old(self).plan().len() == 0 ==> {
                &&& r == Err::<usize, IoFailure>(IoFailure::WouldBlock)
                &&& final(self).plan() == old(self).plan()
            },
            // Each write consumes the next step and answers exactly it.
            old(self).plan().len() > 0 ==> {
                &&& final(self).plan() == old(self).plan().drop_first()
                &&& match old(self).plan()[0] {
                    SinkStep::Accept(k) => (r matches Ok(n) && n as int == (
                    if k <= buf@.len() {
                        k as int
                    } else {
                        buf@.len() as int
                    })),
                    SinkStep::Block => r == Err::<usize, IoFailure>(IoFailure::WouldBlock),
                    SinkStep::Fail => r == Err::<usize, IoFailure>(IoFailure::Fatal),
                }
            },
    {
        proof {
            use_type_invariant(&*self);
        }
        let slen = self.script.len();
        let in_script = self.used < slen;
        let ans: Result<usize, IoFailure>;
        let mut acc = crate::queue::prefix_chunk(&self.accepted, self.accepted.len());
        if in_script {
            let step = self.script[self.used];
            proof {
                assert(old(self).plan()[0] == step);
                assert(self.script@.skip(self.used as int).drop_first() =~= self.script@.skip(
                    self.used + 1 as int,
                ));
            }
            match step {
                SinkStep::Accept(k) => {
                    let n = if k <= buf.len() {
                        k
                    } else {
                        buf.len()
                    };
                    let mut part = vstd::slice::slice_to_vec(
                        vstd::slice::slice_subrange(buf, 0, n),
                    );
                    acc.append(&mut part);
                    proof {
                        assert(acc@ =~= old(self).accepted@ + buf@.take(n as int));
                    }
                    ans = Ok(n);
                },
                SinkStep::Block => {
                    ans = Err(IoFailure::WouldBlock);
                },
                SinkStep::Fail => {
                    ans = Err(IoFailure::Fatal);
                },
            }
        } else {
            ans = Err(IoFailure::WouldBlock);
        }
        let mut sc: Vec<SinkStep> = Vec::new();
        let mut i: usize = 0;
        while i < slen
            invariant
                i <= slen,
                slen == self.script@.len(),
                sc@ == self.script@.take(i as int),
            decreases slen - i,
        {
            sc.push(self.script[i]);
            proof {
                assert(self.script@.take(i + 1 as int) =~= self.script@.take(i as int).push(
                    self.script@[i as int],
                ));
            }
            i = i + 1;
        }
        proof {
            assert(sc@ =~= self.script@);
        }
        let new_used = if in_script {
            self.used + 1
        } else {
            self.used
        };
        let ghost woff1 = self.woff@.push(buf@);
        let ghost wans1 = self.wans@.push(ans);
        *self = MemSink {
            accepted: acc,
            script: sc,
            used: new_used,
            woff: Ghost(woff1),
            wans: Ghost(wans1),
        };
        ans
    }
}

/// The write pump against a scripted sink whose script holds no `Fail`
/// step never returns an error: every would-block answer is swallowed
/// into the `Ok` result, and the conservation guarantee carries over.
/// This is derived purely from the pump's contract, the setup frame and
/// the sink's honesty invariant — no new code runs beyond the pump call.
pub fn write_to_unfailing_sink(
    sink: &mut MemSink,
    bufs: &mut VecDeque<Vec<u8>>,
    pos: &mut usize,
) -> (r: Result<usize, RelayError>)
    requires
        cursor_ok(old(bufs)@, *old(pos) as int),
        forall|i: int|
            0 <= i < old(sink).full_plan().len() ==> old(sink).full_plan()[i] != SinkStep::Fail,
    ensures
        r is Ok,
        final(sink).sunk() + pending(final(bufs)@, *final(pos) as int) == old(sink).sunk()
            + pending(old(bufs)@, *old(pos) as int),
        old(sink).sunk().is_prefix_of(final(sink).sunk()),
{
    let r = crate::pump::write(sink, bufs, pos);
    sink.recall_scripted();
    proof {
        assert(sink.full_plan() == old(sink).full_plan());
        if r matches Err(_) {
            let j = sink.write_answers().len() - 1;
            assert(sink.last_write() == Some(Err::<usize, IoFailure>(IoFailure::Fatal)));
            assert(sink.write_answers().len() > 0);
            assert(sink.write_answers()[j] == Err::<usize, IoFailure>(IoFailure::Fatal));
            assert(scripted_answer(
                if j < sink.full_plan().len() {
                    Some(sink.full_plan()[j])
                } else {
                    None
                },
                sink.write_offers()[j],
                sink.write_answers()[j],
            ));
            assert(false);
        }
    }
    r
}

/// A loopback echo endpoint: everything written to it is read back from
/// it, in order.  Writes are granted while it has credits; reads answer
/// would-block once everything written has been read back.  It never
/// answers a fatal error.
pub struct EchoSock {
    echoed: VecDeque<Vec<u8>>,
    credits: usize,
    taken: Ghost<Seq<u8>>,
    given: Ghost<Seq<u8>>,
    roff: Ghost<Seq<nat>>,
    rans: Ghost<Seq<Result<usize, IoFailure>>>,
    woff: Ghost<Seq<Seq<u8>>>,
    wans: Ghost<Seq<Result<usize, IoFailure>>>,
}

impl EchoSock {
    /// The echo invariant: what has been read back, followed by what is
    /// still buffered, is exactly what was written — so reads hand back
    /// written bytes in order, with nothing lost or invented — and every
    /// buffered chunk is non-empty.
    pub closed spec fn wf(&self) -> bool {
        &&& self.given@ == self.taken@ + queued(self.echoed@)
        &&& chunks_wf(self.echoed@)
    }

    /// A fresh echo endpoint granting `credits` writes.
    pub fn new(credits: usize) -> (r: EchoSock)
        ensures
            r.wf(),
            r.sourced() == Seq::<u8>::empty(),
            r.sunk() == Seq::<u8>::empty(),
            r.write_budget() == credits,
    {
        let r = EchoSock {
            echoed: VecDeque::new(),
            credits,
            taken: Ghost(Seq::empty()),
            given: Ghost(Seq::empty()),
            roff: Ghost(Seq::empty()),
            rans: Ghost(Seq::empty()),
            woff: Ghost(Seq::empty()),
            wans: Ghost(Seq::empty()),
        };
        proof {
            assert(r.given@ =~= r.taken@ + queued(r.echoed@));
        }
        r
    }

    /// Under the echo invariant, what has come back out is a prefix of
    /// what went in.
    pub proof fn lemma_echo_prefix(&self)
        requires
            self.wf(),
        ensures
            self.sourced().is_prefix_of(self.sunk()),
    {
        assert(self.given@.take(self.taken@.len() as int) =~= self.taken@);
    }
}

impl Endpoint for EchoSock {
    type Setup = ();

    closed spec fn setup(&self) -> () {
        ()
    }

    closed spec fn sourced(&self) -> Seq<u8> {
        self.taken@
    }

    closed spec fn sunk(&self) -> Seq<u8> {
        self.given@
    }

    closed spec fn read_budget(&self) -> nat {
        queued(self.echoed@).len()
    }

    closed spec fn write_budget(&self) -> nat {
        self.credits as nat
    }

    closed spec fn read_offers(&self) -> Seq<nat> {
        self.roff@
    }

    closed spec fn read_answers(&self) -> Seq<Result<usize, IoFailure>> {
        self.rans@
    }

    closed spec fn write_offers(&self) -> Seq<Seq<u8>> {
        self.woff@
    }

    closed spec fn write_answers(&self) -> Seq<Result<usize, IoFailure>> {
        self.wans@
    }

    closed spec fn last_read(&self) -> Option<Result<usize, IoFailure>> {
        if self.rans@.len() == 0 {
            None
        } else {
            Some(self.rans@.last())
        }
    }

    closed spec fn last_write(&self) -> Option<Result<usize, IoFailure>> {
        if self.wans@.len() == 0 {
            None
        } else {
            Some(self.wans@.last())
        }
    }
}

impl ByteSource for EchoSock {
    fn read(&mut self, buf: &mut Vec<u8>) -> (r: Result<usize, IoFailure>)
        ensures
            old(self).wf() ==> final(self).wf(),
            (old(self).wf() && old(self).read_budget() == 0) ==> r == Err::<usize, IoFailure>(
                IoFailure::WouldBlock,
            ),
            old(self).read_budget() > 0 ==> r is Ok,
            (old(self).wf() && old(self).read_budget() > 0 && old(buf)@.len() > 0) ==> (
            r matches Ok(n) && n > 0),
    {
        let ghost off = buf@.len();
        self.roff = Ghost(self.roff@.push(off));
        if self.echoed.len() == 0 {
            self.rans = Ghost(self.rans@.push(Err(IoFailure::WouldBlock)));
            Err(IoFailure::WouldBlock)
        } else {
            let ghost echoed0 = self.echoed@;
            let n = take_from_chunks(&mut self.echoed, buf);
            self.taken = Ghost(self.taken@ + buf@.take(n as int));
            self.rans = Ghost(self.rans@.push(Ok(n)));
            proof {
                if old(self).wf() {
                    assert(self.given@ =~= self.taken@ + queued(self.echoed@));
                    if echoed0[0]@.len() <= old(buf)@.len() {
                        assert forall|i: int| 0 <= i < self.echoed@.len() implies #[trigger] self
                            .echoed@[i]@.len() >= 1 by {
                            assert(self.echoed@[i] == echoed0[i + 1]);
                        }
                    } else {
                        assert forall|i: int| 0 <= i < self.echoed@.len() implies #[trigger] self
                            .echoed@[i]@.len() >= 1 by {
                            if i > 0 {
                                assert(self.echoed@[i] == self.echoed@.drop_first()[i - 1]);
                                assert(self.echoed@.drop_first()[i - 1] == echoed0.drop_first()[i
                                    - 1]);
                            }
                        }
                    }
                }
            }
            Ok(n)
        }
    }
}

impl ByteSink for EchoSock {
    fn write(&mut self, buf: &[u8]) -> (r: Result<usize, IoFailure>)
        ensures
            old(self).wf() ==> final(self).wf(),
            old(self).write_budget() == 0 ==> r == Err::<usize, IoFailure>(IoFailure::WouldBlock),
            old(self).write_budget() > 0 ==> (r matches Ok(n) && n == buf@.len()
                && final(self).sunk() == old(self).sunk() + buf@),
    {
        self.woff = Ghost(self.woff@.push(buf@));
        if self.credits == 0 {
            self.wans = Ghost(self.wans@.push(Err(IoFailure::WouldBlock)));
            Err(IoFailure::WouldBlock)
        } else {
            self.credits = self.credits - 1;
            let n = buf.len();
            if n > 0 {
                let chunk = vstd::slice::slice_to_vec(buf);
                let ghost echoed0 = self.echoed@;
                self.echoed.push_back(chunk);
                proof {
                    crate::queue::lemma_queued_push(echoed0, chunk);
                    if old(self).wf() {
                        assert forall|i: int| 0 <= i < self.echoed@.len() implies #[trigger] self
                            .echoed@[i]@.len() >= 1 by {
                            if i < echoed0.len() {
                                assert(self.echoed@[i] == echoed0[i]);
                            }
                        }
                    }
                }
            }
            self.given = Ghost(self.given@ + buf@);
            self.wans = Ghost(self.wans@.push(Ok(n)));
            proof {
                assert(buf@.take(buf@.len() as int) =~= buf@);
                if old(self).wf() {
                    assert(self.given@ =~= self.taken@ + queued(self.echoed@));
                }
            }
            Ok(n)
        }
    }
}

} // verus!
