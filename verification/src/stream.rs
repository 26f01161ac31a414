//! The abstract byte-stream capability that every decorator wraps and
//! provides, together with an in-memory stream for composing and testing.

use vstd::prelude::*;

verus! {

/// An error surfaced by a stream operation.
///
/// A transient interruption is not an error value: it is a separate
/// [`ReadOutcome`] variant, because the decorators absorb it internally and
/// never let it escape a public operation.
#[derive(Clone, Copy, Debug, PartialEq, Eq, Structural)]
pub enum StreamError {
    /// A strict "must deliver this many bytes" contract was violated by the
    /// end of the stream.
    UnexpectedEof,
    /// A delimiter did not appear within the allotted scan budget.
    NotFound,
    /// Any other underlying condition, passed through unchanged as a code.
    Other(u64),
}

/// What one call to [`ReadStream::read`] produced.
#[derive(Debug)]
pub enum ReadOutcome {
    /// Bytes delivered from the front of the stream, in order.
    Bytes(Vec<u8>),
    /// The stream reported end-of-stream; nothing was consumed.
    End,
    /// A transient condition; the caller should retry. Nothing was delivered,
    /// though the stream may have advanced internal bookkeeping.
    Interrupted,
    /// A non-transient failure; no bytes were lost.
    Fail(StreamError),
}

/// The readable-stream capability.
///
/// A stream is modelled by the sequence of bytes it can still deliver
/// ([`content`](ReadStream::content)). A read hands out a prefix of that
/// sequence and removes it; reporting end-of-stream, an interruption or a
/// failure leaves the sequence as it was. A stream is not obliged to deliver
/// its whole content before reporting end-of-stream (a fault injector may cut
/// it short), and end-of-stream is not a latch: a later read may deliver data
/// again.
pub trait ReadStream: Sized {
    /// The bytes this stream can still deliver, in order.
    spec fn content(&self) -> Seq<u8>;

    /// Whether a read in the current state is allowed to report
    /// end-of-stream.
    spec fn may_end(&self) -> bool;

    /// Whether any read on this stream type can ever fail. A type for which
    /// this is false owes its callers a non-[`Fail`](ReadOutcome::Fail)
    /// outcome on every call.
    spec fn may_fail() -> bool;

    /// A bound on transient interruptions: every read that reports
    /// [`Interrupted`](ReadOutcome::Interrupted) strictly decreases it, so
    /// the decorators' retry loops terminate.
    spec fn transient_budget(&self) -> nat;

    /// What one read on this implementation can do: `read_allows(pre, post,
    /// max, r)` holds of every call that found the stream in state `pre`,
    /// left it in state `post`, and produced `r`. Each implementation
    /// defines it to say exactly how its outcome follows from the state the
    /// call found; a decorator relays the wrapped type's own predicate at
    /// the request it actually forwarded, so fidelity to the wrapped stream
    /// is part of the contract and survives layering.
    spec fn read_allows(pre: Self, post: Self, max: usize, r: ReadOutcome) -> bool;

    /// Read at most `max` bytes from the front of the stream.
    fn read(&mut self, max: usize) -> (r: ReadOutcome)
        ensures
            Self::read_allows(*old(self), *final(self), max, r),
            match r {
                ReadOutcome::Bytes(v) => ({
                    &&& v@.len() <= max
                    &&& (v@.len() > 0 || max == 0)
                    &&& v@.len() <= old(self).content().len()
                    &&& v@ == old(self).content().take(v@.len() as int)
                    &&& final(self).content() == old(self).content().skip(v@.len() as int)
                }),
                ReadOutcome::End => ({
                    &&& final(self).content() == old(self).content()
                    &&& final(self).may_end()
                }),
                ReadOutcome::Interrupted => ({
                    &&& final(self).content() == old(self).content()
                    &&& final(self).transient_budget() < old(self).transient_budget()
                }),
                ReadOutcome::Fail(_) => ({
                    &&& final(self).content() == old(self).content()
                    &&& Self::may_fail()
                }),
            },
    ;
}

/// Whether `post` can follow `pre` through a finite run of reads at request
/// size `max` that all reported a transient interruption. The decorators
/// that absorb interruptions promise their final outcome in these terms: it
/// is the wrapped stream's own first non-transient outcome.
pub open spec fn interrupted_run<R: ReadStream>(pre: R, post: R, max: usize) -> bool {
    exists|chain: Seq<R>|
        {
            &&& chain.len() >= 1
            &&& chain.first() == pre
            &&& chain.last() == post
            &&& forall|i: int|
                0 <= i < chain.len() - 1 ==> R::read_allows(
                    #[trigger] chain[i],
                    chain[i + 1],
                    max,
                    ReadOutcome::Interrupted,
                )
        }
}

/// A run of no interruptions at all relates a state to itself.
pub proof fn lemma_interrupted_run_refl<R: ReadStream>(s: R, max: usize)
    ensures
        interrupted_run(s, s, max),
{
    let chain = seq![s];
    assert(chain.len() >= 1 && chain.first() == s && chain.last() == s);
    assert(forall|i: int|
        0 <= i < chain.len() - 1 ==> R::read_allows(
            #[trigger] chain[i],
            chain[i + 1],
            max,
            ReadOutcome::Interrupted,
        ));
}

/// One more interrupted read extends a run.
pub proof fn lemma_interrupted_run_step<R: ReadStream>(pre: R, mid: R, post: R, max: usize)
    requires
        interrupted_run(pre, mid, max),
        R::read_allows(mid, post, max, ReadOutcome::Interrupted),
    ensures
        interrupted_run(pre, post, max),
{
    let chain = choose|chain: Seq<R>|
        {
            &&& chain.len() >= 1
            &&& chain.first() == pre
            &&& chain.last() == mid
            &&& forall|i: int|
                0 <= i < chain.len() - 1 ==> R::read_allows(
                    #[trigger] chain[i],
                    chain[i + 1],
                    max,
                    ReadOutcome::Interrupted,
                )
        };
    let longer = chain.push(post);
    assert(longer.len() >= 1 && longer.first() == pre && longer.last() == post);
    assert(forall|i: int|
        0 <= i < longer.len() - 1 ==> R::read_allows(
            #[trigger] longer[i],
            longer[i + 1],
            max,
            ReadOutcome::Interrupted,
        ));
}

/// The bytes one read outcome delivered: a delivery's payload, nothing for
/// the other outcomes.
pub open spec fn outcome_bytes(o: ReadOutcome) -> Seq<u8> {
    match o {
        ReadOutcome::Bytes(v) => v@,
        _ => Seq::empty(),
    }
}

/// The bytes a run of read outcomes delivered, in order.
pub open spec fn outcomes_bytes(outs: Seq<ReadOutcome>) -> Seq<u8>
    decreases outs.len(),
{
    if outs.len() == 0 {
        Seq::empty()
    } else {
        outcome_bytes(outs[0]) + outcomes_bytes(outs.skip(1))
    }
}

/// Whether the chain records a run of reads: every step is an outcome that
/// a read at the recorded request size allows from the state before it.
pub open spec fn read_run<R: ReadStream>(
    chain: Seq<R>,
    outs: Seq<ReadOutcome>,
    sizes: Seq<usize>,
) -> bool {
    &&& chain.len() == outs.len() + 1
    &&& sizes.len() == outs.len()
    &&& forall|i: int|
        0 <= i < outs.len() ==> R::read_allows(chain[i], chain[i + 1], sizes[i], #[trigger] outs[i])
}

/// Whether `post` can follow `pre` through a finite run of this stream's
/// own reads that together delivered exactly `got`. The coalescing reader
/// promises its result in these terms: everything it hands out was read,
/// call by call, from the stream it wraps.
pub open spec fn delivery_run<R: ReadStream>(pre: R, post: R, got: Seq<u8>) -> bool {
    exists|chain: Seq<R>, outs: Seq<ReadOutcome>, sizes: Seq<usize>|
        {
            &&& #[trigger] read_run(chain, outs, sizes)
            &&& chain.first() == pre
            &&& chain.last() == post
            &&& outcomes_bytes(outs) == got
        }
}

/// A run of no reads at all relates a state to itself and delivers nothing.
pub proof fn lemma_delivery_run_refl<R: ReadStream>(s: R)
    ensures
        delivery_run(s, s, Seq::<u8>::empty()),
{
    let chain = seq![s];
    let outs = Seq::<ReadOutcome>::empty();
    let sizes = Seq::<usize>::empty();
    assert(read_run(chain, outs, sizes));
    assert(outcomes_bytes(outs) == Seq::<u8>::empty());
}

/// Appending one outcome appends its bytes.
proof fn lemma_outcomes_bytes_push(outs: Seq<ReadOutcome>, o: ReadOutcome)
    ensures
        outcomes_bytes(outs.push(o)) == outcomes_bytes(outs) + outcome_bytes(o),
    decreases outs.len(),
{
    if outs.len() == 0 {
        assert(outs.push(o)[0] == o);
        assert(outs.push(o).skip(1) =~= Seq::<ReadOutcome>::empty());
        assert(outcomes_bytes(outs.push(o)) == outcome_bytes(o) + outcomes_bytes(
            outs.push(o).skip(1),
        ));
        assert(outcomes_bytes(outs.push(o).skip(1)) == Seq::<u8>::empty());
        assert(outcomes_bytes(outs.push(o)) =~= outcomes_bytes(outs) + outcome_bytes(o));
    } else {
        assert(outs.push(o)[0] == outs[0]);
        assert(outs.push(o).skip(1) =~= outs.skip(1).push(o));
        lemma_outcomes_bytes_push(outs.skip(1), o);
        assert(outcomes_bytes(outs.push(o)) == outcome_bytes(outs[0]) + outcomes_bytes(
            outs.skip(1).push(o),
        ));
        assert(outcomes_bytes(outs.push(o)) == outcome_bytes(outs[0]) + (outcomes_bytes(
            outs.skip(1),
        ) + outcome_bytes(o)));
        assert(outcomes_bytes(outs) == outcome_bytes(outs[0]) + outcomes_bytes(outs.skip(1)));
        assert(outcomes_bytes(outs.push(o)) =~= outcomes_bytes(outs) + outcome_bytes(o));
    }
}

/// One more read extends a run by whatever that read delivered.
pub proof fn lemma_delivery_run_step<R: ReadStream>(
    pre: R,
    mid: R,
    post: R,
    max: usize,
    o: ReadOutcome,
    got: Seq<u8>,
)
    requires
        delivery_run(pre, mid, got),
        R::read_allows(mid, post, max, o),
    ensures
        delivery_run(pre, post, got + outcome_bytes(o)),
{
    let (chain, outs, sizes) = choose|chain: Seq<R>, outs: Seq<ReadOutcome>, sizes: Seq<usize>|
        {
            &&& #[trigger] read_run(chain, outs, sizes)
            &&& chain.first() == pre
            &&& chain.last() == mid
            &&& outcomes_bytes(outs) == got
        };
    let chain2 = chain.push(post);
    let outs2 = outs.push(o);
    let sizes2 = sizes.push(max);
    assert(chain2.first() == pre && chain2.last() == post);
    assert(forall|i: int|
        0 <= i < outs2.len() ==> R::read_allows(
            chain2[i],
            chain2[i + 1],
            sizes2[i],
            #[trigger] outs2[i],
        ));
    assert(read_run(chain2, outs2, sizes2));
    lemma_outcomes_bytes_push(outs, o);
}

/// Remove and return the first `n` bytes of `data`.
pub(crate) fn take_front(data: &mut Vec<u8>, n: usize) -> (r: Vec<u8>)
    requires
        n <= old(data)@.len(),
    ensures
        r@ == old(data)@.take(n as int),
        final(data)@ == old(data)@.skip(n as int),
{
    let mut front: Vec<u8> = Vec::new();
    let mut i: usize = 0;
    while i < n
        invariant
            i <= n,
            n <= data@.len(),
            *data == *old(data),
            front@ == data@.take(i as int),
        decreases n - i,
    {
        front.push(data[i]);
        assert(front@ =~= data@.take(i + 1 as int));
        i += 1;
    }
    let rest = data.split_off(n);
    *data = rest;
    assert(front@ =~= old(data)@.take(n as int));
    assert(data@ =~= old(data)@.skip(n as int));
    front
}

/// Return a copy of `data`.
pub(crate) fn copy_bytes(data: &Vec<u8>) -> (r: Vec<u8>)
    ensures
        r@ == data@,
{
    let mut out: Vec<u8> = Vec::new();
    let mut i: usize = 0;
    while i < data.len()
        invariant
            i <= data@.len(),
            out@ == data@.take(i as int),
        decreases data@.len() - i,
    {
        out.push(data[i]);
        assert(out@ =~= data@.take(i + 1 as int));
        i += 1;
    }
    assert(out@ =~= data@);
    out
}

/// An in-memory stream: delivers the bytes it holds, in order, and reports
/// end-of-stream exactly when none are left. Appending more bytes makes it
/// deliver data again.
pub struct Cursor {
    data: Vec<u8>,
}

impl Cursor {
    /// The bytes not yet delivered.
    pub closed spec fn remaining(&self) -> Seq<u8> {
        self.data@
    }

    pub fn new(data: Vec<u8>) -> (r: Cursor)
        ensures
            r.remaining() == data@,
    {
        Cursor { data }
    }

    /// Append one byte at the back of the stream.
    pub fn push(&mut self, byte: u8)
        ensures
            final(self).remaining() == old(self).remaining().push(byte),
    {
        self.data.push(byte);
    }
}

impl ReadStream for Cursor {
    open spec fn content(&self) -> Seq<u8> {
        self.remaining()
    }

    open spec fn may_end(&self) -> bool {
        self.remaining().len() == 0
    }

    open spec fn may_fail() -> bool {
        false
    }

    open spec fn transient_budget(&self) -> nat {
        0
    }

    /// Deterministic: end-of-stream exactly when empty, otherwise exactly
    /// the smaller of the request and what remains.
    open spec fn read_allows(pre: Cursor, post: Cursor, max: usize, r: ReadOutcome) -> bool {
        if max > 0 && pre.remaining().len() == 0 {
            &&& r is End
            &&& post == pre
        } else {
            let n = vstd::math::min(max as int, pre.remaining().len() as int);
            &&& r matches ReadOutcome::Bytes(v)
            &&& v@ == pre.remaining().take(n)
            &&& post.remaining() == pre.remaining().skip(n)
        }
    }

    fn read(&mut self, max: usize) -> (r: ReadOutcome) {
        if max > 0 && self.data.len() == 0 {
            return ReadOutcome::End;
        }
        let n = if max < self.data.len() {
            max
        } else {
            self.data.len()
        };
        let front = take_front(&mut self.data, n);
        ReadOutcome::Bytes(front)
    }
}

} // verus!
