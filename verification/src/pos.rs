//! Position tracking: count the bytes successfully read from a stream.

use vstd::prelude::*;

use crate::stream::delivery_run;
use crate::stream::outcome_bytes;
use crate::stream::outcomes_bytes;
use crate::stream::read_run;
use crate::stream::ReadOutcome;
use crate::stream::ReadStream;

verus! {

/// Add with saturation at the largest 64-bit value.
pub open spec fn saturating_add_u64(a: u64, b: u64) -> u64 {
    if a + b > u64::MAX {
        u64::MAX
    } else {
        (a + b) as u64
    }
}

/// The counter value after a run of reads of the given lengths, starting from
/// `start`: each read adds its length, saturating.
pub open spec fn position_after(start: u64, counts: Seq<u64>) -> u64
    decreases counts.len(),
{
    if counts.len() == 0 {
        start
    } else {
        position_after(saturating_add_u64(start, counts[0]), counts.skip(1))
    }
}

/// The total number of bytes in a run of reads.
pub open spec fn total_len(counts: Seq<u64>) -> int
    decreases counts.len(),
{
    if counts.len() == 0 {
        0
    } else {
        counts[0] + total_len(counts.skip(1))
    }
}

/// Position tracker accuracy: after any run of successful reads whose lengths
/// total `n`, with `n` within the counter's range, a counter started at zero
/// reads exactly `n` — however many calls there were and however short each
/// one was.
pub proof fn lemma_position_accuracy(counts: Seq<u64>)
    requires
        total_len(counts) <= u64::MAX,
    ensures
        position_after(0, counts) == total_len(counts),
    decreases counts.len(),
{
    lemma_total_len_nonneg(counts);
    lemma_position_after_adds(0, counts);
}

/// Generalization of the accuracy law to any starting value: as long as the
/// counter does not saturate, it advances by exactly the bytes read.
pub proof fn lemma_position_after_adds(start: u64, counts: Seq<u64>)
    requires
        start + total_len(counts) <= u64::MAX,
        0 <= total_len(counts),
    ensures
        position_after(start, counts) == start + total_len(counts),
    decreases counts.len(),
{
    lemma_total_len_nonneg(counts);
    if counts.len() > 0 {
        lemma_total_len_nonneg(counts.skip(1));
        lemma_position_after_adds(saturating_add_u64(start, counts[0]), counts.skip(1));
    }
}

/// A run of reads never delivers a negative number of bytes.
pub proof fn lemma_total_len_nonneg(counts: Seq<u64>)
    ensures
        0 <= total_len(counts),
    decreases counts.len(),
{
    if counts.len() > 0 {
        lemma_total_len_nonneg(counts.skip(1));
    }
}

/// Induction over a recorded run of reads on a tracker: each delivery adds
/// its length to the counter, everything else leaves it alone.
proof fn lemma_pos_run_count<R: ReadStream>(
    chain: Seq<Pos<R>>,
    outs: Seq<ReadOutcome>,
    sizes: Seq<usize>,
)
    requires
        read_run(chain, outs, sizes),
        chain.first().count() + outcomes_bytes(outs).len() <= u64::MAX,
    ensures
        chain.last().count() == chain.first().count() + outcomes_bytes(outs).len(),
    decreases outs.len(),
{
    if outs.len() == 0 {
        assert(chain.last() == chain.first());
        assert(outcomes_bytes(outs).len() == 0);
    } else {
        assert(Pos::<R>::read_allows(chain[0], chain[1], sizes[0], outs[0]));
        let l0 = outcome_bytes(outs[0]).len();
        assert(outcomes_bytes(outs).len() == l0 + outcomes_bytes(outs.skip(1)).len());
        match outs[0] {
            ReadOutcome::Bytes(v) => {
                assert(chain[1].count() == saturating_add_u64(
                    chain[0].count(),
                    v@.len() as u64,
                ));
                assert(v@.len() == l0);
                assert(chain[1].count() == chain[0].count() + l0);
            },
            _ => {
                assert(chain[1].count() == chain[0].count());
            },
        }
        let tail_chain = chain.skip(1);
        let tail_outs = outs.skip(1);
        let tail_sizes = sizes.skip(1);
        assert forall|i: int|
            0 <= i < tail_outs.len() implies Pos::<R>::read_allows(
            tail_chain[i],
            #[trigger] tail_chain[i + 1],
            tail_sizes[i],
            tail_outs[i],
        ) by {
            assert(Pos::<R>::read_allows(chain[i + 1], chain[i + 2], sizes[i + 1], outs[i + 1]));
        }
        assert(read_run(tail_chain, tail_outs, tail_sizes));
        lemma_pos_run_count(tail_chain, tail_outs, tail_sizes);
        assert(tail_chain.last() == chain.last());
    }
}

/// Position tracking composes with coalescing reads: after any run of this
/// tracker's own reads that together delivered `got`, within the counter's
/// range, the counter advanced by exactly `got.len()` — however many calls
/// the run took and however short each one was.
pub proof fn lemma_pos_delivery_count<R: ReadStream>(pre: Pos<R>, post: Pos<R>, got: Seq<u8>)
    requires
        delivery_run(pre, post, got),
        pre.count() + got.len() <= u64::MAX,
    ensures
        post.count() == pre.count() + got.len(),
{
    let (chain, outs, sizes) = choose|
        chain: Seq<Pos<R>>,
        outs: Seq<ReadOutcome>,
        sizes: Seq<usize>,
    |
        {
            &&& #[trigger] read_run(chain, outs, sizes)
            &&& chain.first() == pre
            &&& chain.last() == post
            &&& outcomes_bytes(outs) == got
        };
    lemma_pos_run_count(chain, outs, sizes);
}

/// Track how many bytes have been read from a stream.
///
/// The counter starts at zero, grows by exactly the number of bytes each read
/// delivers, saturates instead of wrapping, and is untouched by end-of-stream
/// reports, interruptions and errors. Purely observational: data flows
/// through unchanged.
pub struct Pos<R: ReadStream> {
    inner: R,
    position: u64,
}

impl<R: ReadStream> Pos<R> {
    /// The wrapped stream.
    pub closed spec fn source(&self) -> R {
        self.inner
    }

    /// The counter.
    pub closed spec fn count(&self) -> u64 {
        self.position
    }

    pub fn new(inner: R) -> (r: Pos<R>)
        ensures
            r.source() == inner,
            r.count() == 0,
    {
        Pos { inner, position: 0 }
    }

    /// The number of bytes successfully read from the stream.
    pub fn position(&self) -> (r: u64)
        ensures
            r == self.count(),
    {
        self.position
    }

    pub fn into_inner(self) -> (r: R)
        ensures
            r == self.source(),
    {
        self.inner
    }
}

impl<R: ReadStream> ReadStream for Pos<R> {
    open spec fn content(&self) -> Seq<u8> {
        self.source().content()
    }

    open spec fn may_end(&self) -> bool {
        self.source().may_end()
    }

    open spec fn may_fail() -> bool {
        R::may_fail()
    }

    open spec fn transient_budget(&self) -> nat {
        self.source().transient_budget()
    }

    /// Purely observational: the outcome is the wrapped stream's own, for
    /// the full request, and only the counter is added.
    open spec fn read_allows(pre: Self, post: Self, max: usize, r: ReadOutcome) -> bool {
        &&& R::read_allows(pre.source(), post.source(), max, r)
        &&& (match r {
            ReadOutcome::Bytes(v) => post.count() == saturating_add_u64(
                pre.count(),
                v@.len() as u64,
            ),
            _ => post.count() == pre.count(),
        })
    }

    /// Delegates to the wrapped stream; a successful read advances the
    /// counter by exactly the number of bytes delivered, and every other
    /// outcome leaves it untouched.
    fn read(&mut self, max: usize) -> (r: ReadOutcome)
        ensures
            match r {
                ReadOutcome::Bytes(v) => final(self).count() == saturating_add_u64(
                    old(self).count(),
                    v@.len() as u64,
                ),
                _ => final(self).count() == old(self).count(),
            },
    {
        match self.inner.read(max) {
            ReadOutcome::Bytes(v) => {
                let got = v.len() as u64;
                if self.position > u64::MAX - got {
                    self.position = u64::MAX;
                } else {
                    self.position = self.position + got;
                }
                ReadOutcome::Bytes(v)
            },
            other => other,
        }
    }
}

} // verus!
