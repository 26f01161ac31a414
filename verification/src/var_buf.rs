//! Guaranteed-fill buffering over a stream that may deliver data in
//! arbitrarily small increments, with a bounded delimiter search layered on
//! top.

use vstd::prelude::*;

use crate::stream::copy_bytes;
use crate::stream::take_front;
use crate::stream::ReadOutcome;
use crate::stream::ReadStream;
use crate::stream::StreamError;

verus! {

/// How many bytes one underlying read asks for while topping the buffer up.
pub const FILL_CHUNK: usize = 8 * 1024;

/// Whether `d` occurs anywhere in `s`.
pub open spec fn has_byte(s: Seq<u8>, d: u8) -> bool {
    exists|i: int| 0 <= i < s.len() && s[i] == d
}

/// Whether the first occurrence of `d` in `s` is at index `n`.
pub open spec fn first_byte_at(s: Seq<u8>, d: u8, n: int) -> bool {
    &&& 0 <= n < s.len()
    &&& s[n] == d
    &&& forall|j: int| 0 <= j < n ==> s[j] != d
}

/// Whether a run of front-consumptions of the given sizes stays within
/// bounds on a stream holding `s`.
pub open spec fn valid_steps(s: Seq<u8>, steps: Seq<int>) -> bool
    decreases steps.len(),
{
    steps.len() == 0 || (0 <= steps[0] <= s.len() && valid_steps(
        s.skip(steps[0]),
        steps.skip(1),
    ))
}

/// The concatenation of the byte runs a caller receives when it repeatedly
/// takes the given numbers of bytes from the front of `s`.
pub open spec fn delivered(s: Seq<u8>, steps: Seq<int>) -> Seq<u8>
    decreases steps.len(),
{
    if steps.len() == 0 {
        Seq::empty()
    } else {
        s.take(steps[0]) + delivered(s.skip(steps[0]), steps.skip(1))
    }
}

/// What remains of `s` after the same run of front-consumptions.
pub open spec fn left_over(s: Seq<u8>, steps: Seq<int>) -> Seq<u8>
    decreases steps.len(),
{
    if steps.len() == 0 {
        s
    } else {
        left_over(s.skip(steps[0]), steps.skip(1))
    }
}

/// Conservation: however a caller interleaves fills and consumptions, the
/// bytes delivered, concatenated in order, followed by what is still
/// undelivered, reconstruct the stream content exactly — every byte once,
/// none dropped, none duplicated.
pub proof fn lemma_consume_conservation(s: Seq<u8>, steps: Seq<int>)
    requires
        valid_steps(s, steps),
    ensures
        delivered(s, steps) + left_over(s, steps) == s,
    decreases steps.len(),
{
    if steps.len() == 0 {
        assert(delivered(s, steps) + left_over(s, steps) =~= s);
    } else {
        let k = steps[0];
        lemma_consume_conservation(s.skip(k), steps.skip(1));
        assert(delivered(s, steps) + left_over(s, steps) =~= s.take(k) + (delivered(
            s.skip(k),
            steps.skip(1),
        ) + left_over(s.skip(k), steps.skip(1))));
        assert(s.take(k) + s.skip(k) =~= s);
        assert(delivered(s, steps) + left_over(s, steps) =~= s);
    }
}

/// Growth monotonicity, chained: repeated fills with no consumption in
/// between return buffers each of which extends the one before, so the whole
/// run is prefix-consistent: the earliest buffer is a prefix of the latest.
pub proof fn lemma_fill_growth_chain(a: Seq<u8>, b: Seq<u8>, c: Seq<u8>)
    requires
        a.is_prefix_of(b),
        b.is_prefix_of(c),
    ensures
        a.is_prefix_of(c),
{
    assert(a =~= c.subrange(0, a.len() as int));
}

/// A buffered reader whose buffer grows on demand to whatever size a caller
/// requests.
///
/// The buffer holds bytes already read from the wrapped stream and not yet
/// consumed, in order; it only grows by appending freshly read bytes and only
/// shrinks when the caller explicitly consumes a prefix. The reader never
/// reads further ahead than the most recent fill request needs (up to one
/// chunk of rounding).
pub struct VarBufReader<R: ReadStream> {
    inner: R,
    data: Vec<u8>,
}

impl<R: ReadStream> VarBufReader<R> {
    /// The wrapped stream.
    pub closed spec fn source(&self) -> R {
        self.inner
    }

    /// The bytes read from the stream and not yet consumed, in order.
    pub closed spec fn buffered(&self) -> Seq<u8> {
        self.data@
    }

    /// The bytes the wrapped stream can still deliver.
    pub open spec fn upstream(&self) -> Seq<u8> {
        self.source().content()
    }

    /// Everything this reader can still hand out: the buffer, then the
    /// stream.
    pub open spec fn whole(&self) -> Seq<u8> {
        self.buffered() + self.upstream()
    }

    pub fn new(inner: R) -> (r: VarBufReader<R>)
        ensures
            r.source() == inner,
            r.buffered() == Seq::<u8>::empty(),
    {
        let v = VarBufReader { inner, data: Vec::new() };
        proof {
            assert(v.buffered() =~= Seq::<u8>::empty());
        }
        v
    }

    pub fn into_inner(self) -> (r: R)
        ensures
            r == self.source(),
    {
        self.inner
    }

    /// Top the buffer up from the stream, in chunks, until it holds at least
    /// `target` bytes or the stream reports end-of-stream.
    fn fill(&mut self, target: usize) -> (r: Result<(), StreamError>)
        ensures
            old(self).buffered().is_prefix_of(final(self).buffered()),
            final(self).whole() == old(self).whole(),
            old(self).buffered().len() >= target ==> *final(self) == *old(self),
            final(self).buffered().len() < target + FILL_CHUNK || *final(self) == *old(self),
            match r {
                Ok(_) => final(self).buffered().len() >= target || final(self).source().may_end(),
                Err(_) => final(self).buffered().len() < target && R::may_fail(),
            },
    {
        while self.data.len() < target
            invariant
                old(self).buffered().is_prefix_of(self.data@),
                self.data@ + self.inner.content() == old(self).whole(),
                old(self).buffered().len() >= target ==> *self == *old(self),
                self.data@.len() < target + FILL_CHUNK || *self == *old(self),
            decreases
                    (if self.data@.len() < target {
                        target - self.data@.len()
                    } else {
                        0
                    }),
                    self.inner.transient_budget(),
        {
            let ghost seen = self.data@;
            let ghost rest = self.inner.content();
            match self.inner.read(FILL_CHUNK) {
                ReadOutcome::Bytes(mut v) => {
                    let ghost got = v@.len() as int;
                    self.data.append(&mut v);
                    proof {
                        assert(self.data@ =~= seen + rest.take(got));
                        assert(old(self).buffered().is_prefix_of(self.data@));
                        assert(self.data@ + self.inner.content() =~= seen + rest);
                    }
                },
                ReadOutcome::End => {
                    return Ok(());
                },
                ReadOutcome::Interrupted => {
                },
                ReadOutcome::Fail(e) => {
                    return Err(e);
                },
            }
        }
        Ok(())
    }

    /// Try hard to return a buffer of at least `target` bytes. If the stream
    /// reports end-of-stream first, the buffer is shorter; that is not an
    /// error. If enough bytes are already in memory, nothing is read and the
    /// existing, possibly larger, buffer is returned.
    ///
    /// Transient interruptions are absorbed; any other failure is returned
    /// as-is, and the bytes appended before it remain buffered — no byte is
    /// dropped or duplicated across calls, whatever their targets.
    pub fn fill_many(&mut self, target: usize) -> (r: Result<Vec<u8>, StreamError>)
        ensures
            old(self).buffered().is_prefix_of(final(self).buffered()),
            final(self).whole() == old(self).whole(),
            old(self).buffered().len() >= target ==> *final(self) == *old(self),
            final(self).buffered().len() < target + FILL_CHUNK || *final(self) == *old(self),
            match r {
                Ok(v) => ({
                    &&& v@ == final(self).buffered()
                    &&& (v@.len() >= target || final(self).source().may_end())
                }),
                Err(_) => final(self).buffered().len() < target && R::may_fail(),
            },
            !R::may_fail() ==> r is Ok,
    {
        match self.fill(target) {
            Ok(_) => Ok(copy_bytes(&self.data)),
            Err(e) => Err(e),
        }
    }

    /// Return a buffer of at least `target` bytes, or fail: a buffer cut
    /// short by the end of the stream is an `UnexpectedEof` error here,
    /// turning the "maybe short" contract of [`Self::fill_many`] into a
    /// strict one. The bytes read stay buffered even on failure.
    pub fn fill_at_least(&mut self, target: usize) -> (r: Result<Vec<u8>, StreamError>)
        ensures
            old(self).buffered().is_prefix_of(final(self).buffered()),
            final(self).whole() == old(self).whole(),
            old(self).buffered().len() >= target ==> *final(self) == *old(self),
            r is Ok <==> final(self).buffered().len() >= target,
            match r {
                Ok(v) => v@ == final(self).buffered() && v@.len() >= target,
                Err(_) => true,
            },
            !R::may_fail() && r is Err ==> (r == Err::<Vec<u8>, StreamError>(
                StreamError::UnexpectedEof,
            ) && final(self).source().may_end()),
    {
        let buf = match self.fill_many(target) {
            Ok(v) => v,
            Err(e) => {
                return Err(e);
            },
        };
        if buf.len() < target {
            return Err(StreamError::UnexpectedEof);
        }
        Ok(buf)
    }

    /// The classic buffered-reader fill: make at least one byte available,
    /// unless the stream has ended. Equivalent to [`Self::fill_many`] with a
    /// target of one.
    pub fn fill_buf(&mut self) -> (r: Result<Vec<u8>, StreamError>)
        ensures
            old(self).buffered().is_prefix_of(final(self).buffered()),
            final(self).whole() == old(self).whole(),
            old(self).buffered().len() >= 1 ==> *final(self) == *old(self),
            final(self).buffered().len() < 1 + FILL_CHUNK || *final(self) == *old(self),
            match r {
                Ok(v) => ({
                    &&& v@ == final(self).buffered()
                    &&& (v@.len() >= 1 || final(self).source().may_end())
                }),
                Err(_) => R::may_fail(),
            },
    {
        self.fill_many(1)
    }

    /// Remove `amt` bytes from the front of the buffer, so that later fills
    /// and reads no longer return them. Consuming more than is buffered is a
    /// caller bookkeeping error, ruled out by contract.
    pub fn consume(&mut self, amt: usize)
        requires
            amt <= old(self).buffered().len(),
        ensures
            final(self).buffered() == old(self).buffered().skip(amt as int),
            final(self).source() == old(self).source(),
            final(self).whole() == old(self).whole().skip(amt as int),
    {
        let rest = self.data.split_off(amt);
        self.data = rest;
        proof {
            assert(self.buffered() =~= old(self).buffered().skip(amt as int));
            assert(self.whole() =~= old(self).whole().skip(amt as int));
        }
    }

    /// Fill the buffer up to `limit` bytes, then scan it for the first
    /// occurrence of `delim`. If one is found, return the bytes before it and
    /// consume them together with the delimiter. If not, fail with
    /// `NotFound` — whether the budget or the stream ran out — and leave the
    /// buffer untouched, so the caller may retry with a larger limit.
    pub fn read_until_limit(&mut self, delim: u8, limit: usize) -> (r: Result<
        Vec<u8>,
        StreamError,
    >)
        ensures
            match r {
                Ok(v) => ({
                    &&& !has_byte(v@, delim)
                    &&& first_byte_at(old(self).whole(), delim, v@.len() as int)
                    &&& v@ == old(self).whole().take(v@.len() as int)
                    &&& final(self).whole() == old(self).whole().skip(v@.len() as int + 1)
                }),
                Err(_) => ({
                    &&& final(self).whole() == old(self).whole()
                    &&& old(self).buffered().is_prefix_of(final(self).buffered())
                }),
            },
            has_byte(old(self).buffered(), delim) && (old(self).buffered().len() >= limit
                || !R::may_fail()) ==> r is Ok,
            !R::may_fail() && r is Err ==> (r == Err::<Vec<u8>, StreamError>(StreamError::NotFound)
                && !has_byte(final(self).buffered(), delim) && (final(self).buffered().len()
                >= limit || final(self).source().may_end())),
    {
        match self.fill(limit) {
            Ok(_) => {
            },
            Err(e) => {
                return Err(e);
            },
        }
        let ghost filled = self.buffered();
        let mut i: usize = 0;
        while i < self.data.len()
            invariant
                i <= filled.len(),
                self.buffered() == filled,
                self.whole() == old(self).whole(),
                old(self).buffered().is_prefix_of(filled),
                filled.len() >= limit || self.source().may_end(),
                forall|j: int| 0 <= j < i ==> filled[j] != delim,
            decreases filled.len() - i,
        {
            if self.data[i] == delim {
                proof {
                    assert(filled =~= old(self).whole().take(filled.len() as int));
                }
                let before = take_front(&mut self.data, i);
                proof {
                    assert(self.buffered() =~= filled.skip(i as int));
                }
                self.consume(1);
                proof {
                    assert(before@ =~= old(self).whole().take(i as int));
                    assert(self.whole() =~= old(self).whole().skip(i + 1));
                    assert(first_byte_at(old(self).whole(), delim, i as int));
                }
                return Ok(before);
            }
            i += 1;
        }
        proof {
            assert(!has_byte(filled, delim));
            if has_byte(old(self).buffered(), delim) {
                let k = choose|k: int|
                    0 <= k < old(self).buffered().len() && old(self).buffered()[k] == delim;
                assert(filled[k] == delim);
            }
        }
        Err(StreamError::NotFound)
    }
}

impl<R: ReadStream> ReadStream for VarBufReader<R> {
    /// Everything still available: buffered bytes, then the stream's.
    open spec fn content(&self) -> Seq<u8> {
        self.whole()
    }

    open spec fn may_end(&self) -> bool {
        self.buffered().len() == 0 && self.source().may_end()
    }

    open spec fn may_fail() -> bool {
        R::may_fail()
    }

    /// This decorator absorbs its source's interruptions and never reports
    /// one itself.
    open spec fn transient_budget(&self) -> nat {
        0
    }

    /// A delivery is short of the request only when it drained the buffer
    /// and the stream had ended; end-of-stream comes only on an empty
    /// buffer; a failure needs a fallible stream.
    open spec fn read_allows(pre: Self, post: Self, max: usize, r: ReadOutcome) -> bool {
        match r {
            ReadOutcome::Bytes(v) => v@.len() == max || (post.buffered().len() == 0
                && post.source().may_end()),
            ReadOutcome::End => ({
                &&& pre.buffered().len() == 0
                &&& post.buffered().len() == 0
                &&& post.source().may_end()
            }),
            ReadOutcome::Interrupted => false,
            ReadOutcome::Fail(_) => R::may_fail(),
        }
    }

    /// The generic bulk read: fill the buffer to `max`, hand out the smaller
    /// of `max` and what is buffered, and consume exactly what was handed
    /// out.
    fn read(&mut self, max: usize) -> (r: ReadOutcome)
        ensures
            !(r is Interrupted),
            !R::may_fail() ==> !(r is Fail),
            r matches ReadOutcome::Bytes(v) ==> (v@.len() == max || (final(self).buffered().len()
                == 0 && final(self).source().may_end())),
    {
        match self.fill(max) {
            Ok(_) => {
            },
            Err(e) => {
                return ReadOutcome::Fail(e);
            },
        }
        let valid = if max < self.data.len() {
            max
        } else {
            self.data.len()
        };
        if valid == 0 && max > 0 {
            return ReadOutcome::End;
        }
        let front = take_front(&mut self.data, valid);
        proof {
            assert(front@ =~= old(self).content().take(valid as int));
            assert(self.content() =~= old(self).content().skip(valid as int));
        }
        ReadOutcome::Bytes(front)
    }
}

} // verus!
