//! End-of-stream lookahead: ask "is there more data" without losing the byte
//! that answering requires reading.

use vstd::prelude::*;

use crate::stream::interrupted_run;
use crate::stream::lemma_interrupted_run_refl;
use crate::stream::lemma_interrupted_run_step;
use crate::stream::ReadOutcome;
use crate::stream::ReadStream;
use crate::stream::StreamError;

verus! {

/// Track whether a stream has hit the end, holding at most one byte of
/// lookahead.
///
/// The held byte, when present, is the next byte of the stream: a read drains
/// it before touching the wrapped stream again, so probing for the end never
/// loses data. End-of-stream is not latched: if the wrapped stream later
/// delivers data again, so does this one.
///
/// Both [`Eof::eof`] and [`Eof::read`] retry the wrapped stream's transient
/// interruptions; a caller never observes one.
pub struct Eof<R: ReadStream> {
    inner: R,
    next: Option<u8>,
}

impl<R: ReadStream> Eof<R> {
    /// The wrapped stream.
    pub closed spec fn source(&self) -> R {
        self.inner
    }

    /// The byte held by the last end-of-stream probe, if any.
    pub closed spec fn held(&self) -> Option<u8> {
        self.next
    }

    pub fn new(inner: R) -> (r: Eof<R>)
        ensures
            r.source() == inner,
            r.held() is None,
    {
        Eof { inner, next: None }
    }

    /// Test if we are at the end of the stream; on "no", hold the byte that
    /// the probe had to read, so nothing is lost.
    ///
    /// Succeeds whenever the wrapped stream cannot fail; a "yes" means the
    /// wrapped stream reported end-of-stream just now, and a "no" means at
    /// least one more byte is available to [`Eof::read`].
    pub fn eof(&mut self) -> (r: Result<bool, StreamError>)
        ensures
            final(self).content() == old(self).content(),
            r == Ok::<bool, StreamError>(false) ==> (final(self).held() is Some
                && final(self).content().len() > 0),
            r == Ok::<bool, StreamError>(true) ==> (final(self).held() is None
                && final(self).may_end()),
            r is Err ==> (old(self).held() is None && final(self).held() is None
                && R::may_fail()),
            old(self).held() is Some ==> (r == Ok::<bool, StreamError>(false) && *final(self)
                == *old(self)),
            !R::may_fail() ==> r is Ok,
            r matches Err(e) ==> exists|mid: R|
                #[trigger] interrupted_run(old(self).source(), mid, 1) && R::read_allows(
                    mid,
                    final(self).source(),
                    1,
                    ReadOutcome::Fail(e),
                ),
            r == Ok::<bool, StreamError>(true) ==> exists|mid: R|
                #[trigger] interrupted_run(old(self).source(), mid, 1) && R::read_allows(
                    mid,
                    final(self).source(),
                    1,
                    ReadOutcome::End,
                ),
    {
        if self.next.is_some() {
            return Ok(false);
        }
        proof {
            lemma_interrupted_run_refl(old(self).source(), 1);
        }
        loop
            invariant
                old(self).held() is None,
                self.next is None,
                self.content() == old(self).content(),
                interrupted_run(old(self).source(), self.source(), 1),
            decreases self.inner.transient_budget(),
        {
            let ghost before = self.inner.content();
            let ghost mid = self.source();
            match self.inner.read(1) {
                ReadOutcome::Bytes(v) => {
                    let b = v[0];
                    self.next = Some(b);
                    proof {
                        assert(v@.len() == 1);
                        assert(v@ == before.take(1));
                        assert(before.len() >= 1);
                        assert(b == before[0]);
                        assert(self.inner.content() == before.skip(1));
                        assert(self.content() =~= before);
                    }
                    return Ok(false);
                },
                ReadOutcome::End => {
                    return Ok(true);
                },
                ReadOutcome::Interrupted => {
                    proof {
                        lemma_interrupted_run_step(old(self).source(), mid, self.source(), 1);
                    }
                },
                ReadOutcome::Fail(e) => {
                    return Err(e);
                },
            }
        }
    }

    /// The buffered byte, which the last probe read while checking for the
    /// end.
    pub fn held_state(&self) -> (r: Option<u8>)
        ensures
            r == self.held(),
    {
        self.next
    }

    pub fn get_ref(&self) -> (r: &R)
        ensures
            *r == self.source(),
    {
        &self.inner
    }

    pub fn get_mut(&mut self) -> (r: &mut R)
        ensures
            *r == old(self).source(),
            final(self).source() == *final(r),
            final(self).held() == old(self).held(),
    {
        &mut self.inner
    }

    pub fn into_inner(self) -> (r: R)
        ensures
            r == self.source(),
    {
        self.inner
    }
}

impl<R: ReadStream> ReadStream for Eof<R> {
    /// The held byte, if any, followed by whatever the wrapped stream can
    /// still deliver: reading through the lookahead yields byte for byte what
    /// reading the wrapped stream directly would.
    open spec fn content(&self) -> Seq<u8> {
        match self.held() {
            Some(b) => seq![b] + self.source().content(),
            None => self.source().content(),
        }
    }

    open spec fn may_end(&self) -> bool {
        self.held() is None && self.source().may_end()
    }

    open spec fn may_fail() -> bool {
        R::may_fail()
    }

    /// This decorator absorbs its source's interruptions and never reports
    /// one itself.
    open spec fn transient_budget(&self) -> nat {
        0
    }

    /// A zero-length read succeeds emptily and touches nothing. A held byte
    /// is served as a one-byte read without touching the wrapped stream.
    /// Otherwise the outcome is the wrapped stream's own first non-transient
    /// outcome for the full request.
    open spec fn read_allows(pre: Self, post: Self, max: usize, r: ReadOutcome) -> bool {
        if max == 0 {
            &&& r matches ReadOutcome::Bytes(v) ==> v@.len() == 0
            &&& r is Bytes
            &&& post == pre
        } else {
            match pre.held() {
                Some(b) => {
                    &&& r matches ReadOutcome::Bytes(v) ==> v@ == seq![b]
                    &&& r is Bytes
                    &&& post.held() is None
                    &&& post.source() == pre.source()
                },
                None => {
                    &&& !(r is Interrupted)
                    &&& post.held() is None
                    &&& exists|mid: R|
                        #[trigger] interrupted_run(pre.source(), mid, max)
                            && R::read_allows(mid, post.source(), max, r)
                },
            }
        }
    }

    /// Delivers the held byte first, as a one-byte read; otherwise delegates
    /// to the wrapped stream, retrying transient interruptions.
    fn read(&mut self, max: usize) -> (r: ReadOutcome)
        ensures
            !(r is Interrupted),
            max == 0 ==> (*final(self) == *old(self) && (r matches ReadOutcome::Bytes(v)
                && v@.len() == 0)),
            r is Bytes && max > 0 ==> final(self).held() is None,
            r is End ==> (old(self).held() is None && final(self).held() is None),
            old(self).held() is Some && max > 0 ==> (r matches ReadOutcome::Bytes(v) && v@.len()
                == 1 && final(self).source() == old(self).source()),
    {
        if max == 0 {
            let empty: Vec<u8> = Vec::new();
            proof {
                assert(empty@ =~= old(self).content().take(0));
                assert(self.content() =~= old(self).content().skip(0));
            }
            return ReadOutcome::Bytes(empty);
        }
        if let Some(val) = self.next {
            let mut one: Vec<u8> = Vec::new();
            one.push(val);
            self.next = None;
            proof {
                assert(one@ =~= old(self).content().take(1));
                assert(self.content() =~= old(self).content().skip(1));
            }
            return ReadOutcome::Bytes(one);
        }
        proof {
            lemma_interrupted_run_refl(old(self).source(), max);
        }
        loop
            invariant
                max > 0,
                old(self).held() is None,
                self.next is None,
                self.content() == old(self).content(),
                interrupted_run(old(self).source(), self.source(), max),
            decreases self.inner.transient_budget(),
        {
            let ghost mid = self.source();
            match self.inner.read(max) {
                ReadOutcome::Interrupted => {
                    proof {
                        lemma_interrupted_run_step(
                            old(self).source(),
                            mid,
                            self.source(),
                            max,
                        );
                    }
                },
                ReadOutcome::Bytes(v) => {
                    return ReadOutcome::Bytes(v);
                },
                ReadOutcome::End => {
                    return ReadOutcome::End;
                },
                ReadOutcome::Fail(e) => {
                    return ReadOutcome::Fail(e);
                },
            }
        }
    }
}

} // verus!
