//! Deterministic short-read injection, for driving tests of the other
//! decorators.

use vstd::prelude::*;

use crate::stream::ReadOutcome;
use crate::stream::ReadStream;

verus! {

/// Intentionally return short reads, to test reading code.
///
/// The `decider` sequence says, call by call, how many bytes a read may
/// deliver at most. A decision of `0` makes that call report a transient
/// interruption instead, delivering nothing. When the decisions run out, every
/// further read reports end-of-stream, however much data the wrapped stream
/// still holds.
pub struct ShortRead<R: ReadStream> {
    inner: R,
    decider: Vec<usize>,
}

impl<R: ReadStream> ShortRead<R> {
    /// The wrapped stream.
    pub closed spec fn source(&self) -> R {
        self.inner
    }

    /// The per-call length decisions not yet used, in order.
    pub closed spec fn decisions(&self) -> Seq<usize> {
        self.decider@
    }

    pub fn new(inner: R, decider: Vec<usize>) -> (r: ShortRead<R>)
        ensures
            r.source() == inner,
            r.decisions() == decider@,
    {
        ShortRead { inner, decider }
    }

    pub fn into_inner(self) -> (r: R)
        ensures
            r == self.source(),
    {
        self.inner
    }
}

impl<R: ReadStream> ReadStream for ShortRead<R> {
    open spec fn content(&self) -> Seq<u8> {
        self.source().content()
    }

    open spec fn may_end(&self) -> bool {
        self.decisions().len() == 0 || self.source().may_end()
    }

    open spec fn may_fail() -> bool {
        R::may_fail()
    }

    open spec fn transient_budget(&self) -> nat {
        self.decisions().len() + self.source().transient_budget()
    }

    /// Exhausted decisions report end-of-stream and touch nothing; a zero
    /// decision is spent on an interruption and touches nothing; a positive
    /// decision is spent on one read of the wrapped stream, capped at the
    /// smaller of the decision and the request, whose outcome is returned
    /// as-is.
    open spec fn read_allows(pre: Self, post: Self, max: usize, r: ReadOutcome) -> bool {
        if pre.decisions().len() == 0 {
            &&& r is End
            &&& post == pre
        } else {
            let capped = if pre.decisions()[0] < max {
                pre.decisions()[0]
            } else {
                max
            };
            &&& post.decisions() == pre.decisions().skip(1)
            &&& if pre.decisions()[0] == 0 {
                &&& r is Interrupted
                &&& post.source() == pre.source()
            } else {
                R::read_allows(pre.source(), post.source(), capped, r)
            }
        }
    }

    fn read(&mut self, max: usize) -> (r: ReadOutcome)
        ensures
            old(self).decisions().len() == 0 ==> (r is End && *final(self) == *old(self)),
            old(self).decisions().len() > 0 ==> (final(self).decisions() == old(
                self,
            ).decisions().skip(1)),
            old(self).decisions().len() > 0 && old(self).decisions()[0] == 0 ==> (r is Interrupted
                && final(self).source() == old(self).source()),
            old(self).decisions().len() > 0 ==> (r matches ReadOutcome::Bytes(v) ==> v@.len()
                <= old(self).decisions()[0]),
            old(self).decisions().len() > 0 && old(self).decisions()[0] > 0 ==> (match r {
                ReadOutcome::End => final(self).source().may_end(),
                ReadOutcome::Interrupted => final(self).source().transient_budget() < old(
                    self,
                ).source().transient_budget(),
                _ => true,
            }),
    {
        if self.decider.len() == 0 {
            return ReadOutcome::End;
        }
        let wanted = self.decider.remove(0);
        if wanted == 0 {
            return ReadOutcome::Interrupted;
        }
        let capped = if wanted < max {
            wanted
        } else {
            max
        };
        self.inner.read(capped)
    }
}

} // verus!
