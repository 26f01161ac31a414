//! Retry a read that came up short, to check we are really at the end of the
//! stream.
//!
//! A single read is allowed to deliver fewer bytes than requested even when
//! more are available. [`ReadMany::read_many`] keeps reading until it has the
//! requested number of bytes, giving up only when the stream reports
//! end-of-stream or fails; transient interruptions are absorbed.

use vstd::prelude::*;

use crate::stream::delivery_run;
use crate::stream::lemma_delivery_run_refl;
use crate::stream::lemma_delivery_run_step;
use crate::stream::outcome_bytes;
use crate::stream::ReadOutcome;
use crate::stream::ReadStream;
use crate::stream::StreamError;

verus! {

/// The retry-until-full read, provided for every readable stream.
pub trait ReadMany: ReadStream {
    /// Try quite hard to gather `want` bytes.
    ///
    /// A short result means the stream reported end-of-stream; an error is
    /// the stream's own, returned as-is, and the bytes a failed call had
    /// already gathered are consumed but not returned.
    fn read_many(&mut self, want: usize) -> (r: Result<Vec<u8>, StreamError>)
        ensures
            match r {
                Ok(v) => ({
                    &&& v@.len() <= want
                    &&& v@.len() <= old(self).content().len()
                    &&& v@ == old(self).content().take(v@.len() as int)
                    &&& final(self).content() == old(self).content().skip(v@.len() as int)
                    &&& (v@.len() == want || final(self).may_end())
                    &&& delivery_run(*old(self), *final(self), v@)
                }),
                Err(e) => ({
                    &&& Self::may_fail()
                    &&& exists|mid: Self, k: int|
                        {
                            &&& #[trigger] Self::read_allows(
                                mid,
                                *final(self),
                                (want - k) as usize,
                                ReadOutcome::Fail(e),
                            )
                            &&& 0 <= k <= want
                            &&& k <= old(self).content().len()
                            &&& mid.content() == old(self).content().skip(k)
                            &&& final(self).content() == old(self).content().skip(k)
                        }
                }),
            },
    ;
}

impl<T: ReadStream> ReadMany for T {
    fn read_many(&mut self, want: usize) -> (r: Result<Vec<u8>, StreamError>) {
        let mut out: Vec<u8> = Vec::new();
        proof {
            lemma_delivery_run_refl(*old(self));
            assert(out@ =~= Seq::<u8>::empty());
        }
        loop
            invariant
                out@.len() <= want,
                out@.len() <= old(self).content().len(),
                out@ == old(self).content().take(out@.len() as int),
                self.content() == old(self).content().skip(out@.len() as int),
                delivery_run(*old(self), *self, out@),
            decreases want - out@.len(), self.transient_budget(),
        {
            if out.len() >= want {
                return Ok(out);
            }
            let ghost seen = out@.len() as int;
            let ghost rest = self.content();
            let ghost gathered = out@;
            let ghost cur = *self;
            let req = want - out.len();
            match self.read(req) {
                ReadOutcome::Bytes(mut v) => {
                    let ghost delivered_now = ReadOutcome::Bytes(v);
                    let ghost got = v@.len() as int;
                    out.append(&mut v);
                    proof {
                        assert(rest == old(self).content().skip(seen));
                        assert(out@ =~= old(self).content().take(seen + got));
                        assert(self.content() =~= old(self).content().skip(seen + got));
                        lemma_delivery_run_step(*old(self), cur, *self, req, delivered_now, gathered);
                        assert(gathered + outcome_bytes(delivered_now) =~= out@);
                    }
                },
                ReadOutcome::End => {
                    proof {
                        lemma_delivery_run_step(
                            *old(self),
                            cur,
                            *self,
                            req,
                            ReadOutcome::End,
                            gathered,
                        );
                        assert(gathered + outcome_bytes(ReadOutcome::End) =~= out@);
                    }
                    return Ok(out);
                },
                ReadOutcome::Interrupted => {
                    proof {
                        lemma_delivery_run_step(
                            *old(self),
                            cur,
                            *self,
                            req,
                            ReadOutcome::Interrupted,
                            gathered,
                        );
                        assert(gathered + outcome_bytes(ReadOutcome::Interrupted) =~= out@);
                    }
                },
                ReadOutcome::Fail(e) => {
                    proof {
                        assert(self.content() == old(self).content().skip(seen));
                        assert(Self::read_allows(
                            cur,
                            *self,
                            (want - seen) as usize,
                            ReadOutcome::Fail(e),
                        ));
                        assert(exists|mid: Self, k: int|
                            {
                                &&& #[trigger] Self::read_allows(
                                    mid,
                                    *self,
                                    (want - k) as usize,
                                    ReadOutcome::Fail(e),
                                )
                                &&& 0 <= k <= want
                                &&& k <= old(self).content().len()
                                &&& mid.content() == old(self).content().skip(k)
                                &&& self.content() == old(self).content().skip(k)
                            }) by {
                            assert(cur.content() == old(self).content().skip(seen));
                        }
                    }
                    return Err(e);
                },
            }
        }
    }
}

} // verus!
