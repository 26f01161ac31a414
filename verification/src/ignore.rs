//! A null stream: writes vanish, reads return nothing, seeks are no-ops.

use vstd::prelude::*;

use crate::stream::ReadOutcome;
use crate::stream::ReadStream;
use crate::stream::StreamError;

verus! {

/// A position to seek to, relative to the start, the end, or the current
/// position of a stream.
#[derive(Clone, Copy, Debug, PartialEq, Eq, Structural)]
pub enum SeekFrom {
    Start(u64),
    End(i64),
    Current(i64),
}

/// Ignore all requests made on this object.
///
///  * As a sink, it reports full success for every write, discarding the
///    bytes.
///  * As a source, it acts like an immutable empty file: plain reads report
///    end-of-stream, and an exact-fill read of more than zero bytes fails.
///  * Seeks are accepted and report position zero, whatever was asked:
///    out-of-bounds, negative and relative seeks are all silently normalized.
///
/// Stateless and side-effect-free by design: useful for measuring a
/// producer's output volume, or to satisfy an interface that requires a sink.
#[derive(Clone, Copy, Debug)]
pub struct Ignore {}

impl Ignore {
    pub fn new() -> (r: Ignore)
        ensures
            r == (Ignore {  }),
    {
        Ignore {}
    }

    /// Report the whole buffer written, discarding it.
    pub fn write(&mut self, buf: &[u8]) -> (r: Result<usize, StreamError>)
        ensures
            r == Ok::<usize, StreamError>(buf@.len() as usize),
    {
        Ok(buf.len())
    }

    /// Nothing is buffered, so flushing always succeeds.
    pub fn flush(&mut self) -> (r: Result<(), StreamError>)
        ensures
            r is Ok,
    {
        Ok(())
    }

    /// Discard the whole buffer, reporting success.
    pub fn write_all(&mut self, buf: &[u8]) -> (r: Result<(), StreamError>)
        ensures
            r is Ok,
    {
        let _ = buf;
        Ok(())
    }

    /// Deliver exactly `len` bytes or fail: succeeds if and only if nothing
    /// was asked for, since this source is forever empty.
    pub fn read_exact(&mut self, len: usize) -> (r: Result<Vec<u8>, StreamError>)
        ensures
            match r {
                Ok(v) => len == 0 && v@ == Seq::<u8>::empty(),
                Err(e) => len > 0 && e == StreamError::UnexpectedEof,
            },
    {
        if len == 0 {
            let empty: Vec<u8> = Vec::new();
            proof {
                assert(empty@ =~= Seq::<u8>::empty());
            }
            Ok(empty)
        } else {
            Err(StreamError::UnexpectedEof)
        }
    }

    /// The buffered view of an empty file: no bytes.
    pub fn fill_buf(&mut self) -> (r: Vec<u8>)
        ensures
            r@ == Seq::<u8>::empty(),
    {
        let empty: Vec<u8> = Vec::new();
        proof {
            assert(empty@ =~= Seq::<u8>::empty());
        }
        empty
    }

    /// Nothing is buffered, so there is nothing to consume.
    pub fn consume(&mut self, amt: usize)
        ensures
            *final(self) == *old(self),
    {
        let _ = amt;
    }

    /// Every seek is accepted and reports position zero.
    pub fn seek(&mut self, pos: SeekFrom) -> (r: Result<u64, StreamError>)
        ensures
            r == Ok::<u64, StreamError>(0u64),
    {
        let _ = pos;
        Ok(0)
    }
}

impl Default for Ignore {
    fn default() -> (r: Ignore)
        ensures
            r == (Ignore {  }),
    {
        Ignore::new()
    }
}

impl ReadStream for Ignore {
    /// An empty file delivers nothing, ever.
    open spec fn content(&self) -> Seq<u8> {
        Seq::empty()
    }

    open spec fn may_end(&self) -> bool {
        true
    }

    open spec fn may_fail() -> bool {
        false
    }

    open spec fn transient_budget(&self) -> nat {
        0
    }

    /// Deterministic: every read reports end-of-stream and changes nothing.
    open spec fn read_allows(pre: Ignore, post: Ignore, max: usize, r: ReadOutcome) -> bool {
        &&& r is End
        &&& post == pre
    }

    /// Always reports end-of-stream.
    fn read(&mut self, max: usize) -> (r: ReadOutcome)
        ensures
            r is End,
            *final(self) == *old(self),
    {
        let _ = max;
        ReadOutcome::End
    }
}

} // verus!
