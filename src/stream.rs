//! The stream and callback abstractions the progress wrappers are built on.

use vstd::prelude::*;

verus! {

/// A source of bytes that fills a caller's buffer.
///
/// Each implementation describes its behaviour by `read_step`, the relation
/// between the source before a read, the source after it and the outcome.
pub trait ByteSource: Sized {
    type Error;

    /// Whether a read into a buffer of `len` bytes may take the source from
    /// `self` to `next` with outcome `r`; `Ok` holds the bytes delivered. A
    /// source that does not describe itself promises nothing beyond the
    /// bounds of the buffer.
    open spec fn read_step(self, len: nat, next: Self, r: Result<Seq<u8>, Self::Error>) -> bool {
        true
    }

    /// Fills a prefix of `buf` and returns its length, or fails.
    fn read(&mut self, buf: &mut [u8]) -> (r: Result<usize, Self::Error>)
        ensures
            final(buf)@.len() == old(buf)@.len(),
            match r {
                Ok(n) => n <= old(buf)@.len() && old(self).read_step(
                    old(buf)@.len() as nat,
                    *final(self),
                    Ok(final(buf)@.take(n as int)),
                ),
                Err(e) => old(self).read_step(old(buf)@.len() as nat, *final(self), Err(e)),
            },
    ;
}

/// A sink of bytes that takes them from a caller's buffer.
///
/// Each implementation describes its behaviour by `write_step` and
/// `flush_step`, relations between the sink before an operation, the sink
/// after it and the outcome.
pub trait ByteSink: Sized {
    type Error;

    /// Whether a write of `data` may take the sink from `self` to `next` with
    /// outcome `r`; `Ok` holds the number of bytes taken, a prefix of `data`.
    /// A sink that does not describe itself promises nothing beyond the
    /// bounds of the buffer.
    open spec fn write_step(self, data: Seq<u8>, next: Self, r: Result<usize, Self::Error>) -> bool {
        true
    }

    /// Whether a flush may take the sink from `self` to `next` with outcome
    /// `r`. A sink that does not describe itself promises nothing here.
    open spec fn flush_step(self, next: Self, r: Result<(), Self::Error>) -> bool {
        true
    }

    /// Takes a prefix of `buf` and returns its length, or fails.
    fn write(&mut self, buf: &[u8]) -> (r: Result<usize, Self::Error>)
        ensures
            old(self).write_step(buf@, *final(self), r),
            r matches Ok(n) ==> n <= buf@.len(),
    ;

    /// Pushes out whatever the sink holds back.
    fn flush(&mut self) -> (r: Result<(), Self::Error>)
        ensures
            old(self).flush_step(*final(self), r),
    ;
}

/// Receives the number of bytes that each successful operation moved.
pub trait ProgressCallback: Sized {
    /// Whether being told of `n` more bytes may take the callback from
    /// `self` to `next`. A callback that does not describe itself promises
    /// nothing.
    open spec fn notified(self, n: usize, next: Self) -> bool {
        true
    }

    /// Reports that `n` bytes were moved.
    fn on_progress(&mut self, n: usize)
        ensures
            old(self).notified(n, *final(self)),
    ;
}

} // verus!
