//! A byte source that reports the size of every successful read.

use vstd::prelude::*;
use crate::memory::{min_nat, sum_counts, MemSource, ProgressLog};
use crate::stream::{ByteSource, ProgressCallback};

verus! {

/// Callback-based progress-monitoring reader.
pub struct ProgressReader<R: ByteSource, C: ProgressCallback> {
    reader: R,
    callback: C,
}

impl<R: ByteSource, C: ProgressCallback> ProgressReader<R, C> {
    /// The wrapped source.
    pub closed spec fn inner(self) -> R {
        self.reader
    }

    /// The callback that receives the byte counts.
    pub closed spec fn callback(self) -> C {
        self.callback
    }

    pub fn new(reader: R, callback: C) -> (r: Self)
        ensures
            r.inner() == reader,
            r.callback() == callback,
    {
        ProgressReader { reader, callback }
    }

    /// The callback, for inspection; the wrapped stream stays out of reach.
    pub fn callback_ref(&self) -> (r: &C)
        ensures
            *r == self.callback(),
    {
        &self.callback
    }

    /// Gives back the wrapped source; the callback is dropped.
    pub fn into_inner(self) -> (r: R)
        ensures
            r == self.inner(),
    {
        self.reader
    }
}

impl<R: ByteSource, C: ProgressCallback> ByteSource for ProgressReader<R, C> {
    type Error = R::Error;

    /// A read moves the wrapped source exactly as the source itself would;
    /// on success the callback is told of the delivered length, once, and on
    /// failure it is left alone.
    open spec fn read_step(self, len: nat, next: Self, r: Result<Seq<u8>, R::Error>) -> bool {
        &&& self.inner().read_step(len, next.inner(), r)
        &&& match r {
            Ok(data) => self.callback().notified(data.len() as usize, next.callback()),
            Err(_) => next.callback() == self.callback(),
        }
    }

    fn read(&mut self, buf: &mut [u8]) -> (r: Result<usize, R::Error>) {
        match self.reader.read(buf) {
            Ok(n) => {
                self.callback.on_progress(n);
                Ok(n)
            },
            Err(e) => Err(e),
        }
    }
}

/// Reading an in-memory source through a progress reader, call after call,
/// hands out exactly the bytes the source itself would: each call returns the
/// next bytes of the source, as many as the buffer holds, and what the calls
/// returned, joined and followed by what is left, is what the source held at
/// the start.
pub proof fn lemma_reads_pass_through<C: ProgressCallback>(
    states: Seq<ProgressReader<MemSource, C>>,
    lens: Seq<nat>,
    chunks: Seq<Seq<u8>>,
)
    requires
        states.len() == chunks.len() + 1,
        lens.len() == chunks.len(),
        forall|i: int|
            0 <= i < chunks.len() ==> {
                let j = i + 1;
                states[i].read_step(lens[i], states[j], Ok(#[trigger] chunks[i]))
            },
    ensures
        forall|i: int|
            0 <= i < chunks.len() ==> #[trigger] chunks[i] == states[i].inner().remaining().take(
                min_nat(lens[i], states[i].inner().remaining().len()) as int,
            ),
        states[0].inner().remaining() == chunks.flatten() + states.last().inner().remaining(),
    decreases chunks.len(),
{
    let k = chunks.len() as int;
    if k == 0 {
        assert(chunks.flatten() =~= Seq::<u8>::empty());
        assert(states[0].inner().remaining() =~= chunks.flatten() + states.last().inner().remaining());
    } else {
        let front = chunks.drop_last();
        lemma_reads_pass_through(states.drop_last(), lens.drop_last(), front);
        assert(chunks =~= front.push(chunks[k - 1]));
        front.lemma_flatten_push(chunks[k - 1]);
        let before = states[k - 1].inner().remaining();
        let n = min_nat(lens[k - 1], before.len());
        assert(states[k - 1].read_step(lens[k - 1], states[k], Ok(chunks[k - 1])));
        assert(before =~= before.take(n as int) + before.skip(n as int));
        assert(states[0].inner().remaining() =~= chunks.flatten() + states.last().inner().remaining());
    }
}

/// Through a progress reader that reports to a log, every successful read
/// adds one entry, the number of bytes it returned; so the counts reported
/// add up to the number of bytes read.
pub proof fn lemma_reads_accounted<R: ByteSource>(
    states: Seq<ProgressReader<R, ProgressLog>>,
    lens: Seq<nat>,
    chunks: Seq<Seq<u8>>,
)
    requires
        states.len() == chunks.len() + 1,
        lens.len() == chunks.len(),
        forall|i: int|
            0 <= i < chunks.len() ==> {
                let j = i + 1;
                &&& states[i].read_step(lens[i], states[j], Ok(#[trigger] chunks[i]))
                &&& chunks[i].len() <= usize::MAX
            },
    ensures
        states.last().callback().reports() == states[0].callback().reports() + chunks.map_values(
            |c: Seq<u8>| c.len() as usize,
        ),
        sum_counts(states.last().callback().reports()) == sum_counts(
            states[0].callback().reports(),
        ) + chunks.flatten().len(),
    decreases chunks.len(),
{
    let k = chunks.len() as int;
    let first = states[0].callback().reports();
    let counts = chunks.map_values(|c: Seq<u8>| c.len() as usize);
    if k == 0 {
        assert(chunks.flatten() =~= Seq::<u8>::empty());
        assert(first + counts =~= first);
    } else {
        let front = chunks.drop_last();
        lemma_reads_accounted(states.drop_last(), lens.drop_last(), front);
        assert(chunks =~= front.push(chunks[k - 1]));
        front.lemma_flatten_push(chunks[k - 1]);
        assert(states[k - 1].read_step(lens[k - 1], states[k], Ok(chunks[k - 1])));
        let mid = states[k - 1].callback().reports();
        let last = states[k].callback().reports();
        assert(last == mid.push(chunks[k - 1].len() as usize));
        assert(first + counts =~= (first + front.map_values(|c: Seq<u8>| c.len() as usize)).push(
            chunks[k - 1].len() as usize,
        ));
        assert(last.drop_last() =~= mid);
    }
}

/// A read into an empty buffer returns nothing and reports a count of zero,
/// once.
pub proof fn lemma_empty_read_reports_zero(
    reader: ProgressReader<MemSource, ProgressLog>,
    next: ProgressReader<MemSource, ProgressLog>,
    r: Result<Seq<u8>, std::convert::Infallible>,
)
    requires
        reader.read_step(0, next, r),
    ensures
        r == Ok::<Seq<u8>, std::convert::Infallible>(Seq::<u8>::empty()),
        next.callback().reports() == reader.callback().reports().push(0),
{
    if let Ok(data) = r {
        assert(data =~= Seq::<u8>::empty());
    }
}

} // verus!
