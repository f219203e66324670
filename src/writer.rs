//! A byte sink that reports the size of every successful write.

use vstd::prelude::*;
use crate::memory::{min_nat, sum_counts, MemSink, ProgressLog};
use crate::stream::{ByteSink, ProgressCallback};

verus! {

/// Callback-based progress-monitoring writer.
pub struct ProgressWriter<W: ByteSink, C: ProgressCallback> {
    writer: W,
    callback: C,
}

impl<W: ByteSink, C: ProgressCallback> ProgressWriter<W, C> {
    /// The wrapped sink.
    pub closed spec fn inner(self) -> W {
        self.writer
    }

    /// The callback that receives the byte counts.
    pub closed spec fn callback(self) -> C {
        self.callback
    }

    pub fn new(writer: W, callback: C) -> (r: Self)
        ensures
            r.inner() == writer,
            r.callback() == callback,
    {
        ProgressWriter { writer, callback }
    }

    /// The callback, for inspection; the wrapped stream stays out of reach.
    pub fn callback_ref(&self) -> (r: &C)
        ensures
            *r == self.callback(),
    {
        &self.callback
    }

    /// Gives back the wrapped sink; the callback is dropped.
    pub fn into_inner(self) -> (r: W)
        ensures
            r == self.inner(),
    {
        self.writer
    }
}

impl<W: ByteSink, C: ProgressCallback> ByteSink for ProgressWriter<W, C> {
    type Error = W::Error;

    /// A write moves the wrapped sink exactly as the sink itself would; on
    /// success the callback is told, once, of the count the sink reported
    /// (not of the count offered), and on failure it is left alone.
    open spec fn write_step(self, data: Seq<u8>, next: Self, r: Result<usize, W::Error>) -> bool {
        &&& self.inner().write_step(data, next.inner(), r)
        &&& match r {
            Ok(n) => self.callback().notified(n, next.callback()),
            Err(_) => next.callback() == self.callback(),
        }
    }

    /// A flush moves the wrapped sink exactly as the sink itself would and
    /// never reaches the callback.
    open spec fn flush_step(self, next: Self, r: Result<(), W::Error>) -> bool {
        &&& self.inner().flush_step(next.inner(), r)
        &&& next.callback() == self.callback()
    }

    fn write(&mut self, buf: &[u8]) -> (r: Result<usize, W::Error>) {
        match self.writer.write(buf) {
            Ok(n) => {
                self.callback.on_progress(n);
                Ok(n)
            },
            Err(e) => Err(e),
        }
    }

    fn flush(&mut self) -> (r: Result<(), W::Error>) {
        self.writer.flush()
    }
}

/// The part of each offered buffer that a run of writes reports as taken.
pub open spec fn taken(offered: Seq<Seq<u8>>, counts: Seq<usize>) -> Seq<Seq<u8>> {
    Seq::new(offered.len(), |i: int| offered[i].take(counts[i] as int))
}

/// Writing to an in-memory sink through a progress writer, call after call,
/// forwards exactly the bytes the caller offered: each call takes as much of
/// its buffer as the sink has room for, and the sink ends up holding what it
/// held at the start followed by the taken parts, in order, with no byte lost
/// or added.
pub proof fn lemma_writes_pass_through<C: ProgressCallback>(
    states: Seq<ProgressWriter<MemSink, C>>,
    offered: Seq<Seq<u8>>,
    counts: Seq<usize>,
)
    requires
        states.len() == offered.len() + 1,
        counts.len() == offered.len(),
        forall|i: int|
            0 <= i < offered.len() ==> {
                let j = i + 1;
                states[i].write_step(#[trigger] offered[i], states[j], Ok(counts[i]))
            },
    ensures
        forall|i: int|
            0 <= i < offered.len() ==> #[trigger] counts[i] == min_nat(
                offered[i].len(),
                states[i].inner().room(),
            ),
        states.last().inner().contents() == states[0].inner().contents() + taken(
            offered,
            counts,
        ).flatten(),
    decreases offered.len(),
{
    let k = offered.len() as int;
    if k == 0 {
        assert(taken(offered, counts).flatten() =~= Seq::<u8>::empty());
        assert(states[0].inner().contents() + taken(offered, counts).flatten()
            =~= states[0].inner().contents());
    } else {
        let front = offered.drop_last();
        lemma_writes_pass_through(states.drop_last(), front, counts.drop_last());
        let part = offered[k - 1].take(counts[k - 1] as int);
        assert(taken(offered, counts) =~= taken(front, counts.drop_last()).push(part));
        taken(front, counts.drop_last()).lemma_flatten_push(part);
        assert(states[k - 1].write_step(offered[k - 1], states[k], Ok(counts[k - 1])));
        assert(states.last().inner().contents() =~= states[0].inner().contents() + taken(
            offered,
            counts,
        ).flatten());
    }
}

/// Through a progress writer that reports to a log, every successful write
/// adds one entry, the count the sink reported as taken; so the counts
/// reported add up to the bytes the sink took.
pub proof fn lemma_writes_accounted<W: ByteSink>(
    states: Seq<ProgressWriter<W, ProgressLog>>,
    offered: Seq<Seq<u8>>,
    counts: Seq<usize>,
)
    requires
        states.len() == offered.len() + 1,
        counts.len() == offered.len(),
        forall|i: int|
            0 <= i < offered.len() ==> {
                let j = i + 1;
                states[i].write_step(#[trigger] offered[i], states[j], Ok(counts[i]))
            },
    ensures
        states.last().callback().reports() == states[0].callback().reports() + counts,
        sum_counts(states.last().callback().reports()) == sum_counts(
            states[0].callback().reports(),
        ) + sum_counts(counts),
    decreases offered.len(),
{
    let k = offered.len() as int;
    let first = states[0].callback().reports();
    if k == 0 {
        assert(first + counts =~= first);
    } else {
        lemma_writes_accounted(states.drop_last(), offered.drop_last(), counts.drop_last());
        assert(states[k - 1].write_step(offered[k - 1], states[k], Ok(counts[k - 1])));
        let mid = states[k - 1].callback().reports();
        let last = states[k].callback().reports();
        assert(first + counts =~= (first + counts.drop_last()).push(counts[k - 1]));
        assert(last.drop_last() =~= mid);
    }
}

} // verus!
