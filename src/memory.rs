//! In-memory byte sources and sinks, and a callback that records its reports.

use vstd::prelude::*;
use crate::stream::{ByteSink, ByteSource, ProgressCallback};

verus! {

/// The smaller of two naturals.
pub open spec fn min_nat(a: nat, b: nat) -> nat {
    if a <= b {
        a
    } else {
        b
    }
}

/// The sum of a sequence of counts.
pub open spec fn sum_counts(s: Seq<usize>) -> nat
    decreases s.len(),
{
    if s.len() == 0 {
        0
    } else {
        sum_counts(s.drop_last()) + s.last() as nat
    }
}

/// A source that hands out the bytes of a vector, front to back.
pub struct MemSource {
    data: Vec<u8>,
    pos: usize,
}

impl MemSource {
    #[verifier::type_invariant]
    spec fn well_formed(self) -> bool {
        self.pos <= self.data.len()
    }

    /// The bytes not read yet.
    pub closed spec fn remaining(self) -> Seq<u8> {
        self.data@.skip(self.pos as int)
    }

    /// How many bytes have been read so far.
    pub closed spec fn consumed(self) -> nat {
        self.pos as nat
    }

    pub fn new(data: Vec<u8>) -> (r: Self)
        ensures
            r.remaining() == data@,
            r.consumed() == 0,
    {
        let r = MemSource { data, pos: 0 };
        assert(r.data@.skip(0) =~= r.data@);
        r
    }

    /// How many bytes have been read so far.
    pub fn position(&self) -> (r: usize)
        ensures
            r == self.consumed(),
    {
        self.pos
    }
}

impl ByteSource for MemSource {
    type Error = std::convert::Infallible;

    /// A read delivers as many of the remaining bytes as the buffer holds,
    /// and never fails.
    open spec fn read_step(self, len: nat, next: Self, r: Result<Seq<u8>, Self::Error>) -> bool {
        let n = min_nat(len, self.remaining().len());
        match r {
            Ok(data) => {
                &&& data == self.remaining().take(n as int)
                &&& next.remaining() == self.remaining().skip(n as int)
                &&& next.consumed() == self.consumed() + n
            },
            Err(_) => false,
        }
    }

    fn read(&mut self, buf: &mut [u8]) -> (r: Result<usize, Self::Error>) {
        proof {
            use_type_invariant(&*self);
        }
        let avail: usize = self.data.len() - self.pos;
        let n: usize = if buf.len() < avail {
            buf.len()
        } else {
            avail
        };
        let ghost buf0 = buf@;
        let mut i: usize = 0;
        while i < n
            invariant
                n <= buf0.len(),
                self.pos + n <= self.data.len(),
                i <= n,
                buf@.len() == buf0.len(),
                forall|j: int| 0 <= j < i ==> buf@[j] == self.data@[self.pos + j],
            decreases n - i,
        {
            buf[i] = self.data[self.pos + i];
            i = i + 1;
        }
        let ghost before = *self;
        self.pos = self.pos + n;
        proof {
            assert(buf@.take(n as int) =~= before.remaining().take(n as int));
            assert(self.remaining() =~= before.remaining().skip(n as int));
        }
        Ok(n)
    }
}

/// A sink that appends what it takes to a vector, up to a fixed limit.
pub struct MemSink {
    data: Vec<u8>,
    limit: usize,
}

impl MemSink {
    /// The bytes taken so far.
    pub closed spec fn contents(self) -> Seq<u8> {
        self.data@
    }

    /// The most bytes the sink will ever hold.
    pub closed spec fn limit(self) -> nat {
        self.limit as nat
    }

    /// How many more bytes the sink will take.
    pub open spec fn room(self) -> nat {
        if self.contents().len() <= self.limit() {
            (self.limit() - self.contents().len()) as nat
        } else {
            0
        }
    }

    /// An empty sink with no limit beyond the address space.
    pub fn new() -> (r: Self)
        ensures
            r.contents() == Seq::<u8>::empty(),
            r.limit() == usize::MAX,
    {
        MemSink { data: Vec::new(), limit: usize::MAX }
    }

    /// An empty sink that takes at most `limit` bytes in all.
    pub fn with_limit(limit: usize) -> (r: Self)
        ensures
            r.contents() == Seq::<u8>::empty(),
            r.limit() == limit,
    {
        MemSink { data: Vec::new(), limit }
    }

    /// The bytes taken so far.
    pub fn bytes(&self) -> (r: &[u8])
        ensures
            r@ == self.contents(),
    {
        self.data.as_slice()
    }

    /// Gives up the bytes taken so far.
    pub fn into_bytes(self) -> (r: Vec<u8>)
        ensures
            r@ == self.contents(),
    {
        self.data
    }
}

impl ByteSink for MemSink {
    type Error = std::convert::Infallible;

    /// A write takes as much of `data` as the limit leaves room for, and
    /// never fails.
    open spec fn write_step(self, data: Seq<u8>, next: Self, r: Result<usize, Self::Error>) -> bool {
        let n = min_nat(data.len(), self.room());
        match r {
            Ok(k) => {
                &&& k == n
                &&& next.contents() == self.contents() + data.take(n as int)
                &&& next.limit() == self.limit()
            },
            Err(_) => false,
        }
    }

    /// A flush changes nothing and never fails.
    open spec fn flush_step(self, next: Self, r: Result<(), Self::Error>) -> bool {
        r is Ok && next == self
    }

    fn write(&mut self, buf: &[u8]) -> (r: Result<usize, Self::Error>) {
        let room: usize = if self.data.len() <= self.limit {
            self.limit - self.data.len()
        } else {
            0
        };
        let n: usize = if buf.len() < room {
            buf.len()
        } else {
            room
        };
        let ghost before = self.data@;
        let mut i: usize = 0;
        while i < n
            invariant
                n <= buf@.len(),
                self.limit == old(self).limit,
                i <= n,
                self.data@ == before + buf@.take(i as int),
            decreases n - i,
        {
            self.data.push(buf[i]);
            i = i + 1;
            assert(self.data@ =~= before + buf@.take(i as int));
        }
        Ok(n)
    }

    fn flush(&mut self) -> (r: Result<(), Self::Error>) {
        Ok(())
    }
}

/// A callback that keeps every count it is told of, in order.
pub struct ProgressLog {
    counts: Vec<usize>,
}

impl ProgressLog {
    /// The counts reported so far.
    pub closed spec fn reports(self) -> Seq<usize> {
        self.counts@
    }

    pub fn new() -> (r: Self)
        ensures
            r.reports() == Seq::<usize>::empty(),
    {
        ProgressLog { counts: Vec::new() }
    }

    /// The counts reported so far.
    pub fn counts(&self) -> (r: &[usize])
        ensures
            r@ == self.reports(),
    {
        self.counts.as_slice()
    }
}

impl ProgressCallback for ProgressLog {
    /// Each report is appended to the log.
    open spec fn notified(self, n: usize, next: Self) -> bool {
        next.reports() == self.reports().push(n)
    }

    fn on_progress(&mut self, n: usize) {
        self.counts.push(n);
    }
}

} // verus!
