use vstd::prelude::*;

verus! {

/// What became of a write.
#[derive(Debug, Clone, Copy, PartialEq, Eq, Structural)]
pub enum WriteStatus {
    /// The whole chunk was taken.
    Written,
    /// The target is full: only the part of the chunk that fitted was taken.
    /// This is a normal end, not an error.
    CapacityReached,
}

/// An output sink that takes bytes up to an expected total size and no more.
pub struct BoundedWriter {
    expected: u64,
    out: Vec<u8>,
}

impl View for BoundedWriter {
    type V = Seq<u8>;

    /// The bytes written so far.
    closed spec fn view(&self) -> Seq<u8> {
        self.out@
    }
}

impl BoundedWriter {
    pub closed spec fn wf(&self) -> bool {
        self.out@.len() <= self.expected
    }

    /// The total size the target is to reach.
    pub closed spec fn capacity(&self) -> nat {
        self.expected as nat
    }

    /// An empty target that takes `expected` bytes.
    pub fn new(expected: u64) -> (r: BoundedWriter)
        ensures
            r.wf(),
            r.capacity() == expected,
            r@ == Seq::<u8>::empty(),
    {
        BoundedWriter { expected, out: Vec::new() }
    }

    /// The number of bytes written so far.
    pub fn written(&self) -> (n: u64)
        requires
            self.wf(),
        ensures
            n == self@.len(),
    {
        self.out.len() as u64
    }

    /// Writes `chunk` if it fits in what is left of the capacity. If it does
    /// not, writes the part that fits and reports that the capacity is
    /// reached; on a full target that is every non-empty write.
    pub fn write(&mut self, chunk: &[u8]) -> (r: WriteStatus)
        requires
            old(self).wf(),
        ensures
            final(self).wf(),
            final(self).capacity() == old(self).capacity(),
            ({
                let room = old(self).capacity() - old(self)@.len();
                if chunk@.len() <= room {
                    r == WriteStatus::Written && final(self)@ == old(self)@ + chunk@
                } else {
                    r == WriteStatus::CapacityReached && final(self)@ == old(self)@
                        + chunk@.take(room)
                }
            }),
    {
        let room: u64 = self.expected - self.out.len() as u64;
        let fits = (chunk.len() as u64) <= room;
        let n: usize = if fits {
            chunk.len()
        } else {
            room as usize
        };
        let mut i: usize = 0;
        while i < n
            invariant
                n <= chunk@.len(),
                i <= n,
                self.expected == old(self).expected,
                old(self).out@.len() + n <= self.expected,
                self.out@ == old(self).out@ + chunk@.take(i as int),
            decreases n - i,
        {
            self.out.push(chunk[i]);
            i = i + 1;
            assert(self.out@ =~= old(self).out@ + chunk@.take(i as int));
        }
        if fits {
            assert(chunk@.take(n as int) =~= chunk@);
            WriteStatus::Written
        } else {
            WriteStatus::CapacityReached
        }
    }

    /// Ends writing and hands over what was written.
    pub fn finish(self) -> (r: Vec<u8>)
        requires
            self.wf(),
        ensures
            r@ == self@,
            r@.len() <= self.capacity(),
    {
        self.out
    }
}

} // verus!
