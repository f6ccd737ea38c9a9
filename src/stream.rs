use vstd::prelude::*;

verus! {

/// The smaller of two integers.
pub open spec fn min(a: int, b: int) -> int {
    if a <= b {
        a
    } else {
        b
    }
}

/// A byte source: the bytes of a volume, read front to back.
pub struct ByteSource {
    data: Vec<u8>,
    pos: usize,
}

impl View for ByteSource {
    type V = Seq<u8>;

    /// The bytes that are still to be read.
    closed spec fn view(&self) -> Seq<u8> {
        self.data@.subrange(self.pos as int, self.data@.len() as int)
    }
}

impl ByteSource {
    pub closed spec fn wf(&self) -> bool {
        self.pos <= self.data@.len()
    }

    /// A source that yields `data` from its first byte.
    pub fn new(data: Vec<u8>) -> (r: ByteSource)
        ensures
            r.wf(),
            r@ == data@,
    {
        let r = ByteSource { data, pos: 0 };
        assert(r@ =~= r.data@);
        r
    }

    /// The number of bytes still to be read.
    pub fn available(&self) -> (n: usize)
        requires
            self.wf(),
        ensures
            n == self@.len(),
    {
        self.data.len() - self.pos
    }

    /// Reads up to `max` bytes: exactly `min(max, available)` of them.
    pub fn read(&mut self, max: usize) -> (r: Vec<u8>)
        requires
            old(self).wf(),
        ensures
            final(self).wf(),
            r@.len() == min(max as int, old(self)@.len() as int),
            r@ == old(self)@.take(r@.len() as int),
            final(self)@ == old(self)@.skip(r@.len() as int),
    {
        let avail = self.data.len() - self.pos;
        let n: usize = if max <= avail {
            max
        } else {
            avail
        };
        let mut out: Vec<u8> = Vec::new();
        let start = self.pos;
        let end = start + n;
        let mut j: usize = start;
        while j < end
            invariant
                self.wf(),
                self.pos == start,
                end <= self.data@.len(),
                start <= j <= end,
                out@ == self.data@.subrange(start as int, j as int),
            decreases end - j,
        {
            out.push(self.data[j]);
            j = j + 1;
            assert(out@ =~= self.data@.subrange(start as int, j as int));
        }
        self.pos = end;
        assert(out@ =~= old(self)@.take(n as int));
        assert(self@ =~= old(self)@.skip(n as int));
        out
    }
}

/// A bounded sub-stream: at most `remaining` more bytes of a source, then
/// end of stream whatever the source still holds.
pub struct SubStream {
    source: ByteSource,
    remaining: u64,
}

impl View for SubStream {
    type V = Seq<u8>;

    closed spec fn view(&self) -> Seq<u8> {
        self.source@.take(min(self.remaining as int, self.source@.len() as int))
    }
}

impl SubStream {
    pub closed spec fn wf(&self) -> bool {
        self.source.wf()
    }

    /// The budget that is left.
    pub closed spec fn budget(&self) -> nat {
        self.remaining as nat
    }

    /// Exposes only the next `limit` bytes of `source`.
    pub fn new(source: ByteSource, limit: u64) -> (r: SubStream)
        requires
            source.wf(),
        ensures
            r.wf(),
            r.budget() == limit,
            r@ == source@.take(min(limit as int, source@.len() as int)),
            r@.len() == min(limit as int, source@.len() as int),
    {
        SubStream { source, remaining: limit }
    }

    /// Exposes the whole of `source`: it ends where the source ends.
    pub fn whole(source: ByteSource) -> (r: SubStream)
        requires
            source.wf(),
        ensures
            r.wf(),
            r@ == source@,
    {
        let n = source.available();
        let r = SubStream { source, remaining: n as u64 };
        assert(r@ =~= r.source@);
        r
    }

    /// The number of bytes this sub-stream still yields.
    pub fn len(&self) -> (n: usize)
        requires
            self.wf(),
        ensures
            n == self@.len(),
    {
        let avail = self.source.available();
        if self.remaining < avail as u64 {
            self.remaining as usize
        } else {
            avail
        }
    }

    /// Reads `min(max, remaining budget, what the source holds)` bytes.
    /// Once the budget is spent every read yields nothing and changes nothing.
    pub fn read(&mut self, max: usize) -> (r: Vec<u8>)
        requires
            old(self).wf(),
        ensures
            final(self).wf(),
            r@.len() == min(max as int, old(self)@.len() as int),
            r@ == old(self)@.take(r@.len() as int),
            final(self)@ == old(self)@.skip(r@.len() as int),
            final(self).budget() == old(self).budget() - r@.len(),
            old(self).budget() == 0 ==> r@.len() == 0 && *final(self) == *old(self),
    {
        if self.remaining == 0 {
            return Vec::new();
        }
        let want: usize = if (max as u64) <= self.remaining {
            max
        } else {
            self.remaining as usize
        };
        let r = self.source.read(want);
        self.remaining = self.remaining - r.len() as u64;
        assert(r@ =~= old(self)@.take(r@.len() as int));
        assert(self@ =~= old(self)@.skip(r@.len() as int));
        r
    }
}

/// The bytes of a list of sub-streams read one after the other.
pub open spec fn concat_views(parts: Seq<SubStream>) -> Seq<u8>
    decreases parts.len(),
{
    if parts.len() == 0 {
        Seq::empty()
    } else {
        parts[0]@ + concat_views(parts.drop_first())
    }
}

/// A list of one sub-stream yields that sub-stream's bytes.
pub proof fn lemma_concat_views_single(p: SubStream)
    ensures
        concat_views(seq![p]) == p@,
{
    let s = seq![p];
    assert(s.drop_first() =~= Seq::<SubStream>::empty());
    assert(concat_views(s.drop_first()) == Seq::<u8>::empty());
    assert(concat_views(s) == s[0]@ + concat_views(s.drop_first()));
    assert(concat_views(s) =~= p@);
}

/// Every sub-stream of a list is well formed.
pub open spec fn all_wf(parts: Seq<SubStream>) -> bool {
    forall|i: int| 0 <= i < parts.len() ==> #[trigger] parts[i].wf()
}

/// Joining two lists joins their bytes.
pub proof fn lemma_concat_views_append(a: Seq<SubStream>, b: Seq<SubStream>)
    ensures
        concat_views(a + b) == concat_views(a) + concat_views(b),
    decreases a.len(),
{
    if a.len() == 0 {
        assert(a + b =~= b);
        assert(concat_views(a) + concat_views(b) =~= concat_views(b));
    } else {
        assert((a + b).drop_first() =~= a.drop_first() + b);
        lemma_concat_views_append(a.drop_first(), b);
        assert(concat_views(a + b) =~= concat_views(a) + concat_views(b));
    }
}

/// A chain of sub-streams: reads drain the first before touching the next.
/// Held as a flat list, so a file over many volumes is no deep nesting.
pub struct Chain {
    parts: Vec<SubStream>,
}

impl View for Chain {
    type V = Seq<u8>;

    closed spec fn view(&self) -> Seq<u8> {
        concat_views(self.parts@)
    }
}

impl Chain {
    pub closed spec fn wf(&self) -> bool {
        all_wf(self.parts@)
    }

    /// A chain that yields nothing.
    pub fn empty() -> (r: Chain)
        ensures
            r.wf(),
            r@ == Seq::<u8>::empty(),
    {
        Chain { parts: Vec::new() }
    }

    /// A chain of one sub-stream.
    pub fn single(part: SubStream) -> (r: Chain)
        requires
            part.wf(),
        ensures
            r.wf(),
            r@ == part@,
    {
        let mut parts: Vec<SubStream> = Vec::new();
        parts.push(part);
        proof {
            assert(parts@ =~= seq![part]);
            lemma_concat_views_single(part);
        }
        Chain { parts }
    }

    /// This chain followed by `next`: all bytes of `self` in order, then all
    /// bytes of `next` in order, nothing dropped or repeated at the seam.
    pub fn chain(self, next: SubStream) -> (r: Chain)
        requires
            self.wf(),
            next.wf(),
        ensures
            r.wf(),
            r@ == self@ + next@,
    {
        let ghost before = self.parts@;
        let mut parts = self.parts;
        parts.push(next);
        proof {
            assert(parts@ =~= before + seq![next]);
            lemma_concat_views_append(before, seq![next]);
            lemma_concat_views_single(next);
        }
        Chain { parts }
    }

    /// This chain followed by the chain `next`.
    pub fn append(self, next: Chain) -> (r: Chain)
        requires
            self.wf(),
            next.wf(),
        ensures
            r.wf(),
            r@ == self@ + next@,
    {
        let ghost a = self.parts@;
        let ghost b = next.parts@;
        let mut parts = self.parts;
        let mut more = next.parts;
        parts.append(&mut more);
        proof {
            assert(parts@ =~= a + b);
            lemma_concat_views_append(a, b);
        }
        Chain { parts }
    }

    /// Reads up to `max` bytes from the first sub-stream that is not
    /// exhausted. A read may yield fewer bytes than asked; it yields none
    /// only when the whole chain is exhausted (or `max` is zero).
    pub fn read(&mut self, max: usize) -> (r: Vec<u8>)
        requires
            old(self).wf(),
        ensures
            final(self).wf(),
            r@.len() <= max,
            r@.len() <= old(self)@.len(),
            r@ == old(self)@.take(r@.len() as int),
            final(self)@ == old(self)@.skip(r@.len() as int),
            max > 0 && old(self)@.len() > 0 ==> r@.len() > 0,
    {
        if max == 0 {
            assert(self@.skip(0) =~= self@);
            assert(self@.take(0) =~= Seq::<u8>::empty());
            return Vec::new();
        }
        loop
            invariant
                self.wf(),
                self@ == old(self)@,
                max > 0,
            decreases self.parts@.len(),
        {
            if self.parts.len() == 0 {
                assert(self@.skip(0) =~= self@);
                assert(self@.take(0) =~= Seq::<u8>::empty());
                return Vec::new();
            }
            let ghost ps = self.parts@;
            let mut first = self.parts.remove(0);
            assert(self.parts@ =~= ps.drop_first());
            assert(first.wf());
            let r = first.read(max);
            if r.len() > 0 {
                self.parts.insert(0, first);
                proof {
                    assert(self.parts@.drop_first() =~= ps.drop_first());
                    assert(self.parts@[0] == first);
                    assert(self@ =~= first@ + concat_views(ps.drop_first()));
                    assert(r@ =~= old(self)@.take(r@.len() as int));
                    assert(self@ =~= old(self)@.skip(r@.len() as int));
                }
                return r;
            }
            assert(ps[0]@.len() == 0);
            assert(self@ =~= old(self)@);
        }
    }

    /// Reads the whole chain, `chunk` bytes at a time at most, and returns
    /// what was read: exactly the chain's bytes in order, whatever the chunk.
    pub fn read_to_end(&mut self, chunk: usize) -> (r: Vec<u8>)
        requires
            old(self).wf(),
            chunk > 0,
        ensures
            final(self).wf(),
            r@ == old(self)@,
            final(self)@.len() == 0,
    {
        let mut out: Vec<u8> = Vec::new();
        loop
            invariant
                self.wf(),
                chunk > 0,
                out@ + self@ == old(self)@,
            decreases self@.len(),
        {
            let ghost prev = self@;
            let got = self.read(chunk);
            if got.len() == 0 {
                assert(out@ =~= old(self)@);
                return out;
            }
            let ghost got_v = got@;
            let mut g = got;
            out.append(&mut g);
            assert(prev =~= got_v + self@);
            assert(out@ + self@ =~= old(self)@);
        }
    }
}

} // verus!
