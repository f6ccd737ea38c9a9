use vstd::prelude::*;
use crate::blocks::FileBlock;
use crate::crypto::{cbc_decrypt, decrypt_cbc, file_key, lemma_cbc_split, next_iv, BLOCK};
use crate::error::ExtractError;
use crate::extractor::{cipher_for, params_usable, CipherState, BUFFER_SIZE};
use crate::stream::min;
use vstd::string::StringSliceAdditionalSpecFns;

verus! {

/// The bytes of `v` from `lo` up to `hi`.
pub(crate) fn copy_range(v: &[u8], lo: usize, hi: usize) -> (r: Vec<u8>)
    requires
        lo <= hi <= v@.len(),
    ensures
        r@ == v@.subrange(lo as int, hi as int),
{
    let mut out: Vec<u8> = Vec::new();
    let mut i: usize = lo;
    while i < hi
        invariant
            lo <= i <= hi <= v@.len(),
            out@ == v@.subrange(lo as int, i as int),
        decreases hi - i,
    {
        out.push(v[i]);
        i = i + 1;
        assert(out@ =~= v@.subrange(lo as int, i as int));
    }
    out
}

/// The decisions of extracting one file while its volumes are read in
/// chunks by the caller: which part of the chain to read next and how much,
/// how a chunk is decrypted, and how much of it the target still takes.
/// The caller holds the open volumes and the output; nothing is buffered
/// here beyond one incomplete cipher block.
pub struct Session {
    bounds: Vec<Option<u64>>,
    current: usize,
    left: u64,
    room: u64,
    full: bool,
    cipher: Option<CipherState>,
    pending: Vec<u8>,
}

impl Session {
    /// The bound of each chained part: `None` reads the part to its end.
    /// A part's bound shrinks as it is read.
    pub closed spec fn bounds(&self) -> Seq<Option<u64>> {
        self.bounds@
    }

    /// The part being read.
    pub closed spec fn current(&self) -> nat {
        self.current as nat
    }

    /// How much more of the data region may be read.
    pub closed spec fn left(&self) -> nat {
        self.left as nat
    }

    /// How many more bytes the target takes.
    pub closed spec fn room(&self) -> nat {
        self.room as nat
    }

    /// A chunk did not fit in the target: the capacity is reached.
    pub closed spec fn full(&self) -> bool {
        self.full
    }

    pub closed spec fn cipher(&self) -> Option<CipherState> {
        self.cipher
    }

    /// Ciphertext of a block not yet complete.
    pub closed spec fn pending(&self) -> Seq<u8> {
        self.pending@
    }

    pub closed spec fn wf(&self) -> bool {
        &&& self.current <= self.bounds@.len()
        &&& (self.cipher is Some ==> self.cipher->Some_0.wf())
    }

    /// Starts extracting `file`, whose data region is `data_area_size`
    /// bytes, from a first part with bound `first`. Fails before any read
    /// when the file is encrypted and no usable key can be had.
    pub fn new(file: &FileBlock, data_area_size: u64, first: Option<u64>, password: Option<&str>) -> (r:
        Result<Session, ExtractError>)
        ensures
            r is Ok ==> r->Ok_0.wf() && r->Ok_0.bounds() == seq![first] && r->Ok_0.current() == 0
                && r->Ok_0.left() == data_area_size && r->Ok_0.room() == file.unpacked_size
                && !r->Ok_0.full() && r->Ok_0.pending().len() == 0,
            file.encryption is None ==> r is Ok && r->Ok_0.cipher() is None,
            file.encryption is Some && password is None ==> r == Err::<Session, ExtractError>(
                ExtractError::MissingPassword,
            ),
            file.encryption is Some && password is Some && !params_usable(
                file.encryption->Some_0,
            ) ==> r == Err::<Session, ExtractError>(ExtractError::UnsupportedEncryption),
            file.encryption is Some && password is Some && params_usable(file.encryption->Some_0)
                ==> r is Ok && r->Ok_0.cipher() is Some && r->Ok_0.cipher()->Some_0.key()
                == file_key(
                password->Some_0.spec_bytes(),
                file.encryption->Some_0.salt@,
                file.encryption->Some_0.kdf_count,
            ) && r->Ok_0.cipher()->Some_0.iv() == file.encryption->Some_0.iv@,
    {
        let cipher = match cipher_for(file, password) {
            Ok(c) => c,
            Err(e) => return Err(e),
        };
        let mut bounds: Vec<Option<u64>> = Vec::new();
        bounds.push(first);
        assert(bounds@ =~= seq![first]);
        Ok(Session {
            bounds,
            current: 0,
            left: data_area_size,
            room: file.unpacked_size,
            full: false,
            cipher,
            pending: Vec::new(),
        })
    }

    /// Chains one more part, with bound `bound`, after the others.
    pub fn push_part(&mut self, bound: Option<u64>)
        requires
            old(self).wf(),
        ensures
            final(self).wf(),
            final(self).bounds() == old(self).bounds().push(bound),
            final(self).current() == old(self).current(),
            final(self).left() == old(self).left(),
            final(self).room() == old(self).room(),
            final(self).full() == old(self).full(),
            final(self).cipher() == old(self).cipher(),
            final(self).pending() == old(self).pending(),
    {
        self.bounds.push(bound);
    }

    /// The next read to make: from which part and at most how many bytes.
    /// Parts whose bound is spent are passed over. `None` when the target
    /// is full, the data region is read, or no part is left.
    pub fn next_read(&mut self) -> (r: Option<(usize, usize)>)
        requires
            old(self).wf(),
        ensures
            final(self).wf(),
            final(self).bounds() == old(self).bounds(),
            final(self).left() == old(self).left(),
            final(self).room() == old(self).room(),
            final(self).full() == old(self).full(),
            final(self).cipher() == old(self).cipher(),
            final(self).pending() == old(self).pending(),
            old(self).current() <= final(self).current(),
            forall|i: int|
                old(self).current() <= i < final(self).current() ==> #[trigger] old(self).bounds()[i]
                    == Some(0u64),
            r is None <==> (old(self).full() || old(self).left() == 0 || final(self).current()
                == final(self).bounds().len()),
            r is Some ==> ({
                let (part, max) = r->Some_0;
                &&& part == final(self).current()
                &&& part < final(self).bounds().len()
                &&& final(self).bounds()[part as int] != Some(0u64)
                &&& 0 < max <= BUFFER_SIZE
                &&& max <= final(self).left()
                &&& (final(self).bounds()[part as int] matches Some(b) ==> max <= b)
            }),
    {
        while self.current < self.bounds.len() && self.bounds[self.current] == Some(0u64)
            invariant
                self.wf(),
                self.bounds@ == old(self).bounds@,
                self.left == old(self).left,
                self.room == old(self).room,
                self.full == old(self).full,
                self.cipher == old(self).cipher,
                self.pending@ == old(self).pending@,
                old(self).current <= self.current,
                forall|i: int|
                    old(self).current <= i < self.current ==> #[trigger] self.bounds@[i] == Some(
                        0u64,
                    ),
            decreases self.bounds@.len() - self.current,
        {
            self.current = self.current + 1;
        }
        if self.full || self.left == 0 || self.current == self.bounds.len() {
            return None;
        }
        let mut max: usize = BUFFER_SIZE;
        if self.left < max as u64 {
            max = self.left as usize;
        }
        match self.bounds[self.current] {
            Some(b) => {
                if b < max as u64 {
                    max = b as usize;
                }
            },
            None => {},
        }
        Some((self.current, max))
    }

    /// Takes a chunk read from the current part. An empty chunk means the
    /// part has ended: reading moves on to the next part. Otherwise the
    /// chunk counts against the part's bound and the data region, is
    /// decrypted together with any incomplete block before it, and the
    /// plaintext that the target still takes is returned for writing.
    pub fn on_read(&mut self, chunk: &[u8]) -> (r: Vec<u8>)
        requires
            old(self).wf(),
            old(self).current() < old(self).bounds().len(),
            chunk@.len() <= old(self).left(),
            old(self).bounds()[old(self).current() as int] matches Some(b) ==> chunk@.len() <= b,
        ensures
            final(self).wf(),
            chunk@.len() == 0 ==> r@.len() == 0 && final(self).current() == old(self).current() + 1
                && final(self).bounds() == old(self).bounds() && final(self).left() == old(
                self,
            ).left() && final(self).room() == old(self).room() && final(self).full() == old(
                self,
            ).full() && final(self).cipher() == old(self).cipher() && final(self).pending()
                == old(self).pending(),
            chunk@.len() > 0 ==> ({
                let data = old(self).pending() + chunk@;
                let whole = data.len() - data.len() % 16;
                let plain = match old(self).cipher() {
                    None => chunk@,
                    Some(c) => cbc_decrypt(c.key(), c.iv(), data),
                };
                &&& r@ == plain.take(min(old(self).room() as int, plain.len() as int))
                &&& final(self).room() == old(self).room() - r@.len()
                &&& final(self).full() == (old(self).full() || plain.len() > old(self).room())
                &&& final(self).left() == old(self).left() - chunk@.len()
                &&& final(self).current() == old(self).current()
                &&& final(self).bounds() == old(self).bounds().update(
                    old(self).current() as int,
                    match old(self).bounds()[old(self).current() as int] {
                        None => None,
                        Some(b) => Some((b - chunk@.len()) as u64),
                    },
                )
                &&& match old(self).cipher() {
                    None => final(self).cipher() is None && final(self).pending() == old(
                        self,
                    ).pending(),
                    Some(c) => final(self).cipher() is Some && final(self).cipher()->Some_0.key()
                        == c.key() && final(self).cipher()->Some_0.iv() == next_iv(
                        c.iv(),
                        data.take(whole),
                    ) && final(self).pending() == data.skip(whole),
                }
            }),
    {
        if chunk.len() == 0 {
            let parts = self.bounds.len();
            assert(self.current < parts);
            self.current = self.current + 1;
            return Vec::new();
        }
        let n = chunk.len();
        self.left = self.left - n as u64;
        let cur = self.current;
        match self.bounds[cur] {
            Some(b) => {
                self.bounds.set(cur, Some(b - n as u64));
            },
            None => {},
        }
        let plain: Vec<u8> = match &self.cipher {
            None => {
                let p = copy_range(chunk, 0, n);
                assert(p@ =~= chunk@);
                p
            },
            Some(c) => {
                let mut data = copy_range(self.pending.as_slice(), 0, self.pending.len());
                let mut more = copy_range(chunk, 0, n);
                assert(more@ =~= chunk@);
                data.append(&mut more);
                assert(data@ =~= old(self).pending() + chunk@);
                let plain = decrypt_cbc(c.key_bytes(), c.iv_bytes(), &data);
                let len = data.len();
                let whole = len - len % BLOCK;
                let iv = if whole == 0 {
                    copy_range(c.iv_bytes().as_slice(), 0, BLOCK)
                } else {
                    copy_range(data.as_slice(), whole - BLOCK, whole)
                };
                proof {
                    assert(c.iv().subrange(0, 16) =~= c.iv());
                    if whole >= 16 {
                        assert(data@.take(whole as int).subrange(whole - 16, whole as int)
                            =~= data@.subrange(whole - 16, whole as int));
                    }
                }
                let next = c.chained(iv);
                self.pending = copy_range(data.as_slice(), whole, len);
                assert(self.pending@ =~= data@.skip(whole as int));
                self.cipher = Some(next);
                plain
            },
        };
        let take: usize = if (plain.len() as u64) <= self.room {
            plain.len()
        } else {
            self.room as usize
        };
        if take < plain.len() {
            self.full = true;
        }
        self.room = self.room - take as u64;
        let out = copy_range(plain.as_slice(), 0, take);
        assert(out@ =~= plain@.take(take as int));
        out
    }
}

/// Decrypting in chunks as a session does gives the plaintext of the
/// chunks taken as one: the first chunk, with the incomplete block before
/// it, then the second, chained on the last whole block and with what was
/// left incomplete in front.
pub proof fn lemma_chunks_decrypt_as_one(
    key: Seq<u8>,
    iv: Seq<u8>,
    pending: Seq<u8>,
    a: Seq<u8>,
    b: Seq<u8>,
)
    ensures
        ({
            let d = pending + a;
            let w = d.len() - d.len() % 16;
            cbc_decrypt(key, iv, d) + cbc_decrypt(key, next_iv(iv, d.take(w)), d.skip(w) + b)
                == cbc_decrypt(key, iv, pending + a + b)
        }),
{
    let d = pending + a;
    let w = d.len() - d.len() % 16;
    let all = pending + a + b;
    lemma_cbc_split(key, iv, all, w as nat);
    lemma_cbc_split(key, iv, d, w as nat);
    assert(all.take(w as int) =~= d.take(w as int));
    assert(all.skip(w as int) =~= d.skip(w as int) + b);
    assert(d.skip(w as int).len() < 16);
    assert(cbc_decrypt(key, next_iv(iv, d.take(w as int)), d.skip(w as int)) =~= Seq::<u8>::empty());
    assert(cbc_decrypt(key, iv, d) =~= cbc_decrypt(key, iv, d.take(w as int)));
}

} // verus!
