use vstd::prelude::*;
use crate::blocks::FileBlock;
use crate::error::ExtractError;
use crate::blocks::EncryptionParams;
use crate::crypto::{
    cbc_decrypt, decrypt_cbc, derive_file_key, file_key, lemma_cbc_len, lemma_cbc_split, next_iv,
    BLOCK, MAX_KDF_COUNT,
};
use crate::session::copy_range;
use crate::stream::{min, Chain};
use vstd::string::StringSliceAdditionalSpecFns;
use crate::writer::{BoundedWriter, WriteStatus};

verus! {

/// The size of the chunks that the extraction moves from stream to writer.
pub const BUFFER_SIZE: usize = 8192;

/// The key and chaining block of a file's AES-256-CBC decryption.
pub struct CipherState {
    key: Vec<u8>,
    iv: Vec<u8>,
}

impl CipherState {
    pub closed spec fn key(&self) -> Seq<u8> {
        self.key@
    }

    pub closed spec fn iv(&self) -> Seq<u8> {
        self.iv@
    }

    pub open spec fn wf(&self) -> bool {
        self.key().len() == 32 && self.iv().len() == 16
    }

    /// The key.
    pub fn key_bytes(&self) -> (r: &Vec<u8>)
        ensures
            r@ == self.key(),
    {
        &self.key
    }

    /// The block the next ciphertext chains on.
    pub fn iv_bytes(&self) -> (r: &Vec<u8>)
        ensures
            r@ == self.iv(),
    {
        &self.iv
    }

    /// The same key, chaining on `iv` from now on.
    pub fn chained(&self, iv: Vec<u8>) -> (r: CipherState)
        ensures
            r.key() == self.key(),
            r.iv() == iv@,
    {
        let key = self.key.clone();
        assert(key@ == self.key@);
        CipherState { key, iv }
    }
}

/// The cipher that `file`'s data needs: none for a file without
/// encryption; for an encrypted one, the key derived from the password and
/// the file's initialisation vector. Nothing is read.
pub fn cipher_for(file: &FileBlock, password: Option<&str>) -> (r: Result<
    Option<CipherState>,
    ExtractError,
>)
    ensures
        match file.encryption {
            None => r == Ok::<Option<CipherState>, ExtractError>(None),
            Some(p) => match password {
                None => r == Err::<Option<CipherState>, ExtractError>(ExtractError::MissingPassword),
                Some(pw) => if params_usable(p) {
                    r is Ok && r->Ok_0 is Some && r->Ok_0->Some_0.wf() && r->Ok_0->Some_0.key()
                        == file_key(pw.spec_bytes(), p.salt@, p.kdf_count) && r->Ok_0->Some_0.iv()
                        == p.iv@
                } else {
                    r == Err::<Option<CipherState>, ExtractError>(
                        ExtractError::UnsupportedEncryption,
                    )
                },
            },
        },
{
    match &file.encryption {
        None => Ok(None),
        Some(p) => match password {
            None => Err(ExtractError::MissingPassword),
            Some(pw) => {
                if p.salt.len() != 16 || p.iv.len() != 16 || p.kdf_count > MAX_KDF_COUNT {
                    return Err(ExtractError::UnsupportedEncryption);
                }
                let key = derive_file_key(pw.as_bytes(), p.salt.as_slice(), p.kdf_count);
                let iv = p.iv.clone();
                assert(iv@ == p.iv@);
                Ok(Some(CipherState { key, iv }))
            },
        },
    }
}

/// An encrypted file's parameters can be used: a 16-byte salt, a 16-byte
/// initialisation vector and a key-derivation exponent in range.
pub open spec fn params_usable(p: EncryptionParams) -> bool {
    p.salt@.len() == 16 && p.iv@.len() == 16 && p.kdf_count <= MAX_KDF_COUNT
}

/// The password as bytes, if there is one.
pub open spec fn password_bytes(password: Option<&str>) -> Option<Seq<u8>> {
    match password {
        Some(p) => Some(p.spec_bytes()),
        None => None,
    }
}

/// What the decryption filter makes of the ciphertext `region` of `file`:
/// the region itself for a file without encryption, its AES-256-CBC
/// decryption under the key derived from the password otherwise.
pub open spec fn decrypted(file: FileBlock, password: Option<Seq<u8>>, region: Seq<u8>) -> Result<
    Seq<u8>,
    ExtractError,
> {
    match file.encryption {
        None => Ok(region),
        Some(p) => match password {
            None => Err(ExtractError::MissingPassword),
            Some(pw) => if params_usable(p) {
                Ok(cbc_decrypt(file_key(pw, p.salt@, p.kdf_count), p.iv@, region))
            } else {
                Err(ExtractError::UnsupportedEncryption)
            },
        },
    }
}

/// Reads one file's data region (at most `limit` bytes of a chain) and
/// decrypts it when the file is encrypted; otherwise passes it through.
pub struct DecryptionFilter {
    inner: Chain,
    left: u64,
    cipher: Option<CipherState>,
    ready: Vec<u8>,
}

impl DecryptionFilter {
    /// The ciphertext still to be read.
    pub closed spec fn region(&self) -> Seq<u8> {
        self.inner@.take(min(self.left as int, self.inner@.len() as int))
    }

    pub closed spec fn is_encrypted(&self) -> bool {
        self.cipher is Some
    }

    /// The plaintext of the region still to be read.
    closed spec fn base(&self) -> Seq<u8> {
        match self.cipher {
            None => self.region(),
            Some(c) => cbc_decrypt(c.key@, c.iv@, self.region()),
        }
    }
}

impl View for DecryptionFilter {
    type V = Seq<u8>;

    /// The plaintext still to be read: what was decrypted and not yet
    /// handed out, then the rest of the region.
    closed spec fn view(&self) -> Seq<u8> {
        self.ready@ + self.base()
    }
}

impl DecryptionFilter {
    pub closed spec fn wf(&self) -> bool {
        &&& self.inner.wf()
        &&& match self.cipher {
            None => self.ready@.len() == 0,
            Some(c) => c.key@.len() == 32 && c.iv@.len() == 16,
        }
    }

    /// Sets up the filter for `file`'s data region, the first `limit` bytes
    /// of `inner`. An encrypted file without a password fails here, before
    /// anything is read.
    pub fn new(inner: Chain, limit: u64, file: &FileBlock, password: Option<&str>) -> (r: Result<
        DecryptionFilter,
        ExtractError,
    >)
        requires
            inner.wf(),
        ensures
            match decrypted(
                *file,
                password_bytes(password),
                inner@.take(min(limit as int, inner@.len() as int)),
            ) {
                Ok(plain) => r is Ok && r->Ok_0.wf() && r->Ok_0@ == plain && (r->Ok_0.is_encrypted()
                    <==> file.encryption is Some),
                Err(e) => r == Err::<DecryptionFilter, ExtractError>(e),
            },
    {
        match cipher_for(file, password) {
            Ok(c) => Ok(DecryptionFilter::with_cipher(inner, limit, c)),
            Err(e) => Err(e),
        }
    }

    /// The filter over the first `limit` bytes of `inner`, decrypting with
    /// `cipher` if there is one.
    pub fn with_cipher(inner: Chain, limit: u64, cipher: Option<CipherState>) -> (r: DecryptionFilter)
        requires
            inner.wf(),
            cipher is Some ==> cipher->Some_0.wf(),
        ensures
            r.wf(),
            r.source() == inner@,
            r.budget() == limit,
            r.is_encrypted() == cipher is Some,
            r@ == match cipher {
                None => inner@.take(min(limit as int, inner@.len() as int)),
                Some(c) => cbc_decrypt(c.key(), c.iv(), inner@.take(min(limit as int, inner@.len() as int))),
            },
    {
        let r = DecryptionFilter { inner, left: limit, cipher, ready: Vec::new() };
        assert(r@ =~= r.base());
        r
    }

    /// The chain this filter reads from, with what is left of it.
    pub closed spec fn source(&self) -> Seq<u8> {
        self.inner@
    }

    /// How many more bytes of the chain this filter may read.
    pub closed spec fn budget(&self) -> nat {
        self.left as nat
    }

    /// Reads up to `max` plaintext bytes. A read yields none only when the
    /// data region is exhausted (or `max` is zero). Encrypted data is
    /// decrypted a whole block at a time; plaintext that does not fit in
    /// `max` waits for the next read.
    pub fn read(&mut self, max: usize) -> (r: Vec<u8>)
        requires
            old(self).wf(),
        ensures
            final(self).wf(),
            final(self).is_encrypted() == old(self).is_encrypted(),
            final(self).budget() <= old(self).budget(),
            old(self).budget() - final(self).budget() <= old(self).source().len(),
            final(self).source() == old(self).source().skip(
                old(self).budget() - final(self).budget(),
            ),
            !old(self).is_encrypted() && max > 0 && r@.len() == 0 ==> final(self).budget() == 0
                || final(self).source().len() == 0,
            r@.len() <= max,
            r@.len() <= old(self)@.len(),
            r@ == old(self)@.take(r@.len() as int),
            final(self)@ == old(self)@.skip(r@.len() as int),
            max > 0 && old(self)@.len() > 0 ==> r@.len() > 0,
    {
        if self.ready.len() > 0 {
            let k: usize = if max < self.ready.len() {
                max
            } else {
                self.ready.len()
            };
            let len = self.ready.len();
            let r = copy_range(self.ready.as_slice(), 0, k);
            self.ready = copy_range(self.ready.as_slice(), k, len);
            proof {
                assert(old(self).source().skip(0) =~= old(self).source());
                assert(r@ =~= old(self)@.take(k as int));
                assert(self@ =~= old(self)@.skip(k as int));
            }
            return r;
        }
        assert(self@ =~= self.base());
        let ask: usize = if self.cipher.is_some() && max < BLOCK {
            BLOCK
        } else {
            max
        };
        let plain = self.read_blocks(ask);
        assert(self@ =~= self.base());
        if plain.len() <= max {
            return plain;
        }
        let len = plain.len();
        let r = copy_range(plain.as_slice(), 0, max);
        self.ready = copy_range(plain.as_slice(), max, len);
        proof {
            assert(r@ =~= old(self)@.take(max as int));
            assert(self@ =~= old(self)@.skip(max as int));
        }
        r
    }

    /// Reads whole blocks of the region: the plaintext of at most `max`
    /// bytes of ciphertext (of `max` bytes for unencrypted data).
    fn read_blocks(&mut self, max: usize) -> (r: Vec<u8>)
        requires
            old(self).wf(),
            old(self).is_encrypted() ==> max >= BLOCK,
        ensures
            final(self).wf(),
            final(self).is_encrypted() == old(self).is_encrypted(),
            final(self).ready@ == old(self).ready@,
            final(self).budget() <= old(self).budget(),
            old(self).budget() - final(self).budget() <= old(self).source().len(),
            final(self).source() == old(self).source().skip(
                old(self).budget() - final(self).budget(),
            ),
            !old(self).is_encrypted() && max > 0 && r@.len() == 0 ==> final(self).budget() == 0
                || final(self).source().len() == 0,
            r@.len() <= max,
            r@.len() <= old(self).base().len(),
            r@ == old(self).base().take(r@.len() as int),
            final(self).base() == old(self).base().skip(r@.len() as int),
            max > 0 && old(self).base().len() > 0 ==> r@.len() > 0,
    {
        let want: usize = if self.cipher.is_none() {
            max
        } else {
            max - max % BLOCK
        };
        let want: usize = if (want as u64) <= self.left {
            want
        } else {
            self.left as usize
        };
        let ghost inner0 = self.inner@;
        let ghost region0 = self.region();
        let mut ct: Vec<u8> = Vec::new();
        loop
            invariant
                self.inner.wf(),
                self.left == old(self).left,
                self.cipher == old(self).cipher,
                self.ready@ == old(self).ready@,
                want <= self.left,
                ct@.len() <= want,
                ct@ + self.inner@ == inner0,
            ensures
                self.left == old(self).left,
                self.cipher == old(self).cipher,
                self.ready@ == old(self).ready@,
                want <= self.left,
                self.inner.wf(),
                ct@.len() <= want,
                ct@ + self.inner@ == inner0,
                ct@.len() == want || self.inner@.len() == 0,
            decreases want - ct@.len(),
        {
            if ct.len() == want {
                break;
            }
            let ghost before = self.inner@;
            let mut got = self.inner.read(want - ct.len());
            if got.len() == 0 {
                break;
            }
            let ghost got_v = got@;
            ct.append(&mut got);
            assert(before =~= got_v + self.inner@);
            assert(ct@ + self.inner@ =~= inner0);
        }
        let n = ct.len();
        self.left = self.left - n as u64;
        proof {
            assert(ct@ =~= inner0.take(n as int));
            assert(self.inner@ =~= inner0.skip(n as int));
            assert(ct@ =~= region0.take(n as int));
            assert(self.region() =~= region0.skip(n as int));
        }
        match self.cipher {
            None => {
                let r = ct;
                proof {
                    assert(r@ =~= old(self).base().take(r@.len() as int));
                }
                r
            },
            Some(ref c) => {
                let ghost key = c.key@;
                let ghost iv0 = c.iv@;
                let plain = decrypt_cbc(&c.key, &c.iv, &ct);
                proof {
                    lemma_cbc_len(key, iv0, ct@);
                }
                let whole = n - n % BLOCK;
                let mut iv: Vec<u8> = Vec::new();
                if whole == 0 {
                    iv = c.iv.clone();
                } else {
                    let mut j: usize = whole - BLOCK;
                    while j < whole
                        invariant
                            BLOCK <= whole <= n,
                            n == ct@.len(),
                            whole - BLOCK <= j <= whole,
                            iv@ == ct@.subrange(whole - BLOCK, j as int),
                        decreases whole - j,
                    {
                        iv.push(ct[j]);
                        j = j + 1;
                        assert(iv@ =~= ct@.subrange(whole - BLOCK, j as int));
                    }
                }
                proof {
                    if n == want && n % 16 == 0 {
                        lemma_cbc_split(key, iv0, region0, n as nat);
                        assert(iv@ =~= next_iv(iv0, region0.take(n as int)));
                    } else {
                        assert(self.region().len() == 0);
                        assert(region0 =~= ct@);
                        assert(cbc_decrypt(key, iv@, self.region()) =~= Seq::<u8>::empty());
                    }
                }
                let key_v = c.key.clone();
                assert(key_v@ == key);
                self.cipher = Some(CipherState { key: key_v, iv });
                proof {
                    assert(plain@ =~= old(self).base().take(plain@.len() as int));
                    assert(self.base() =~= old(self).base().skip(plain@.len() as int));
                }
                plain
            },
        }
    }
}

/// The first `data_area_size` bytes of `stream`: the file's data region.
pub open spec fn data_region(stream: Seq<u8>, data_area_size: nat) -> Seq<u8> {
    stream.take(min(data_area_size as int, stream.len() as int))
}

/// What a target of `expected` bytes holds once `plain` has been written
/// to it: `plain`, cut at the expected size.
pub open spec fn extracted(plain: Seq<u8>, expected: nat) -> Seq<u8> {
    plain.take(min(expected as int, plain.len() as int))
}

/// What extracting `file` from `stream` gives: the plaintext of its data
/// region cut at the file's unpacked size, or the error of the decryption
/// set-up.
pub open spec fn extraction_outcome(
    file: FileBlock,
    password: Option<Seq<u8>>,
    stream: Seq<u8>,
    data_area_size: nat,
) -> Result<Seq<u8>, ExtractError> {
    match decrypted(file, password, data_region(stream, data_area_size)) {
        Ok(plain) => Ok(extracted(plain, file.unpacked_size as nat)),
        Err(e) => Err(e),
    }
}

/// Extracts `file`'s data from `reader`: reads its data region, at most
/// `data_area_size` bytes, through the decryption filter in chunks and
/// writes them to a target of the file's unpacked size, until the stream
/// ends or the target is full. Returns the bytes the target holds at the end.
pub fn extract(
    file: &FileBlock,
    reader: &mut Chain,
    data_area_size: u64,
    password: Option<&str>,
) -> (r: Result<Vec<u8>, ExtractError>)
    requires
        old(reader).wf(),
    ensures
        final(reader).wf(),
        r is Err ==> final(reader)@ == old(reader)@,
        r is Ok ==> exists|n: int|
            0 <= n <= min(data_area_size as int, old(reader)@.len() as int) && final(reader)@
                == old(reader)@.skip(n) && (file.encryption is None && file.unpacked_size >= min(
                data_area_size as int,
                old(reader)@.len() as int,
            ) ==> n == min(data_area_size as int, old(reader)@.len() as int)),
        match extraction_outcome(
            *file,
            password_bytes(password),
            old(reader)@,
            data_area_size as nat,
        ) {
            Ok(bytes) => r is Ok && r->Ok_0@ == bytes,
            Err(e) => r == Err::<Vec<u8>, ExtractError>(e),
        },
{
    let ghost e = file.unpacked_size as int;
    let mut writer = BoundedWriter::new(file.unpacked_size);
    let cipher = match cipher_for(file, password) {
        Ok(c) => c,
        Err(err) => return Err(err),
    };
    let ghost v0 = reader@;
    let ghost d = data_area_size as int;
    let mut inner = Chain::empty();
    std::mem::swap(&mut inner, reader);
    let mut filter = DecryptionFilter::with_cipher(inner, data_area_size, cipher);
    let ghost v = filter@;
    assert(v.skip(0) =~= v);
    assert(v0.skip(0) =~= v0);
    loop
        invariant
            filter.wf(),
            writer.wf(),
            writer.capacity() == e,
            filter@.len() <= v.len(),
            filter@ == v.skip(v.len() - filter@.len()),
            writer@ == v.take(min(v.len() - filter@.len(), e)),
            filter.is_encrypted() == (file.encryption is Some),
            filter.budget() <= d,
            d - filter.budget() <= v0.len(),
            filter.source() == v0.skip(d - filter.budget()),
            file.encryption is None ==> v == v0.take(min(d, v0.len() as int)),
        ensures
            filter.wf(),
            writer@ == extracted(v, e as nat),
            filter.budget() <= d,
            d - filter.budget() <= v0.len(),
            filter.source() == v0.skip(d - filter.budget()),
            file.encryption is None && e >= min(d, v0.len() as int) ==> d - filter.budget() == min(
                d,
                v0.len() as int,
            ),
        decreases filter@.len(),
    {
        let ghost c = v.len() - filter@.len();
        let ghost src0 = filter.source();
        let ghost b0 = filter.budget();
        let data = filter.read(BUFFER_SIZE);
        proof {
            assert(v0.skip(d - b0).skip(b0 - filter.budget()) =~= v0.skip(d - filter.budget()));
        }
        if data.len() == 0 {
            assert(writer@ =~= extracted(v, e as nat));
            break;
        }
        proof {
            assert(v.skip(c).take(data@.len() as int) =~= v.subrange(c, c + data@.len()));
            assert(filter@ =~= v.skip(c + data@.len()));
        }
        match writer.write(data.as_slice()) {
            WriteStatus::Written => {
                assert(writer@ =~= v.take(min(v.len() - filter@.len(), e)));
            },
            WriteStatus::CapacityReached => {
                assert(writer@ =~= v.take(e));
                assert(file.encryption is None ==> e < v.len());
                assert(writer@ =~= extracted(v, e as nat));
                break;
            },
        }
    }
    *reader = filter.inner;
    let out = writer.finish();
    Ok(out)
}

} // verus!
