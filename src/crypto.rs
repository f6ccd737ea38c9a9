use aes::cipher::{BlockDecrypt, KeyInit};
use vstd::prelude::*;

verus! {

/// The size of a cipher block.
pub const BLOCK: usize = 16;

/// The highest key-derivation exponent an archive may declare.
pub const MAX_KDF_COUNT: u8 = 24;

/// AES-256 decryption of one 16-byte block under a 32-byte key.
pub uninterp spec fn aes256_decrypt_block(key: Seq<u8>, block: Seq<u8>) -> Seq<u8>;

/// The first 32 bytes of PBKDF2 with HMAC-SHA256.
pub uninterp spec fn pbkdf2_hmac_sha256(password: Seq<u8>, salt: Seq<u8>, rounds: nat) -> Seq<u8>;

/// Relies on aes::Aes256 through `BlockDecrypt::decrypt_block`: decrypts one
/// 16-byte block in place under a 32-byte key.
#[verifier::external_body]
fn aes_decrypt_block(key: &[u8], block: &[u8]) -> (r: Vec<u8>)
    requires
        key@.len() == 32,
        block@.len() == 16,
    ensures
        r@ == aes256_decrypt_block(key@, block@),
        r@.len() == 16,
{
    let cipher = aes::Aes256::new(aes::cipher::generic_array::GenericArray::from_slice(key));
    let mut b = aes::cipher::generic_array::GenericArray::clone_from_slice(block);
    cipher.decrypt_block(&mut b);
    b.to_vec()
}

/// Relies on pbkdf2::pbkdf2_hmac_array with sha2::Sha256: derives 32 bytes
/// from the password and salt in `rounds` rounds.
#[verifier::external_body]
fn pbkdf2_key(password: &[u8], salt: &[u8], rounds: u32) -> (r: Vec<u8>)
    ensures
        r@ == pbkdf2_hmac_sha256(password@, salt@, rounds as nat),
        r@.len() == 32,
{
    pbkdf2::pbkdf2_hmac_array::<sha2::Sha256, 32>(password, salt, rounds).to_vec()
}

/// Two to the power `n`.
pub open spec fn two_to(n: nat) -> nat
    decreases n,
{
    if n == 0 {
        1
    } else {
        2 * two_to((n - 1) as nat)
    }
}

/// The key of an encrypted file: PBKDF2-HMAC-SHA256 of the password over
/// the file's salt in `2^kdf_count` rounds.
pub open spec fn file_key(password: Seq<u8>, salt: Seq<u8>, kdf_count: u8) -> Seq<u8> {
    pbkdf2_hmac_sha256(password, salt, two_to(kdf_count as nat))
}

/// Derives the key of an encrypted file from the password.
pub fn derive_file_key(password: &[u8], salt: &[u8], kdf_count: u8) -> (r: Vec<u8>)
    requires
        kdf_count <= MAX_KDF_COUNT,
    ensures
        r@ == file_key(password@, salt@, kdf_count),
        r@.len() == 32,
{
    let mut rounds: u32 = 1;
    let mut i: u8 = 0;
    proof {
        reveal_with_fuel(two_to, 25);
    }
    assert(two_to(24) == 16777216);
    while i < kdf_count
        invariant
            i <= kdf_count <= 24,
            rounds == two_to(i as nat),
            rounds * two_to((24 - i) as nat) == 16777216,
        decreases kdf_count - i,
    {
        assert(two_to((24 - i) as nat) == 2 * two_to((24 - i - 1) as nat));
        assert(two_to((24 - i - 1) as nat) >= 1) by {
            lemma_two_to_positive((24 - i - 1) as nat);
        }
        assert(rounds * 2 <= 16777216) by (nonlinear_arith)
            requires
                rounds * (2 * two_to((24 - i - 1) as nat)) == 16777216,
                two_to((24 - i - 1) as nat) >= 1,
        ;
        assert((rounds * 2) * two_to((24 - i - 1) as nat) == 16777216) by (nonlinear_arith)
            requires
                rounds * (2 * two_to((24 - i - 1) as nat)) == 16777216,
        ;
        rounds = rounds * 2;
        i = i + 1;
    }
    pbkdf2_key(password, salt, rounds)
}

/// Powers of two are positive.
pub proof fn lemma_two_to_positive(n: nat)
    ensures
        two_to(n) >= 1,
    decreases n,
{
    if n > 0 {
        lemma_two_to_positive((n - 1) as nat);
    }
}

/// The bytes of `a` exclusive-or those of `b`, over one block.
pub open spec fn xor_block(a: Seq<u8>, b: Seq<u8>) -> Seq<u8> {
    Seq::new(16, |j: int| a[j] ^ b[j])
}

/// AES-256-CBC decryption of the whole blocks of `ct`: each plaintext block
/// is the decrypted ciphertext block exclusive-or the block before it (the
/// initialisation vector for the first). A trailing partial block yields
/// nothing.
pub open spec fn cbc_decrypt(key: Seq<u8>, iv: Seq<u8>, ct: Seq<u8>) -> Seq<u8>
    decreases ct.len(),
{
    if ct.len() < 16 {
        Seq::empty()
    } else {
        xor_block(aes256_decrypt_block(key, ct.take(16)), iv) + cbc_decrypt(
            key,
            ct.take(16),
            ct.skip(16),
        )
    }
}

/// The block that chains into what follows `ct`: its last whole block, or
/// `iv` when it holds none.
pub open spec fn next_iv(iv: Seq<u8>, ct: Seq<u8>) -> Seq<u8> {
    if ct.len() < 16 {
        iv
    } else {
        ct.subrange(ct.len() - 16, ct.len() as int)
    }
}

/// Decryption yields one plaintext byte per byte of the whole blocks.
pub proof fn lemma_cbc_len(key: Seq<u8>, iv: Seq<u8>, ct: Seq<u8>)
    ensures
        cbc_decrypt(key, iv, ct).len() == ct.len() - ct.len() % 16,
    decreases ct.len(),
{
    if ct.len() >= 16 {
        lemma_cbc_len(key, ct.take(16), ct.skip(16));
    }
}

/// Decrypting a stream in two parts cut at a block boundary, the second
/// chained on the last block of the first, gives the whole plaintext.
pub proof fn lemma_cbc_split(key: Seq<u8>, iv: Seq<u8>, ct: Seq<u8>, n: nat)
    requires
        n % 16 == 0,
        n <= ct.len(),
    ensures
        cbc_decrypt(key, iv, ct) == cbc_decrypt(key, iv, ct.take(n as int)) + cbc_decrypt(
            key,
            next_iv(iv, ct.take(n as int)),
            ct.skip(n as int),
        ),
    decreases n,
{
    if n == 0 {
        assert(ct.take(0).len() == 0);
        assert(ct.skip(0) =~= ct);
        assert(cbc_decrypt(key, iv, ct.take(0)) =~= Seq::<u8>::empty());
        assert(cbc_decrypt(key, iv, ct) =~= Seq::<u8>::empty() + cbc_decrypt(key, iv, ct));
    } else {
        let rest = ct.skip(16);
        let m = (n - 16) as nat;
        lemma_cbc_split(key, ct.take(16), rest, m);
        let pre = ct.take(n as int);
        assert(pre.take(16) =~= ct.take(16));
        assert(pre.skip(16) =~= rest.take(m as int));
        assert(rest.skip(m as int) =~= ct.skip(n as int));
        if m == 0 {
            assert(next_iv(ct.take(16), rest.take(0)) =~= next_iv(iv, pre));
        } else {
            assert(next_iv(ct.take(16), rest.take(m as int)) =~= next_iv(iv, pre));
        }
        assert(cbc_decrypt(key, iv, ct) =~= cbc_decrypt(key, iv, pre) + cbc_decrypt(
            key,
            next_iv(iv, pre),
            ct.skip(n as int),
        ));
    }
}

/// AES-256-CBC decryption of the whole blocks of `ct` under `key`, chained
/// from `iv`.
pub fn decrypt_cbc(key: &Vec<u8>, iv: &Vec<u8>, ct: &Vec<u8>) -> (r: Vec<u8>)
    requires
        key@.len() == 32,
        iv@.len() == 16,
    ensures
        r@ == cbc_decrypt(key@, iv@, ct@),
{
    let mut out: Vec<u8> = Vec::new();
    let mut prev: Vec<u8> = iv.clone();
    let mut pos: usize = 0;
    assert(ct@.skip(0) =~= ct@);
    assert(out@ + cbc_decrypt(key@, prev@, ct@.skip(0)) =~= cbc_decrypt(key@, iv@, ct@));
    let len = ct.len();
    while BLOCK <= len - pos
        invariant
            len == ct@.len(),
            key@.len() == 32,
            prev@.len() == 16,
            pos <= ct@.len(),
            out@ + cbc_decrypt(key@, prev@, ct@.skip(pos as int)) == cbc_decrypt(
                key@,
                iv@,
                ct@,
            ),
        decreases ct@.len() - pos,
    {
        let mut block: Vec<u8> = Vec::new();
        let mut j: usize = 0;
        while j < BLOCK
            invariant
                len == ct@.len(),
                pos + 16 <= ct@.len(),
                j <= 16,
                block@ == ct@.subrange(pos as int, pos + j),
            decreases 16 - j,
        {
            block.push(ct[pos + j]);
            j = j + 1;
            assert(block@ =~= ct@.subrange(pos as int, pos + j));
        }
        let plain = aes_decrypt_block(key.as_slice(), block.as_slice());
        let mut k: usize = 0;
        let ghost start = out@;
        while k < BLOCK
            invariant
                plain@.len() == 16,
                prev@.len() == 16,
                k <= 16,
                out@ == start + xor_block(plain@, prev@).take(k as int),
            decreases 16 - k,
        {
            out.push(plain[k] ^ prev[k]);
            k = k + 1;
            assert(out@ =~= start + xor_block(plain@, prev@).take(k as int));
        }
        let ghost rest = ct@.skip(pos as int);
        assert(rest.take(16) =~= block@);
        assert(rest.skip(16) =~= ct@.skip(pos + 16));
        assert(xor_block(plain@, prev@).take(16) =~= xor_block(plain@, prev@));
        assert(out@ + cbc_decrypt(key@, block@, ct@.skip(pos + 16)) =~= start + cbc_decrypt(
            key@,
            prev@,
            rest,
        ));
        prev = block;
        pos = pos + BLOCK;
    }
    let ghost rest = ct@.skip(pos as int);
    assert(cbc_decrypt(key@, prev@, rest) =~= Seq::<u8>::empty());
    assert(out@ =~= out@ + cbc_decrypt(key@, prev@, rest));
    out
}

} // verus!
