use vstd::prelude::*;

use aes::cipher::{generic_array::GenericArray, BlockDecrypt, BlockEncrypt, KeyInit};
use aes::Aes256;
use sha2::{Digest, Sha256};

verus! {

/// The 32-byte digest that the key derivation produces for a passphrase.
/// It stands for sha2's `Sha256` applied to the passphrase's UTF-8 bytes.
pub uninterp spec fn derived_key_of(pass: Seq<char>) -> Seq<u8>;

/// The 16-byte AES-256 encryption of one block under the given 32-byte key.
pub uninterp spec fn aes256_encrypt_block_of(key: Seq<u8>, block: Seq<u8>) -> Seq<u8>;

/// The 16-byte AES-256 decryption of one block under the given 32-byte key.
pub uninterp spec fn aes256_decrypt_block_of(key: Seq<u8>, block: Seq<u8>) -> Seq<u8>;

/// Relies on sha2's `Sha256` (via the `Digest` trait): a deterministic
/// 256-bit digest of the input bytes, used directly as the symmetric key.
#[verifier::external_body]
pub(crate) fn derive_key(pass: &str) -> (r: Vec<u8>)
    ensures
        r@ == derived_key_of(pass@),
        r@.len() == 32,
{
    let mut hasher = Sha256::new();
    hasher.update(pass.as_bytes());
    hasher.finalize().to_vec()
}

/// Relies on aes's `Aes256` with `KeyInit::new_from_slice` and
/// `BlockEncrypt::encrypt_block`: a 16-byte block is encrypted in place
/// under a 32-byte key, and `BlockDecrypt::decrypt_block` inverts it.
#[verifier::external_body]
pub(crate) fn encrypt_block(key: &Vec<u8>, block: &Vec<u8>) -> (r: Vec<u8>)
    requires
        key@.len() == 32,
        block@.len() == 16,
    ensures
        r@ == aes256_encrypt_block_of(key@, block@),
        aes256_decrypt_block_of(key@, r@) == block@,
        r@.len() == 16,
{
    let cipher = Aes256::new_from_slice(key).unwrap();
    let mut b = GenericArray::clone_from_slice(block);
    cipher.encrypt_block(&mut b);
    b.to_vec()
}

/// Relies on aes's `Aes256` with `KeyInit::new_from_slice` and
/// `BlockDecrypt::decrypt_block`: a 16-byte block is decrypted in place
/// under a 32-byte key.
#[verifier::external_body]
pub(crate) fn decrypt_block(key: &Vec<u8>, block: &Vec<u8>) -> (r: Vec<u8>)
    requires
        key@.len() == 32,
        block@.len() == 16,
    ensures
        r@ == aes256_decrypt_block_of(key@, block@),
        r@.len() == 16,
{
    let cipher = Aes256::new_from_slice(key).unwrap();
    let mut b = GenericArray::clone_from_slice(block);
    cipher.decrypt_block(&mut b);
    b.to_vec()
}

/// The cipher block size in bytes.
pub const BLOCK_SIZE: usize = 16;

/// PKCS#7-style padding to a multiple of 16: the pad value equals the
/// number of pad bytes appended, and at least one byte is appended even
/// when the input is already block-aligned.
pub open spec fn pad16(s: Seq<u8>) -> Seq<u8> {
    let n = 16 - (s.len() % 16);
    s + Seq::new(n as nat, |i: int| n as u8)
}

/// Padding removal: if the last byte `n` is at most 16 and the last `n`
/// bytes all equal `n`, those bytes are stripped; otherwise the buffer is
/// returned untouched.
pub open spec fn strip16(s: Seq<u8>) -> Seq<u8> {
    if s.len() == 0 {
        s
    } else {
        let n = s.last() as int;
        if n <= 16 && n <= s.len() && (forall|i: int|
            s.len() - n <= i < s.len() ==> s[i] == s.last()) {
            s.take(s.len() - n)
        } else {
            s
        }
    }
}

/// Block-wise AES-256 encryption of a block-aligned buffer, each 16-byte
/// block an independent cipher invocation, in original order.
pub open spec fn enc_bytes(key: Seq<u8>, s: Seq<u8>) -> Seq<u8>
    decreases s.len(),
{
    if s.len() < 16 {
        Seq::empty()
    } else {
        aes256_encrypt_block_of(key, s.take(16)) + enc_bytes(key, s.skip(16))
    }
}

/// Block-wise AES-256 decryption of a block-aligned buffer.
pub open spec fn dec_bytes(key: Seq<u8>, s: Seq<u8>) -> Seq<u8>
    decreases s.len(),
{
    if s.len() < 16 {
        Seq::empty()
    } else {
        aes256_decrypt_block_of(key, s.take(16)) + dec_bytes(key, s.skip(16))
    }
}

pub proof fn lemma_enc_bytes_append(key: Seq<u8>, a: Seq<u8>, b: Seq<u8>)
    requires
        a.len() % 16 == 0,
    ensures
        enc_bytes(key, a + b) == enc_bytes(key, a) + enc_bytes(key, b),
    decreases a.len(),
{
    if a.len() == 0 {
        assert(a + b =~= b);
        assert(enc_bytes(key, a) + enc_bytes(key, b) =~= enc_bytes(key, b));
    } else {
        assert((a + b).take(16) =~= a.take(16));
        assert((a + b).skip(16) =~= a.skip(16) + b);
        lemma_enc_bytes_append(key, a.skip(16), b);
        assert(enc_bytes(key, a) + enc_bytes(key, b) =~= aes256_encrypt_block_of(key, a.take(16))
            + (enc_bytes(key, a.skip(16)) + enc_bytes(key, b)));
    }
}

pub proof fn lemma_dec_bytes_append(key: Seq<u8>, a: Seq<u8>, b: Seq<u8>)
    requires
        a.len() % 16 == 0,
    ensures
        dec_bytes(key, a + b) == dec_bytes(key, a) + dec_bytes(key, b),
    decreases a.len(),
{
    if a.len() == 0 {
        assert(a + b =~= b);
        assert(dec_bytes(key, a) + dec_bytes(key, b) =~= dec_bytes(key, b));
    } else {
        assert((a + b).take(16) =~= a.take(16));
        assert((a + b).skip(16) =~= a.skip(16) + b);
        lemma_dec_bytes_append(key, a.skip(16), b);
        assert(dec_bytes(key, a) + dec_bytes(key, b) =~= aes256_decrypt_block_of(key, a.take(16))
            + (dec_bytes(key, a.skip(16)) + dec_bytes(key, b)));
    }
}

pub proof fn lemma_enc_bytes_single(key: Seq<u8>, b: Seq<u8>)
    requires
        b.len() == 16,
    ensures
        enc_bytes(key, b) == aes256_encrypt_block_of(key, b),
{
    assert(b.take(16) =~= b);
    assert(b.skip(16).len() == 0);
    assert(enc_bytes(key, b.skip(16)) =~= Seq::<u8>::empty());
    assert(enc_bytes(key, b) =~= aes256_encrypt_block_of(key, b));
}

pub proof fn lemma_dec_bytes_single(key: Seq<u8>, b: Seq<u8>)
    requires
        b.len() == 16,
    ensures
        dec_bytes(key, b) == aes256_decrypt_block_of(key, b),
{
    assert(b.take(16) =~= b);
    assert(b.skip(16).len() == 0);
    assert(dec_bytes(key, b.skip(16)) =~= Seq::<u8>::empty());
    assert(dec_bytes(key, b) =~= aes256_decrypt_block_of(key, b));
}

/// Stripping the padding that `pad16` appended recovers the original
/// buffer exactly, for every input; in particular a block-aligned input
/// gains, and then loses, a full block of the value 16.
pub proof fn lemma_strip_pad(s: Seq<u8>)
    ensures
        strip16(pad16(s)) == s,
        pad16(s).len() == s.len() + 16 - (s.len() % 16),
        pad16(s).len() % 16 == 0,
{
    let p = pad16(s);
    let n = 16 - (s.len() % 16);
    assert(p.len() == s.len() + n);
    assert(1 <= n <= 16);
    assert(p.last() == n as u8);
    assert(forall|i: int| p.len() - n <= i < p.len() ==> p[i] == p.last());
    assert(p.take(p.len() - n) =~= s);
}

/// Law: an input already block-aligned still gains a full block of
/// padding, every appended byte holding the value 16, and stripping
/// removes exactly that block.
pub proof fn lemma_pad_aligned(s: Seq<u8>)
    requires
        s.len() % 16 == 0,
    ensures
        pad16(s).len() == s.len() + 16,
        forall|i: int| s.len() <= i < s.len() + 16 ==> pad16(s)[i] == 16,
        strip16(pad16(s)) == s,
{
    lemma_strip_pad(s);
}

/// Law: decrypting an encryption made with the same key returns the
/// plaintext byte-for-byte.  The hypothesis is exactly what block-wise
/// encryption of the padded plaintext guarantees of its output.
pub proof fn lemma_cipher_round_trip(key: Seq<u8>, plain: Seq<u8>, cipher: Seq<u8>)
    requires
        dec_bytes(key, cipher) == pad16(plain),
    ensures
        strip16(dec_bytes(key, cipher)) == plain,
{
    lemma_strip_pad(plain);
}

} // verus!
