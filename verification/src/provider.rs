use vstd::prelude::*;

use crate::cipher::{
    dec_bytes, derive_key, derived_key_of, decrypt_block, enc_bytes, encrypt_block, BLOCK_SIZE,
    lemma_dec_bytes_append, lemma_dec_bytes_single, lemma_enc_bytes_append,
    lemma_enc_bytes_single, lemma_strip_pad, pad16, strip16,
};
use crate::codec::{p_doc, parse_vault, ser_vault, serialize_vault};
use crate::errors::VaultError;
use crate::model::PasswordData;

verus! {

/// The provider for the encrypted vault file format: AES-256 in 16-byte
/// independent blocks over PKCS#7-padded canonical JSON, keyed by the
/// SHA-256 digest of the passphrase.
pub struct KakaduProvider;

impl KakaduProvider {
    /// Appends PKCS#7 padding: between 1 and `block_size` bytes, each
    /// holding the number of bytes appended.
    pub fn add_padding(data: &mut Vec<u8>, block_size: usize)
        requires
            block_size == 16,
            old(data)@.len() + 16 <= usize::MAX,
        ensures
            final(data)@ == pad16(old(data)@),
    {
        let pad_len = block_size - (data.len() % block_size);
        let mut k: usize = 0;
        while k < pad_len
            invariant
                k <= pad_len,
                pad_len == 16 - (old(data)@.len() % 16),
                old(data)@.len() + 16 <= usize::MAX,
                data@ =~= old(data)@ + Seq::new(k as nat, |t: int| pad_len as u8),
            decreases pad_len - k,
        {
            data.push(pad_len as u8);
            proof {
                assert(data@ =~= old(data)@ + Seq::new((k + 1) as nat, |t: int| pad_len as u8));
            }
            k += 1;
        }
        proof {
            assert(data@ =~= pad16(old(data)@));
        }
    }

    /// Removes PKCS#7 padding when the last byte `n` is at most
    /// `block_size` and the last `n` bytes all equal `n`; otherwise the
    /// buffer is left untouched.
    pub fn remove_padding(data: &mut Vec<u8>, block_size: usize)
        requires
            block_size == 16,
        ensures
            final(data)@ == strip16(old(data)@),
    {
        if data.len() == 0 {
            return ;
        }
        let last_byte = data[data.len() - 1];
        if last_byte <= block_size as u8 {
            let pad_len = last_byte as usize;
            if data.len() >= pad_len {
                let base = data.len() - pad_len;
                let mut t: usize = 0;
                let mut padding_ok = true;
                while t < pad_len
                    invariant
                        t <= pad_len,
                        base == data@.len() - pad_len,
                        pad_len <= data@.len(),
                        data@.len() <= usize::MAX,
                        pad_len == data@.last() as int,
                        last_byte == data@.last(),
                        data@.len() > 0,
                        *data == *old(data),
                        padding_ok <==> (forall|q: int|
                            base <= q < base + t ==> data@[q] == data@.last()),
                    decreases pad_len - t,
                {
                    if data[base + t] != last_byte {
                        padding_ok = false;
                    }
                    t += 1;
                }
                if padding_ok {
                    proof {
                        assert(forall|q: int|
                            data@.len() - pad_len <= q < data@.len() ==> data@[q] == data@.last());
                    }
                    let new_len = data.len() - pad_len;
                    data.truncate(new_len);
                    proof {
                        assert(final(data)@ =~= strip16(old(data)@));
                    }
                } else {
                    proof {
                        assert(!(forall|q: int|
                            old(data)@.len() - pad_len <= q < old(data)@.len() ==> old(data)@[q]
                                == old(data)@.last()));
                    }
                }
            }
        }
    }

    /// Derives the key from the passphrase and encrypts the padded input
    /// block by block.  `KeyInitError` is the checked path for a digest
    /// that the cipher cannot take as a key.
    pub fn encrypt_data(source_data: &Vec<u8>, password: &str) -> (r: Result<Vec<u8>, VaultError>)
        requires
            source_data@.len() + 16 <= usize::MAX,
        ensures
            r is Ok,
            r matches Ok(c) ==> c@ == enc_bytes(derived_key_of(password@), pad16(source_data@))
                && dec_bytes(derived_key_of(password@), c@) == pad16(source_data@),
    {
        let key = derive_key(password);
        if key.len() != 32 {
            return Err(VaultError::KeyInitError);
        }
        let mut padded: Vec<u8> = Vec::new();
        let mut s: usize = 0;
        while s < source_data.len()
            invariant
                s <= source_data@.len(),
                padded@ =~= source_data@.take(s as int),
            decreases source_data.len() - s,
        {
            padded.push(source_data[s]);
            proof {
                assert(padded@ =~= source_data@.take(s + 1));
            }
            s += 1;
        }
        proof {
            assert(source_data@.take(source_data@.len() as int) =~= source_data@);
        }
        Self::add_padding(&mut padded, BLOCK_SIZE);
        proof {
            lemma_strip_pad(source_data@);
        }
        let mut encrypted: Vec<u8> = Vec::new();
        let total = padded.len();
        let mut i: usize = 0;
        while i < total
            invariant
                i <= padded@.len(),
                i % 16 == 0,
                total == padded@.len(),
                padded@.len() % 16 == 0,
                padded@.len() <= usize::MAX,
                padded@ == pad16(source_data@),
                key@ == derived_key_of(password@),
                key@.len() == 32,
                encrypted@.len() == i,
                encrypted@ == enc_bytes(key@, padded@.take(i as int)),
                dec_bytes(key@, encrypted@) == padded@.take(i as int),
            decreases padded.len() - i,
        {
            proof {
                assert(i + 16 <= padded@.len());
            }
            let mut block: Vec<u8> = Vec::new();
            let mut t: usize = 0;
            while t < 16
                invariant
                    t <= 16,
                    i + 16 <= padded@.len(),
                    padded@.len() <= usize::MAX,
                    block@ =~= padded@.subrange(i as int, i + t),
                decreases 16 - t,
            {
                block.push(padded[i + t]);
                proof {
                    assert(block@ =~= padded@.subrange(i as int, i + t + 1));
                }
                t += 1;
            }
            let mut c = encrypt_block(&key, &block);
            let ghost pre = encrypted@;
            let ghost cblk = c@;
            encrypted.append(&mut c);
            proof {
                let taken = padded@.take(i as int);
                lemma_enc_bytes_append(key@, taken, block@);
                lemma_dec_bytes_append(key@, pre, cblk);
                lemma_enc_bytes_single(key@, block@);
                lemma_dec_bytes_single(key@, cblk);
                assert(padded@.take(i + 16) =~= taken + block@);
                assert(encrypted@ == enc_bytes(key@, padded@.take(i + 16)));
                assert(dec_bytes(key@, encrypted@) =~= padded@.take(i + 16));
            }
            i += 16;
        }
        proof {
            assert(padded@.take(padded@.len() as int) =~= padded@);
        }
        Ok(encrypted)
    }

    /// Derives the key from the passphrase, decrypts block by block and
    /// strips the padding.  A failed padding check leaves the buffer as
    /// it came out of the cipher; the caller sees the failure later as a
    /// `FormatError` from deserialization.
    pub fn decrypt_data(source_array: &Vec<u8>, password: &str) -> (r: Result<Vec<u8>, VaultError>)
        requires
            source_array@.len() % 16 == 0,
        ensures
            r is Ok,
            r matches Ok(p) ==> p@ == strip16(
                dec_bytes(derived_key_of(password@), source_array@),
            ),
    {
        let key = derive_key(password);
        if key.len() != 32 {
            return Err(VaultError::KeyInitError);
        }
        let mut decrypted: Vec<u8> = Vec::new();
        let total = source_array.len();
        let mut i: usize = 0;
        while i < total
            invariant
                i <= source_array@.len(),
                i % 16 == 0,
                total == source_array@.len(),
                source_array@.len() % 16 == 0,
                source_array@.len() <= usize::MAX,
                key@ == derived_key_of(password@),
                key@.len() == 32,
                decrypted@ == dec_bytes(key@, source_array@.take(i as int)),
            decreases total - i,
        {
            proof {
                assert(i + 16 <= source_array@.len());
            }
            let mut block: Vec<u8> = Vec::new();
            let mut t: usize = 0;
            while t < 16
                invariant
                    t <= 16,
                    i + 16 <= source_array@.len(),
                    source_array@.len() <= usize::MAX,
                    block@ =~= source_array@.subrange(i as int, i + t),
                decreases 16 - t,
            {
                block.push(source_array[i + t]);
                proof {
                    assert(block@ =~= source_array@.subrange(i as int, i + t + 1));
                }
                t += 1;
            }
            let mut p = decrypt_block(&key, &block);
            let ghost pre = decrypted@;
            decrypted.append(&mut p);
            proof {
                let taken = source_array@.take(i as int);
                lemma_dec_bytes_append(key@, taken, block@);
                lemma_dec_bytes_single(key@, block@);
                assert(source_array@.take(i + 16) =~= taken + block@);
                assert(decrypted@ == dec_bytes(key@, source_array@.take(i + 16)));
            }
            i += 16;
        }
        proof {
            assert(source_array@.take(source_array@.len() as int) =~= source_array@);
        }
        Self::remove_padding(&mut decrypted, BLOCK_SIZE);
        Ok(decrypted)
    }

    /// Decrypts a whole vault file and deserializes it.  A length that is
    /// not a multiple of the block size, and bytes that do not decrypt to
    /// a well-formed document (the practical signal for a wrong
    /// passphrase, a truncated file or a foreign file), are
    /// `FormatError`.
    pub fn open_from_bytes(&self, encrypted: &Vec<u8>, password: &str) -> (r: Result<
        PasswordData,
        VaultError,
    >)
        ensures
            r is Ok <==> (encrypted@.len() % 16 == 0 && p_doc(
                strip16(dec_bytes(derived_key_of(password@), encrypted@)),
            ) is Some),
            r matches Ok(d) ==> p_doc(strip16(dec_bytes(derived_key_of(password@), encrypted@)))
                == Some(d@),
            r matches Err(e) ==> e == VaultError::FormatError,
    {
        if encrypted.len() % 16 != 0 {
            return Err(VaultError::FormatError);
        }
        let decrypted = match Self::decrypt_data(encrypted, password) {
            Ok(d) => d,
            Err(_) => {
                return Err(VaultError::FormatError);
            },
        };
        parse_vault(&decrypted)
    }

    /// Serializes a vault and encrypts it into the on-disk bytes.
    pub fn save_to_bytes(&self, data: &PasswordData, password: &str) -> (r: Result<
        Vec<u8>,
        VaultError,
    >)
        requires
            ser_vault(data@).len() + 16 <= usize::MAX,
        ensures
            r is Ok,
            r matches Ok(c) ==> c@ == enc_bytes(
                derived_key_of(password@),
                pad16(ser_vault(data@)),
            ) && dec_bytes(derived_key_of(password@), c@) == pad16(ser_vault(data@)),
    {
        let json = serialize_vault(data);
        Self::encrypt_data(&json, password)
    }
}

} // verus!
