use vstd::prelude::*;
use aes::Aes256;
use cipher::block_padding::Pkcs7;
use cipher::generic_array::GenericArray;
use cipher::{BlockDecryptMut, KeyInit};
use ecb::Decryptor;
use crate::inflate::bytes_of;
use crate::keys::CandidateKey;

verus! {

/// Length of a cipher block.
pub const BLOCK_LEN: usize = 16;

/// AES-256 decryption under `key` of every 16-byte block of `ciphertext`,
/// each block on its own (ECB mode).
pub uninterp spec fn aes256_ecb_decrypt(key: Seq<u8>, ciphertext: Seq<u8>) -> Seq<u8>;

/// A ciphertext can be decrypted only where it is made of whole blocks, at least one.
pub open spec fn block_aligned(ciphertext: Seq<u8>) -> bool {
    ciphertext.len() > 0 && ciphertext.len() % (BLOCK_LEN as nat) == 0
}

/// PKCS#7 unpadding: the last byte `n` must lie in `1..=16` and the last `n`
/// bytes must all equal `n`; they are removed.
pub open spec fn pkcs7_unpadded(padded: Seq<u8>) -> Option<Seq<u8>> {
    if padded.len() == 0 {
        None
    } else {
        let n = padded.last() as int;
        if 1 <= n <= BLOCK_LEN && n <= padded.len() && (forall|i: int|
            padded.len() - n <= i < padded.len() ==> padded[i] == n) {
            Some(padded.take(padded.len() - n))
        } else {
            None
        }
    }
}

/// Builds `ecb::Decryptor<aes::Aes256>` from the key and calls
/// `cipher::BlockDecryptMut::decrypt_padded_mut` with `block_padding::Pkcs7`
/// on a copy of `ciphertext`.
/// Trusted: the call fails unless the ciphertext is made of whole blocks;
/// otherwise it decrypts block by block and removes the PKCS#7 padding, or
/// fails where the padding is malformed.
#[verifier::external_body]
pub(crate) fn decrypt_padded(key: &CandidateKey, ciphertext: &[u8]) -> (r: Option<Vec<u8>>)
    ensures
        bytes_of(r) == if block_aligned(ciphertext@) {
            pkcs7_unpadded(aes256_ecb_decrypt(key@, ciphertext@))
        } else {
            None
        },
{
    let mut buffer = ciphertext.to_vec();
    let decryptor = Decryptor::<Aes256>::new(GenericArray::from_slice(&key.secret));
    match decryptor.decrypt_padded_mut::<Pkcs7>(&mut buffer) {
        Ok(plain) => Some(plain.to_vec()),
        Err(_) => None,
    }
}

/// What decryption under `key` makes of `ciphertext`.
pub open spec fn decrypted(key: Seq<u8>, ciphertext: Seq<u8>) -> Option<Seq<u8>> {
    if block_aligned(ciphertext) {
        pkcs7_unpadded(aes256_ecb_decrypt(key, ciphertext))
    } else {
        None
    }
}

} // verus!
