use vstd::prelude::*;
use vstd::string::StringSliceAdditionalSpecFns;
use crate::bytes::{contains, contains_bytes, ends_with, ends_with_bytes};
use crate::decryption::{decrypt_padded, decrypted};
use crate::error::PakError;
use crate::inflate::{accept_inflated, bytes_of, inflate, inflate_nonempty, nonempty, zlib_inflate};
use crate::keys::{key_secrets, CandidateKey};

verus! {

/// Length of the prefix that stands before the ciphertext of an encrypted entry.
pub const PAYLOAD_PREFIX_LEN: usize = 16;

/// Entries with such a path are stored without encryption: executables,
/// libraries, and what belongs to the anti-cheat module or to a test branch.
pub open spec fn is_exempt(path: Seq<u8>) -> bool {
    ||| ends_with_bytes(path, ".exe".spec_bytes())
    ||| ends_with_bytes(path, ".dll".spec_bytes())
    ||| contains_bytes(path, "xigncode".spec_bytes())
    ||| contains_bytes(path, "testbranch".spec_bytes())
}

/// Whether an entry with this path is stored without encryption.
pub fn exempt(path: &[u8]) -> (r: bool)
    ensures
        r == is_exempt(path@),
{
    ends_with(path, ".exe".as_bytes()) || ends_with(path, ".dll".as_bytes()) || contains(
        path,
        "xigncode".as_bytes(),
    ) || contains(path, "testbranch".as_bytes())
}

/// What one candidate key makes of a ciphertext: the plaintext, where the
/// key decrypts it to well-padded data that inflates to at least one byte.
pub open spec fn unlocked(key: Seq<u8>, ciphertext: Seq<u8>) -> Option<Seq<u8>> {
    match decrypted(key, ciphertext) {
        Some(compressed) => nonempty(zlib_inflate(compressed)),
        None => None,
    }
}

/// Key `index` unlocks the ciphertext and no key before it does.
pub open spec fn is_first_match(keys: Seq<Seq<u8>>, ciphertext: Seq<u8>, index: int) -> bool {
    &&& 0 <= index < keys.len()
    &&& unlocked(keys[index], ciphertext) is Some
    &&& forall|j: int| 0 <= j < index ==> unlocked(#[trigger] keys[j], ciphertext) is None
}

/// The position of the first key in list order that unlocks the ciphertext.
pub open spec fn first_match(keys: Seq<Seq<u8>>, ciphertext: Seq<u8>) -> Option<int> {
    if exists|i: int| is_first_match(keys, ciphertext, i) {
        Some(choose|i: int| is_first_match(keys, ciphertext, i))
    } else {
        None
    }
}

/// What the key search makes of a ciphertext: the plaintext under the first key that unlocks it.
pub open spec fn key_search(keys: Seq<Seq<u8>>, ciphertext: Seq<u8>) -> Option<Seq<u8>> {
    match first_match(keys, ciphertext) {
        Some(i) => unlocked(keys[i], ciphertext),
        None => None,
    }
}

/// The first match is the only index that is one.
pub proof fn lemma_first_match_found(keys: Seq<Seq<u8>>, ciphertext: Seq<u8>, index: int)
    requires
        is_first_match(keys, ciphertext, index),
    ensures
        first_match(keys, ciphertext) == Some(index),
{
    let chosen = choose|i: int| is_first_match(keys, ciphertext, i);
    assert(is_first_match(keys, ciphertext, chosen));
    if chosen < index {
        assert(unlocked(keys[chosen], ciphertext) is None);
    }
    if index < chosen {
        assert(unlocked(keys[index], ciphertext) is None);
    }
}

/// Where no key unlocks the ciphertext there is no first match.
pub proof fn lemma_first_match_none(keys: Seq<Seq<u8>>, ciphertext: Seq<u8>)
    requires
        forall|j: int| 0 <= j < keys.len() ==> unlocked(#[trigger] keys[j], ciphertext) is None,
    ensures
        first_match(keys, ciphertext) is None,
{
}

/// The first key that unlocks the ciphertext decides: whatever stands after
/// it in the list is not tried, so any list that agrees with `keys` up to
/// and including that key finds the same key and the same plaintext.
pub proof fn lemma_later_keys_are_not_tried(
    keys: Seq<Seq<u8>>,
    other: Seq<Seq<u8>>,
    ciphertext: Seq<u8>,
    index: int,
)
    requires
        is_first_match(keys, ciphertext, index),
        index < other.len(),
        other.take(index + 1) == keys.take(index + 1),
    ensures
        first_match(keys, ciphertext) == Some(index),
        first_match(other, ciphertext) == Some(index),
        key_search(keys, ciphertext) == unlocked(keys[index], ciphertext),
        key_search(other, ciphertext) == key_search(keys, ciphertext),
{
    assert forall|j: int| 0 <= j <= index implies other[j] == keys[j] by {
        assert(other.take(index + 1)[j] == keys.take(index + 1)[j]);
    }
    assert(is_first_match(other, ciphertext, index));
    lemma_first_match_found(keys, ciphertext, index);
    lemma_first_match_found(other, ciphertext, index);
}

/// The plaintext that a successful key search found, and the position of its key.
#[derive(Debug)]
pub struct KeyMatch {
    pub key_index: usize,
    pub plaintext: Vec<u8>,
}

/// Tries one key: decrypts, removes the padding, inflates.
pub fn try_key(key: &CandidateKey, ciphertext: &[u8]) -> (r: Option<Vec<u8>>)
    ensures
        bytes_of(r) == unlocked(key@, ciphertext@),
{
    match decrypt_padded(key, ciphertext) {
        Some(compressed) => inflate_nonempty(compressed.as_slice()),
        None => None,
    }
}

/// Tries the candidate keys in list order and stops at the first that unlocks the ciphertext.
pub fn search_keys(ciphertext: &[u8], keys: &[CandidateKey]) -> (r: Option<KeyMatch>)
    ensures
        match r {
            Some(found) => {
                &&& first_match(key_secrets(keys@), ciphertext@) == Some(found.key_index as int)
                &&& Some(found.plaintext@) == unlocked(keys@[found.key_index as int]@, ciphertext@)
            },
            None => first_match(key_secrets(keys@), ciphertext@) is None,
        },
{
    let ghost secrets = key_secrets(keys@);
    let mut index: usize = 0;
    while index < keys.len()
        invariant
            index <= keys.len(),
            secrets == key_secrets(keys@),
            forall|j: int| 0 <= j < index ==> unlocked(#[trigger] secrets[j], ciphertext@) is None,
        decreases keys.len() - index,
    {
        match try_key(&keys[index], ciphertext) {
            Some(plaintext) => {
                proof {
                    assert(secrets[index as int] == keys@[index as int]@);
                    lemma_first_match_found(secrets, ciphertext@, index as int);
                }
                return Some(KeyMatch { key_index: index, plaintext });
            },
            None => {
                assert(secrets[index as int] == keys@[index as int]@);
            },
        }
        index = index + 1;
    }
    proof {
        lemma_first_match_none(secrets, ciphertext@);
    }
    None
}

/// Decrypts and inflates a ciphertext under the first candidate key that unlocks it.
pub fn decrypt_with_keys(ciphertext: &[u8], keys: &[CandidateKey]) -> (r: Option<Vec<u8>>)
    ensures
        bytes_of(r) == key_search(key_secrets(keys@), ciphertext@),
{
    match search_keys(ciphertext, keys) {
        Some(found) => Some(found.plaintext),
        None => None,
    }
}

/// The bytes that a decode result holds.
pub open spec fn decoded_bytes(r: Result<Vec<u8>, PakError>) -> Result<Seq<u8>, PakError> {
    match r {
        Ok(plaintext) => Ok(plaintext@),
        Err(e) => Err(e),
    }
}

/// What decoding makes of a plain entry: its inflated bytes.
pub open spec fn decode_plain(raw: Seq<u8>) -> Result<Seq<u8>, PakError> {
    match nonempty(zlib_inflate(raw)) {
        Some(plaintext) => Ok(plaintext),
        None => Err(PakError::Decompression),
    }
}

/// What decoding makes of an encrypted entry: after the 16-byte prefix, the
/// plaintext under the first key that unlocks the rest.
pub open spec fn decode_encrypted(raw: Seq<u8>, keys: Seq<Seq<u8>>) -> Result<Seq<u8>, PakError> {
    if raw.len() <= PAYLOAD_PREFIX_LEN {
        Err(PakError::Format)
    } else {
        match key_search(keys, raw.skip(PAYLOAD_PREFIX_LEN as int)) {
            Some(plaintext) => Ok(plaintext),
            None => Err(PakError::NoMatchingKey),
        }
    }
}

/// What decoding makes of the raw bytes of an entry.
pub open spec fn decode_spec(
    raw: Seq<u8>,
    path: Seq<u8>,
    keys: Seq<Seq<u8>>,
    encryption_enabled: bool,
) -> Result<Seq<u8>, PakError> {
    if !encryption_enabled || is_exempt(path) {
        decode_plain(raw)
    } else {
        decode_encrypted(raw, keys)
    }
}

/// An entry with an exempt path is inflated as it stands, whether or not
/// encryption is enabled and whatever the candidate keys are: no key is tried.
pub proof fn lemma_exempt_entries_skip_key_search(
    raw: Seq<u8>,
    path: Seq<u8>,
    keys: Seq<Seq<u8>>,
    encryption_enabled: bool,
)
    requires
        is_exempt(path),
    ensures
        decode_spec(raw, path, keys, encryption_enabled) == decode_plain(raw),
        decode_spec(raw, path, keys, encryption_enabled) == decode_spec(
            raw,
            path,
            Seq::empty(),
            false,
        ),
{
}

/// Turns the inflation result of a plain entry into the entry's outcome.
pub fn plain_outcome(inflated: Option<Vec<u8>>) -> (r: Result<Vec<u8>, PakError>)
    ensures
        decoded_bytes(r) == match nonempty(bytes_of(inflated)) {
            Some(plaintext) => Ok::<Seq<u8>, PakError>(plaintext),
            None => Err(PakError::Decompression),
        },
{
    match accept_inflated(inflated) {
        Some(plaintext) => Ok(plaintext),
        None => Err(PakError::Decompression),
    }
}

/// Decodes the raw bytes of one entry.
///
/// A plain entry (encryption disabled, or an exempt path) is inflated as it
/// stands. Any other entry loses its 16-byte prefix, and the candidate keys
/// are tried on the rest in list order.
pub fn decode(
    raw: &[u8],
    relative_path: &[u8],
    keys: &[CandidateKey],
    encryption_enabled: bool,
) -> (r: Result<Vec<u8>, PakError>)
    ensures
        decoded_bytes(r) == decode_spec(
            raw@,
            relative_path@,
            key_secrets(keys@),
            encryption_enabled,
        ),
{
    if !encryption_enabled || exempt(relative_path) {
        plain_outcome(inflate(raw))
    } else if raw.len() <= PAYLOAD_PREFIX_LEN {
        Err(PakError::Format)
    } else {
        let ciphertext = &raw[PAYLOAD_PREFIX_LEN..raw.len()];
        assert(ciphertext@ == raw@.skip(PAYLOAD_PREFIX_LEN as int));
        match decrypt_with_keys(ciphertext, keys) {
            Some(plaintext) => Ok(plaintext),
            None => Err(PakError::NoMatchingKey),
        }
    }
}

} // verus!
