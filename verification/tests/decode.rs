use std::io::Write;

use aes::Aes256;
use cipher::block_padding::Pkcs7;
use cipher::generic_array::GenericArray;
use cipher::{BlockEncryptMut, KeyInit};
use ecb::Encryptor;
use flate2::write::ZlibEncoder;
use flate2::Compression;
use pak_extractor::decode::{
    decode, decrypt_with_keys, exempt, plain_outcome, search_keys, try_key,
};
use pak_extractor::error::PakError;
use pak_extractor::inflate::{accept_inflated, inflate_nonempty};
use pak_extractor::keys::{key_from_line, CandidateKey};

fn deflate(plain: &[u8]) -> Vec<u8> {
    let mut encoder = ZlibEncoder::new(Vec::new(), Compression::default());
    encoder.write_all(plain).unwrap();
    encoder.finish().unwrap()
}

fn encrypt(key: &CandidateKey, data: &[u8]) -> Vec<u8> {
    Encryptor::<Aes256>::new(GenericArray::from_slice(&key.secret))
        .encrypt_padded_vec_mut::<Pkcs7>(data)
}

fn key(letter: char) -> CandidateKey {
    let line: String = std::iter::repeat(letter).take(31).collect();
    key_from_line(&line).unwrap()
}

fn encrypted_payload(key: &CandidateKey, plain: &[u8]) -> Vec<u8> {
    let mut payload = vec![0xeeu8; 16];
    payload.extend_from_slice(&encrypt(key, &deflate(plain)));
    payload
}

#[test]
fn inflating_restores_what_was_deflated() {
    let plain = b"the quick brown fox jumps over the lazy dog".to_vec();
    let compressed = deflate(&plain);
    assert_ne!(compressed, plain);
    assert_eq!(inflate_nonempty(&compressed), Some(plain));
}

#[test]
fn inflating_garbage_gives_nothing() {
    assert_eq!(inflate_nonempty(b"this is no zlib stream"), None);
    assert_eq!(inflate_nonempty(b""), None);
}

#[test]
fn inflating_a_truncated_stream_gives_nothing() {
    let compressed = deflate(&vec![7u8; 4096]);
    assert_eq!(inflate_nonempty(&compressed[..compressed.len() - 5]), None);
}

#[test]
fn inflating_to_no_bytes_gives_nothing() {
    let compressed = deflate(b"");
    assert!(!compressed.is_empty());
    assert_eq!(inflate_nonempty(&compressed), None);
}

#[test]
fn an_empty_inflation_result_is_not_accepted() {
    assert_eq!(accept_inflated(Some(Vec::new())), None);
    assert_eq!(accept_inflated(None), None);
    assert_eq!(accept_inflated(Some(vec![1, 2, 3])), Some(vec![1, 2, 3]));
}

#[test]
fn a_plain_entry_without_output_is_a_decompression_error() {
    assert_eq!(plain_outcome(None), Err(PakError::Decompression));
    assert_eq!(plain_outcome(Some(Vec::new())), Err(PakError::Decompression));
    assert_eq!(plain_outcome(Some(vec![9])), Ok(vec![9]));
}

#[test]
fn the_right_key_unlocks_what_it_encrypted() {
    let plain = b"item table".to_vec();
    let ciphertext = encrypt(&key('k'), &deflate(&plain));
    assert_ne!(ciphertext, plain);
    assert_eq!(try_key(&key('k'), &ciphertext), Some(plain));
}

#[test]
fn a_wrong_key_does_not_unlock() {
    let ciphertext = encrypt(&key('k'), &deflate(b"item table"));
    assert_eq!(try_key(&key('w'), &ciphertext), None);
}

#[test]
fn a_ciphertext_of_broken_blocks_is_not_unlocked() {
    let ciphertext = encrypt(&key('k'), &deflate(b"item table"));
    assert_eq!(try_key(&key('k'), &ciphertext[..ciphertext.len() - 1]), None);
    assert_eq!(try_key(&key('k'), b""), None);
}

#[test]
fn padding_is_removed_after_decryption() {
    // 16 bytes of plaintext make two blocks of ciphertext: the second holds padding only.
    let compressed = deflate(b"0123456789abcdef0123456789abcdef");
    let ciphertext = encrypt(&key('p'), &compressed);
    assert_eq!(ciphertext.len() % 16, 0);
    assert!(ciphertext.len() > compressed.len());
    assert_eq!(
        try_key(&key('p'), &ciphertext),
        Some(b"0123456789abcdef0123456789abcdef".to_vec())
    );
}

#[test]
fn the_third_key_is_selected_after_two_that_do_not_match() {
    let keys = vec![key('a'), key('b'), key('c'), key('d')];
    let plain = b"encrypted under the third key".to_vec();
    let ciphertext = encrypt(&keys[2], &deflate(&plain));
    let found = search_keys(&ciphertext, &keys).unwrap();
    assert_eq!(found.key_index, 2);
    assert_eq!(found.plaintext, plain);
}

#[test]
fn keys_after_the_first_match_change_nothing() {
    let plain = b"encrypted under the third key".to_vec();
    let ciphertext = encrypt(&key('c'), &deflate(&plain));
    let short = vec![key('a'), key('b'), key('c')];
    let long = vec![key('a'), key('b'), key('c'), key('c'), key('z')];
    assert_eq!(search_keys(&ciphertext, &short).unwrap().key_index, 2);
    assert_eq!(search_keys(&ciphertext, &long).unwrap().key_index, 2);
    assert_eq!(decrypt_with_keys(&ciphertext, &short), decrypt_with_keys(&ciphertext, &long));
    assert_eq!(decrypt_with_keys(&ciphertext, &long), Some(plain));
}

#[test]
fn no_key_matches_among_wrong_keys() {
    let ciphertext = encrypt(&key('c'), &deflate(b"secret"));
    assert!(search_keys(&ciphertext, &[key('a'), key('b')]).is_none());
    assert_eq!(decrypt_with_keys(&ciphertext, &[key('a'), key('b')]), None);
    assert_eq!(decrypt_with_keys(&ciphertext, &[]), None);
}

#[test]
fn exempt_paths_are_recognised() {
    assert!(exempt(b"bin\\game.exe"));
    assert!(exempt(b"bin\\engine.dll"));
    assert!(exempt(b"xigncode\\x3.xem"));
    assert!(exempt(b"resource\\testbranch\\a.dnt"));
    assert!(exempt(b".exe"));
    assert!(!exempt(b"resource\\a.dnt"));
    assert!(!exempt(b"game.exe.bak"));
    assert!(!exempt(b"game.EXE"));
    assert!(!exempt(b""));
}

#[test]
fn an_exempt_entry_is_inflated_directly_even_with_encryption() {
    let plain = b"MZ executable image".to_vec();
    let raw = deflate(&plain);
    let keys = vec![key('a')];
    assert_eq!(decode(&raw, b"bin\\game.exe", &keys, true), Ok(plain.clone()));
    assert_eq!(decode(&raw, b"xigncode\\x3.xem", &keys, true), Ok(plain.clone()));
    assert_eq!(decode(&raw, b"bin\\game.exe", &[], false), Ok(plain));
}

#[test]
fn an_encrypted_entry_under_an_exempt_path_is_not_searched() {
    let raw = encrypted_payload(&key('a'), b"hidden");
    assert_eq!(decode(&raw, b"bin\\game.dll", &[key('a')], true), Err(PakError::Decompression));
}

#[test]
fn without_encryption_every_entry_is_inflated_directly() {
    let plain = b"plain table".to_vec();
    assert_eq!(decode(&deflate(&plain), b"resource\\a.dnt", &[], false), Ok(plain));
}

#[test]
fn an_encrypted_entry_is_decoded_after_its_prefix() {
    let plain = b"encrypted table".to_vec();
    let keys = vec![key('a'), key('b'), key('c')];
    let raw = encrypted_payload(&keys[2], &plain);
    assert_eq!(decode(&raw, b"resource\\a.dnt", &keys, true), Ok(plain));
}

#[test]
fn an_encrypted_entry_without_its_key_is_skipped() {
    let raw = encrypted_payload(&key('c'), b"encrypted table");
    assert_eq!(
        decode(&raw, b"resource\\a.dnt", &[key('a'), key('b')], true),
        Err(PakError::NoMatchingKey)
    );
}

#[test]
fn an_encrypted_entry_of_no_more_than_its_prefix_is_malformed() {
    let keys = vec![key('a')];
    assert_eq!(decode(&[0u8; 16], b"resource\\a.dnt", &keys, true), Err(PakError::Format));
    assert_eq!(decode(&[], b"resource\\a.dnt", &keys, true), Err(PakError::Format));
    assert_eq!(decode(&[0u8; 17], b"resource\\a.dnt", &keys, true), Err(PakError::NoMatchingKey));
}

#[test]
fn a_plain_entry_that_does_not_inflate_is_a_decompression_error() {
    assert_eq!(decode(b"garbage", b"resource\\a.dnt", &[], false), Err(PakError::Decompression));
    assert_eq!(decode(&deflate(b""), b"resource\\a.dnt", &[], false), Err(PakError::Decompression));
}
