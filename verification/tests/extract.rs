use std::io::Write;

use aes::Aes256;
use cipher::block_padding::Pkcs7;
use cipher::generic_array::GenericArray;
use cipher::{BlockEncryptMut, KeyInit};
use ecb::Encryptor;
use flate2::write::ZlibEncoder;
use flate2::Compression;
use pak_extractor::archive::{read_directory, DirectoryEntry};
use pak_extractor::error::PakError;
use pak_extractor::extract::{
    entry_status, extract_entry, extract_payload, pak_extract, tally, EntryStatus,
    ExtractedFile, ExtractionReport,
};
use pak_extractor::keys::{load_keys, CandidateKey};

const KEY_A: &str = "aaaaaaaaaaaaaaaaaaaaaaaaaaaaaaa";
const KEY_B: &str = "bbbbbbbbbbbbbbbbbbbbbbbbbbbbbbb";
const KEY_C: &str = "ccccccccccccccccccccccccccccccc";

fn deflated(plain: &[u8]) -> Vec<u8> {
    let mut encoder = ZlibEncoder::new(Vec::new(), Compression::default());
    encoder.write_all(plain).unwrap();
    encoder.finish().unwrap()
}

fn key_of(line: &str) -> CandidateKey {
    load_keys(&vec![String::from(line)])[0]
}

fn sealed(line: &str, plain: &[u8]) -> Vec<u8> {
    let key = key_of(line);
    let mut payload = vec![0x5au8; 16];
    payload.extend_from_slice(
        &Encryptor::<Aes256>::new(GenericArray::from_slice(&key.secret))
            .encrypt_padded_vec_mut::<Pkcs7>(&deflated(plain)),
    );
    payload
}

/// Lays out an archive: prolog, header, payloads, then the directory.
fn archive_of(entries: &[(&[u8], Vec<u8>)]) -> Vec<u8> {
    let mut archive = vec![0u8; 256];
    archive.extend_from_slice(&[0u8; 16]);
    let mut placed = Vec::new();
    for (path, payload) in entries {
        placed.push((*path, payload.len() as u32, archive.len() as u32));
        archive.extend_from_slice(payload);
    }
    let directory_offset = archive.len() as u32;
    archive[256..260].copy_from_slice(&11u32.to_le_bytes());
    archive[260..264].copy_from_slice(&(entries.len() as u32).to_le_bytes());
    archive[264..268].copy_from_slice(&directory_offset.to_le_bytes());
    for (path, size, offset) in placed {
        let mut record = vec![0u8; 316];
        record[..path.len()].copy_from_slice(path);
        record[264..268].copy_from_slice(&size.to_le_bytes());
        record[268..272].copy_from_slice(&offset.to_le_bytes());
        archive.extend_from_slice(&record);
    }
    archive
}

fn key_lines() -> Vec<String> {
    vec![String::from(KEY_A), String::from(KEY_B), String::from(KEY_C)]
}

fn file(path: &[u8], contents: &[u8]) -> ExtractedFile {
    ExtractedFile { output_path: path.to_vec(), contents: contents.to_vec() }
}

#[test]
fn a_plain_archive_comes_back_byte_for_byte() {
    let first: Vec<u8> = (0..=255u8).cycle().take(5000).collect();
    let archive = archive_of(&[
        (b"\\data\\items.txt", deflated(&first)),
        (b"\\readme.txt", deflated(b"hello")),
    ]);
    let run = pak_extract(&archive, &Vec::new(), b"/tmp/Game.pak/out", false).unwrap();
    assert_eq!(run.header.entry_count, 2);
    assert_eq!(
        run.outcomes,
        vec![
            Ok(file(b"/tmp/out/Export/data/items.txt", &first)),
            Ok(file(b"/tmp/out/Export/readme.txt", b"hello")),
        ]
    );
    assert_eq!(run.report, ExtractionReport { written: 2, skipped: 0, failed: 0 });
}

#[test]
fn an_encrypted_archive_comes_back_byte_for_byte() {
    let plain: Vec<u8> = (0..2000u32).map(|i| (i * 7 % 251) as u8).collect();
    let archive = archive_of(&[
        (b"\\resource\\table.dnt", sealed(KEY_C, &plain)),
        (b"\\bin\\game.exe", deflated(b"MZ")),
        (b"\\resource\\other.dnt", sealed(KEY_A, b"other")),
    ]);
    let run = pak_extract(&archive, &key_lines(), b"out", true).unwrap();
    assert_eq!(
        run.outcomes,
        vec![
            Ok(file(b"out/Export/resource/table.dnt", &plain)),
            Ok(file(b"out/Export/bin/game.exe", b"MZ")),
            Ok(file(b"out/Export/resource/other.dnt", b"other")),
        ]
    );
    assert_eq!(run.report, ExtractionReport { written: 3, skipped: 0, failed: 0 });
}

#[test]
fn every_entry_is_counted_once() {
    let mut archive = archive_of(&[
        (b"\\ok.dnt", sealed(KEY_A, b"fine")),
        (b"\\locked.dnt", sealed("zzzzzzzzzzzzzzzzzzzzzzzzzzzzzzz", b"locked")),
        (b"\\short.dnt", vec![1, 2, 3]),
        (b"\\bad.exe", b"no zlib".to_vec()),
        (b"\\beyond.dnt", deflated(b"x")),
    ]);
    // Let the last entry's payload reach past the end of the archive.
    let last_record = archive.len() - 316;
    archive[last_record + 268..last_record + 272].copy_from_slice(&0x7fff_fff0u32.to_le_bytes());
    let run = pak_extract(&archive, &key_lines(), b"out", true).unwrap();
    assert_eq!(run.outcomes.len(), 5);
    assert_eq!(run.outcomes[0], Ok(file(b"out/Export/ok.dnt", b"fine")));
    assert_eq!(run.outcomes[1], Err(PakError::NoMatchingKey));
    assert_eq!(run.outcomes[2], Err(PakError::Format));
    assert_eq!(run.outcomes[3], Err(PakError::Decompression));
    assert_eq!(run.outcomes[4], Err(PakError::Format));
    assert_eq!(run.report, ExtractionReport { written: 1, skipped: 2, failed: 2 });
    assert_eq!(
        run.report.written + run.report.skipped + run.report.failed,
        run.header.entry_count as usize
    );
}

#[test]
fn a_truncated_directory_fails_the_run_before_any_entry() {
    let archive = archive_of(&[(b"\\a.txt", deflated(b"a")), (b"\\b.txt", deflated(b"b"))]);
    let cut = &archive[..archive.len() - 316 - 37];
    assert_eq!(pak_extract(cut, &Vec::new(), b"out", false).err(), Some(PakError::Format));
    assert_eq!(pak_extract(cut, &Vec::new(), b"out", true).err(), Some(PakError::Format));
    assert_eq!(pak_extract(&archive[..100], &key_lines(), b"out", true).err(), Some(PakError::Format));
}

#[test]
fn a_header_that_counts_too_many_entries_fails_the_run() {
    let mut archive = archive_of(&[(b"\\a.txt", deflated(b"a"))]);
    archive[260..264].copy_from_slice(&2u32.to_le_bytes());
    assert_eq!(pak_extract(&archive, &key_lines(), b"out", true).err(), Some(PakError::Format));
}

#[test]
fn encryption_without_any_key_fails_the_run() {
    let archive = archive_of(&[(b"\\a.exe", deflated(b"a"))]);
    let useless = vec![String::from("not a key"), String::new()];
    assert_eq!(pak_extract(&archive, &useless, b"out", true).err(), Some(PakError::NoCandidateKeys));
    assert_eq!(pak_extract(&archive, &Vec::new(), b"out", true).err(), Some(PakError::NoCandidateKeys));
    assert!(pak_extract(&archive, &useless, b"out", false).is_ok());
}

#[test]
fn an_empty_archive_gives_an_empty_report() {
    let archive = archive_of(&[]);
    let run = pak_extract(&archive, &key_lines(), b"out", true).unwrap();
    assert!(run.outcomes.is_empty());
    assert_eq!(run.report, ExtractionReport { written: 0, skipped: 0, failed: 0 });
}

#[test]
fn two_runs_and_any_order_of_entries_give_the_same_files() {
    let archive = archive_of(&[
        (b"\\one.dnt", sealed(KEY_B, b"one")),
        (b"\\two.dnt", sealed(KEY_C, b"two")),
        (b"\\three.exe", deflated(b"three")),
        (b"\\four.dnt", sealed("zzzzzzzzzzzzzzzzzzzzzzzzzzzzzzz", b"four")),
    ]);
    let first = pak_extract(&archive, &key_lines(), b"out", true).unwrap();
    let second = pak_extract(&archive, &key_lines(), b"out", true).unwrap();
    assert_eq!(first.outcomes, second.outcomes);
    assert_eq!(first.report, second.report);

    let (_, entries) = read_directory(&archive).unwrap();
    let keys = load_keys(&key_lines());
    for index in [3usize, 1, 0, 2] {
        let alone = extract_entry(&archive, &entries[index], &keys, b"out", true);
        assert_eq!(alone, first.outcomes[index]);
    }
}

#[test]
fn an_entry_is_cut_out_of_the_archive_by_offset_and_size() {
    let mut archive = vec![0u8; 50];
    let payload = deflated(b"cut out");
    archive.extend_from_slice(&payload);
    archive.extend_from_slice(&[0xff; 20]);
    let entry = DirectoryEntry {
        relative_path: b"a\\b.txt".to_vec(),
        compressed_size: payload.len() as u32,
        payload_offset: 50,
    };
    assert_eq!(
        extract_entry(&archive, &entry, &[], b"/root", false),
        Ok(file(b"/root/Export/a/b.txt", b"cut out"))
    );
    let shifted = DirectoryEntry { payload_offset: 51, ..entry.clone() };
    assert_eq!(extract_entry(&archive, &shifted, &[], b"/root", false), Err(PakError::Decompression));
    let beyond = DirectoryEntry { compressed_size: archive.len() as u32 - 49, ..entry.clone() };
    assert_eq!(extract_entry(&archive, &beyond, &[], b"/root", false), Err(PakError::Format));
    let wrapping = DirectoryEntry { compressed_size: u32::MAX, payload_offset: u32::MAX, ..entry };
    assert_eq!(extract_entry(&archive, &wrapping, &[], b"/root", false), Err(PakError::Format));
}

#[test]
fn a_payload_is_decoded_and_given_its_place() {
    let entry = DirectoryEntry {
        relative_path: b"resource\\table.dnt".to_vec(),
        compressed_size: 0,
        payload_offset: 0,
    };
    let keys = load_keys(&key_lines());
    assert_eq!(
        extract_payload(&sealed(KEY_B, b"table"), &entry, &keys, b"C:\\out\\Game.pak", true),
        Ok(file(b"C:/out/Export/resource/table.dnt", b"table"))
    );
    assert_eq!(
        extract_payload(&sealed(KEY_B, b"table"), &entry, &keys[..1], b"out", true),
        Err(PakError::NoMatchingKey)
    );
}

#[test]
fn errors_are_accounted_for_as_skipped_or_failed() {
    assert_eq!(entry_status(&Ok::<(), PakError>(())), EntryStatus::Written);
    assert_eq!(entry_status(&Err::<(), PakError>(PakError::NoMatchingKey)), EntryStatus::Skipped);
    assert_eq!(entry_status(&Err::<(), PakError>(PakError::Decompression)), EntryStatus::Skipped);
    assert_eq!(entry_status(&Err::<(), PakError>(PakError::Io)), EntryStatus::Failed);
    assert_eq!(entry_status(&Err::<(), PakError>(PakError::Format)), EntryStatus::Failed);
    assert_eq!(entry_status(&Err::<(), PakError>(PakError::NoCandidateKeys)), EntryStatus::Failed);
}

#[test]
fn the_report_counts_each_status() {
    let statuses = [
        EntryStatus::Written,
        EntryStatus::Failed,
        EntryStatus::Written,
        EntryStatus::Skipped,
        EntryStatus::Written,
        EntryStatus::Failed,
    ];
    assert_eq!(tally(&statuses), ExtractionReport { written: 3, skipped: 1, failed: 2 });
    assert_eq!(tally(&[]), ExtractionReport { written: 0, skipped: 0, failed: 0 });
    assert_eq!(tally(&statuses).entries(), 6);
    let large = ExtractionReport { written: usize::MAX, skipped: usize::MAX, failed: 1 };
    assert_eq!(large.entries(), 2 * (usize::MAX as u128) + 1);
}
