use pak_extractor::archive::{
    entry_path, parse_entry, parse_header, read_directory, read_header, record_offset,
    ArchiveHeader, DirectoryEntry,
};
use pak_extractor::bytes::{contains, copy_range, ends_with, find, matches_at, read_u32_le};
use pak_extractor::error::PakError;

fn record(path: &[u8], size: u32, offset: u32) -> Vec<u8> {
    let mut record = vec![0u8; 316];
    record[..path.len()].copy_from_slice(path);
    record[256..264].copy_from_slice(&[0xaa; 8]);
    record[264..268].copy_from_slice(&size.to_le_bytes());
    record[268..272].copy_from_slice(&offset.to_le_bytes());
    record
}

fn archive_with(records: &[Vec<u8>], declared: u32) -> Vec<u8> {
    let mut archive = vec![0x11u8; 256];
    archive.extend_from_slice(&7u32.to_le_bytes());
    archive.extend_from_slice(&declared.to_le_bytes());
    archive.extend_from_slice(&300u32.to_le_bytes());
    archive.extend_from_slice(&[0u8; 4]);
    archive.resize(300, 0x22);
    for record in records {
        archive.extend_from_slice(record);
    }
    archive
}

#[test]
fn a_little_endian_number_is_read_byte_by_byte() {
    assert_eq!(read_u32_le(&[0x78, 0x56, 0x34, 0x12], 0), 0x1234_5678);
    assert_eq!(read_u32_le(&[0, 0xff, 0xff, 0xff, 0xff], 1), u32::MAX);
    assert_eq!(read_u32_le(&[9, 1, 0, 0, 0], 1), 1);
}

#[test]
fn a_range_is_copied() {
    assert_eq!(copy_range(&[1, 2, 3, 4, 5], 1, 4), vec![2, 3, 4]);
    assert_eq!(copy_range(&[1, 2, 3], 3, 3), Vec::<u8>::new());
}

#[test]
fn occurrences_are_found_where_they_stand() {
    assert!(matches_at(b"abcabc", b"bc", 1));
    assert!(!matches_at(b"abcabc", b"bc", 2));
    assert_eq!(find(b"abcabc", b"bc"), Some(1));
    assert_eq!(find(b"abcabc", b"cab"), Some(2));
    assert_eq!(find(b"abcabc", b"abc"), Some(0));
    assert_eq!(find(b"abcabc", b""), Some(0));
    assert_eq!(find(b"abcabc", b"abcabcd"), None);
    assert_eq!(find(b"abcabc", b"ca "), None);
    assert_eq!(find(b"", b""), Some(0));
}

#[test]
fn containment_and_suffixes() {
    assert!(contains(b"resource\\xigncode\\a", b"xigncode"));
    assert!(!contains(b"resource\\xigncod", b"xigncode"));
    assert!(contains(b"abc", b""));
    assert!(ends_with(b"game.exe", b".exe"));
    assert!(!ends_with(b"game.exe ", b".exe"));
    assert!(!ends_with(b"exe", b".exe"));
    assert!(ends_with(b"anything", b""));
}

#[test]
fn the_header_is_three_little_endian_numbers() {
    let mut bytes = Vec::new();
    bytes.extend_from_slice(&11u32.to_le_bytes());
    bytes.extend_from_slice(&3u32.to_le_bytes());
    bytes.extend_from_slice(&0x0102_0304u32.to_le_bytes());
    bytes.extend_from_slice(&[0xff; 4]);
    assert_eq!(
        parse_header(&bytes),
        Ok(ArchiveHeader { version: 11, entry_count: 3, directory_offset: 0x0102_0304 })
    );
    assert_eq!(parse_header(&bytes[..15]), Err(PakError::Format));
}

#[test]
fn a_stored_path_ends_at_the_first_nul_and_loses_leading_backslashes() {
    assert_eq!(entry_path(b"\\resource\\a.dnt\0\0\0"), b"resource\\a.dnt".to_vec());
    assert_eq!(entry_path(b"\\\\a\0b\0"), b"a".to_vec());
    assert_eq!(entry_path(b"a\\b"), b"a\\b".to_vec());
    assert_eq!(entry_path(b"\0\\a"), Vec::<u8>::new());
    assert_eq!(entry_path(b"\\\\\\"), Vec::<u8>::new());
    assert_eq!(entry_path(b""), Vec::<u8>::new());
}

#[test]
fn a_directory_record_holds_path_size_and_offset() {
    let bytes = record(b"\\resource\\a.dnt", 1234, 0x00ab_cdef);
    assert_eq!(
        parse_entry(&bytes),
        Ok(DirectoryEntry {
            relative_path: b"resource\\a.dnt".to_vec(),
            compressed_size: 1234,
            payload_offset: 0x00ab_cdef,
        })
    );
    assert_eq!(parse_entry(&bytes[..280]).unwrap().compressed_size, 1234);
    assert_eq!(parse_entry(&bytes[..279]), Err(PakError::Format));
}

#[test]
fn a_path_that_fills_its_field_is_kept_whole() {
    let path = vec![b'x'; 256];
    let entry = parse_entry(&record(&path, 1, 2)).unwrap();
    assert_eq!(entry.relative_path, path);
}

#[test]
fn records_lie_316_bytes_apart() {
    let header = ArchiveHeader { version: 1, entry_count: 9, directory_offset: 1000 };
    assert_eq!(record_offset(&header, 0), 1000);
    assert_eq!(record_offset(&header, 3), 1948);
    let far = ArchiveHeader { version: 1, entry_count: 9, directory_offset: u32::MAX };
    assert_eq!(record_offset(&far, u32::MAX), 4_294_967_295 + 4_294_967_295 * 316);
}

#[test]
fn the_header_stands_at_offset_256() {
    let archive = archive_with(&[], 0);
    assert_eq!(
        read_header(&archive),
        Ok(ArchiveHeader { version: 7, entry_count: 0, directory_offset: 300 })
    );
    assert_eq!(read_header(&archive[..271]), Err(PakError::Format));
    assert_eq!(read_header(&[]), Err(PakError::Format));
}

#[test]
fn the_directory_is_read_in_order() {
    let archive = archive_with(&[record(b"\\a.txt", 10, 20), record(b"b\\c.txt", 30, 40)], 2);
    let (header, entries) = read_directory(&archive).unwrap();
    assert_eq!(header.entry_count, 2);
    assert_eq!(entries.len(), 2);
    assert_eq!(entries[0].relative_path, b"a.txt".to_vec());
    assert_eq!(entries[0].compressed_size, 10);
    assert_eq!(entries[0].payload_offset, 20);
    assert_eq!(entries[1].relative_path, b"b\\c.txt".to_vec());
    assert_eq!(entries[1].compressed_size, 30);
    assert_eq!(entries[1].payload_offset, 40);
}

#[test]
fn the_padding_of_the_last_record_may_be_missing() {
    let archive = archive_with(&[record(b"a", 1, 2), record(b"b", 3, 4)], 2);
    let cut = 300 + 316 + 280;
    assert_eq!(read_directory(&archive[..cut]).unwrap().1.len(), 2);
    assert_eq!(read_directory(&archive[..cut - 1]), Err(PakError::Format));
}

#[test]
fn a_header_that_declares_more_entries_than_the_file_holds_is_refused() {
    let archive = archive_with(&[record(b"a", 1, 2), record(b"b", 3, 4)], 3);
    assert_eq!(read_directory(&archive), Err(PakError::Format));
    let huge = archive_with(&[record(b"a", 1, 2)], u32::MAX);
    assert_eq!(read_directory(&huge), Err(PakError::Format));
}

#[test]
fn an_empty_directory_is_read() {
    let archive = archive_with(&[], 0);
    let (header, entries) = read_directory(&archive[..272]).unwrap();
    assert_eq!(header.entry_count, 0);
    assert!(entries.is_empty());
}
