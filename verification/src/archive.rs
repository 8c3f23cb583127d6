use vstd::prelude::*;
use crate::bytes::{copy_range, le_u32, read_u32_le};
use crate::error::PakError;
use crate::paths::BACKSLASH;

verus! {

/// Where the header record starts in the archive.
pub const HEADER_OFFSET: usize = 256;

/// Length of the header record.
pub const HEADER_SIZE: usize = 16;

/// Distance from one directory record to the next.
pub const RECORD_STRIDE: u64 = 316;

/// Length of the part of a directory record that carries data.
pub const RECORD_SIZE: usize = 280;

/// Length of the path field that opens a directory record.
pub const PATH_FIELD_SIZE: usize = 256;

/// Where the compressed size stands in a directory record.
pub const SIZE_FIELD_AT: usize = 264;

/// Where the payload offset stands in a directory record.
pub const OFFSET_FIELD_AT: usize = 268;

/// The fixed record at offset 256 of an archive.
#[derive(Clone, Copy, Debug, PartialEq, Eq, Structural)]
pub struct ArchiveHeader {
    pub version: u32,
    pub entry_count: u32,
    pub directory_offset: u32,
}

/// One archived file as the directory describes it.
#[derive(Clone, Debug, PartialEq, Eq)]
pub struct DirectoryEntry {
    pub relative_path: Vec<u8>,
    pub compressed_size: u32,
    pub payload_offset: u32,
}

/// The mathematical value of a [`DirectoryEntry`].
pub struct EntrySpec {
    pub relative_path: Seq<u8>,
    pub compressed_size: u32,
    pub payload_offset: u32,
}

impl View for DirectoryEntry {
    type V = EntrySpec;

    open spec fn view(&self) -> EntrySpec {
        EntrySpec {
            relative_path: self.relative_path@,
            compressed_size: self.compressed_size,
            payload_offset: self.payload_offset,
        }
    }
}

/// The values of a list of entries, in order.
pub open spec fn entry_specs(entries: Seq<DirectoryEntry>) -> Seq<EntrySpec> {
    Seq::new(entries.len(), |i: int| entries[i]@)
}

/// Number of bytes of `field` before its first NUL byte (all of them if it has none).
pub open spec fn text_len(field: Seq<u8>) -> nat
    decreases field.len(),
{
    if field.len() > 0 && field[0] != 0 {
        1 + text_len(field.skip(1))
    } else {
        0
    }
}

/// Number of backslashes that `text` begins with.
pub open spec fn leading_backslashes(text: Seq<u8>) -> nat
    decreases text.len(),
{
    if text.len() > 0 && text[0] == BACKSLASH {
        1 + leading_backslashes(text.skip(1))
    } else {
        0
    }
}

/// The entry path that a path field stores: the field up to its first NUL,
/// without the backslashes it begins with.
pub open spec fn stored_path(field: Seq<u8>) -> Seq<u8> {
    let text = field.take(text_len(field) as int);
    text.skip(leading_backslashes(text) as int)
}

/// `n` is the number of bytes before the first NUL of `field`.
pub proof fn lemma_text_len(field: Seq<u8>, n: int)
    requires
        0 <= n <= field.len(),
        forall|i: int| 0 <= i < n ==> field[i] != 0,
        n == field.len() || field[n] == 0,
    ensures
        text_len(field) == n,
    decreases n,
{
    if n > 0 {
        lemma_text_len(field.skip(1), n - 1);
    }
}

/// `n` is the number of backslashes that `text` begins with.
pub proof fn lemma_leading_backslashes(text: Seq<u8>, n: int)
    requires
        0 <= n <= text.len(),
        forall|i: int| 0 <= i < n ==> text[i] == BACKSLASH,
        n == text.len() || text[n] != BACKSLASH,
    ensures
        leading_backslashes(text) == n,
    decreases n,
{
    if n > 0 {
        lemma_leading_backslashes(text.skip(1), n - 1);
    }
}

/// Extracts the entry path from a path field.
pub fn entry_path(field: &[u8]) -> (path: Vec<u8>)
    ensures
        path@ == stored_path(field@),
{
    let mut end: usize = 0;
    while end < field.len() && field[end] != 0
        invariant
            end <= field.len(),
            forall|i: int| 0 <= i < end ==> field@[i] != 0,
        decreases field.len() - end,
    {
        end = end + 1;
    }
    let mut start: usize = 0;
    while start < end && field[start] == BACKSLASH
        invariant
            start <= end <= field.len(),
            forall|i: int| 0 <= i < start ==> field@[i] == BACKSLASH,
        decreases end - start,
    {
        start = start + 1;
    }
    proof {
        lemma_text_len(field@, end as int);
        let text = field@.take(end as int);
        lemma_leading_backslashes(text, start as int);
        assert(text.skip(start as int) =~= field@.subrange(start as int, end as int));
    }
    copy_range(field, start, end)
}

/// The header that a header record holds.
pub open spec fn parsed_header(record: Seq<u8>) -> ArchiveHeader {
    ArchiveHeader {
        version: le_u32(record, 0),
        entry_count: le_u32(record, 4),
        directory_offset: le_u32(record, 8),
    }
}

/// The entry that a directory record holds.
pub open spec fn parsed_entry(record: Seq<u8>) -> EntrySpec {
    EntrySpec {
        relative_path: stored_path(record.take(PATH_FIELD_SIZE as int)),
        compressed_size: le_u32(record, SIZE_FIELD_AT as int),
        payload_offset: le_u32(record, OFFSET_FIELD_AT as int),
    }
}

/// Parses a header record; it must hold at least 16 bytes.
pub fn parse_header(record: &[u8]) -> (r: Result<ArchiveHeader, PakError>)
    ensures
        r == if record@.len() >= HEADER_SIZE {
            Ok::<ArchiveHeader, PakError>(parsed_header(record@))
        } else {
            Err(PakError::Format)
        },
{
    if record.len() < HEADER_SIZE {
        return Err(PakError::Format);
    }
    Ok(
        ArchiveHeader {
            version: read_u32_le(record, 0),
            entry_count: read_u32_le(record, 4),
            directory_offset: read_u32_le(record, 8),
        },
    )
}

/// Parses a directory record; it must hold at least 280 bytes.
pub fn parse_entry(record: &[u8]) -> (r: Result<DirectoryEntry, PakError>)
    ensures
        match r {
            Ok(entry) => record@.len() >= RECORD_SIZE && entry@ == parsed_entry(record@),
            Err(e) => record@.len() < RECORD_SIZE && e == PakError::Format,
        },
{
    if record.len() < RECORD_SIZE {
        return Err(PakError::Format);
    }
    let field = &record[0..PATH_FIELD_SIZE];
    assert(field@ == record@.take(PATH_FIELD_SIZE as int));
    let relative_path = entry_path(field);
    Ok(
        DirectoryEntry {
            relative_path,
            compressed_size: read_u32_le(record, SIZE_FIELD_AT),
            payload_offset: read_u32_le(record, OFFSET_FIELD_AT),
        },
    )
}

/// The header of an archive: the record at offset 256.
pub open spec fn header_of(archive: Seq<u8>) -> ArchiveHeader {
    parsed_header(archive.subrange(HEADER_OFFSET as int, HEADER_OFFSET + HEADER_SIZE))
}

/// Where directory record `index` starts in the archive.
pub open spec fn record_start(header: ArchiveHeader, index: int) -> int {
    header.directory_offset + index * RECORD_STRIDE
}

/// The data part of directory record `index`.
pub open spec fn record_of(archive: Seq<u8>, index: int) -> Seq<u8> {
    let start = record_start(header_of(archive), index);
    archive.subrange(start, start + RECORD_SIZE)
}

/// The archive holds its header.
pub open spec fn header_readable(archive: Seq<u8>) -> bool {
    archive.len() >= HEADER_OFFSET + HEADER_SIZE
}

/// The archive holds its header and the data part of every record that the header counts.
pub open spec fn directory_readable(archive: Seq<u8>) -> bool {
    header_readable(archive) && directory_fits(header_of(archive), archive.len() as int)
}

/// The entries of an archive, in directory order.
pub open spec fn directory_of(archive: Seq<u8>) -> Seq<EntrySpec> {
    Seq::new(
        header_of(archive).entry_count as nat,
        |i: int| parsed_entry(record_of(archive, i)),
    )
}

/// A header that counts more records than the archive holds makes the
/// directory unreadable: one record that does not fit is enough.
pub proof fn lemma_truncated_directory_is_unreadable(archive: Seq<u8>, index: int)
    requires
        0 <= index < header_of(archive).entry_count,
        record_start(header_of(archive), index) + RECORD_SIZE > archive.len(),
    ensures
        !directory_readable(archive),
{
}

/// Where directory record `index` starts in the archive.
pub fn record_offset(header: &ArchiveHeader, index: u32) -> (offset: u64)
    ensures
        offset == record_start(*header, index as int),
{
    header.directory_offset as u64 + index as u64 * RECORD_STRIDE
}

/// An archive of the given length holds the data part of every record that the header counts.
pub open spec fn directory_fits(header: ArchiveHeader, archive_len: int) -> bool {
    forall|i: int|
        0 <= i < header.entry_count ==> record_start(header, i) + RECORD_SIZE <= archive_len
}

/// Whether an archive of the given length holds the directory that its header declares.
pub fn holds_directory(header: &ArchiveHeader, archive_len: u64) -> (r: bool)
    ensures
        r == directory_fits(*header, archive_len as int),
{
    if header.entry_count == 0 {
        return true;
    }
    let last: u64 = record_offset(header, header.entry_count - 1);
    if last + RECORD_SIZE as u64 > archive_len {
        assert(!directory_fits(*header, archive_len as int)) by {
            assert(record_start(*header, header.entry_count - 1) + RECORD_SIZE > archive_len);
        }
        false
    } else {
        assert forall|i: int| 0 <= i < header.entry_count implies record_start(*header, i)
            + RECORD_SIZE <= archive_len by {
            assert(i * RECORD_STRIDE <= (header.entry_count - 1) * RECORD_STRIDE);
        }
        true
    }
}

/// Reads the header of an archive held in memory.
pub fn read_header(archive: &[u8]) -> (r: Result<ArchiveHeader, PakError>)
    ensures
        r == if header_readable(archive@) {
            Ok::<ArchiveHeader, PakError>(header_of(archive@))
        } else {
            Err(PakError::Format)
        },
{
    if archive.len() < HEADER_OFFSET + HEADER_SIZE {
        return Err(PakError::Format);
    }
    parse_header(&archive[HEADER_OFFSET..HEADER_OFFSET + HEADER_SIZE])
}

/// Reads the header and the whole directory of an archive held in memory.
///
/// Fails with [`PakError::Format`], and reads no entry, when the archive is
/// shorter than its header or than the directory that its header declares.
pub fn read_directory(archive: &[u8]) -> (r: Result<(ArchiveHeader, Vec<DirectoryEntry>), PakError>)
    ensures
        match r {
            Ok((header, entries)) => {
                &&& directory_readable(archive@)
                &&& header == header_of(archive@)
                &&& entry_specs(entries@) == directory_of(archive@)
            },
            Err(e) => !directory_readable(archive@) && e == PakError::Format,
        },
{
    let header = match read_header(archive) {
        Ok(header) => header,
        Err(e) => {
            return Err(e);
        },
    };
    let count: u32 = header.entry_count;
    let total: usize = archive.len();
    if !holds_directory(&header, total as u64) {
        return Err(PakError::Format);
    }
    let mut entries: Vec<DirectoryEntry> = Vec::new();
    let mut index: u32 = 0;
    while index < count
        invariant
            index <= count,
            archive@.len() <= usize::MAX,
            count == header.entry_count,
            header == header_of(archive@),
            directory_readable(archive@),
            entries@.len() == index,
            forall|i: int| 0 <= i < index ==> (#[trigger] entries@[i])@ == parsed_entry(record_of(archive@, i)),
        decreases count - index,
    {
        assert(record_start(header, index as int) + RECORD_SIZE <= archive@.len());
        let start: usize = record_offset(&header, index) as usize;
        match parse_entry(&archive[start..start + RECORD_SIZE]) {
            Ok(entry) => {
                entries.push(entry);
            },
            Err(e) => {
                return Err(e);
            },
        }
        index = index + 1;
    }
    assert(entry_specs(entries@) =~= directory_of(archive@));
    Ok((header, entries))
}

} // verus!
