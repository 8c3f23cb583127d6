use vstd::prelude::*;
use crate::archive::{
    directory_of, directory_readable, entry_specs, header_of, read_directory, ArchiveHeader,
    DirectoryEntry, EntrySpec,
};
use crate::decode::{decode, decode_spec};
use crate::error::PakError;
use crate::keys::{key_secrets, keys_of_lines, load_keys, CandidateKey};
use crate::paths::{output_path, resolve_output_path};
use crate::text::line_texts;

verus! {

/// A decoded entry and the place where it is to be written.
#[derive(Clone, Debug, PartialEq, Eq)]
pub struct ExtractedFile {
    pub output_path: Vec<u8>,
    pub contents: Vec<u8>,
}

/// The mathematical value of an [`ExtractedFile`].
pub struct FileSpec {
    pub output_path: Seq<u8>,
    pub contents: Seq<u8>,
}

impl View for ExtractedFile {
    type V = FileSpec;

    open spec fn view(&self) -> FileSpec {
        FileSpec { output_path: self.output_path@, contents: self.contents@ }
    }
}

/// The value of the outcome of one entry.
pub open spec fn outcome_spec(outcome: Result<ExtractedFile, PakError>) -> Result<
    FileSpec,
    PakError,
> {
    match outcome {
        Ok(file) => Ok(file@),
        Err(e) => Err(e),
    }
}

/// The values of the outcomes of a run, in directory order.
pub open spec fn outcome_specs(outcomes: Seq<Result<ExtractedFile, PakError>>) -> Seq<
    Result<FileSpec, PakError>,
> {
    Seq::new(outcomes.len(), |i: int| outcome_spec(outcomes[i]))
}

/// The payload of an entry lies inside the archive.
pub open spec fn payload_in_bounds(archive_len: nat, entry: EntrySpec) -> bool {
    entry.payload_offset + entry.compressed_size <= archive_len
}

/// The raw bytes of an entry.
pub open spec fn payload_of(archive: Seq<u8>, entry: EntrySpec) -> Seq<u8> {
    archive.subrange(
        entry.payload_offset as int,
        entry.payload_offset + entry.compressed_size,
    )
}

/// What the raw bytes of an entry come to: the decoded contents and the place for them.
pub open spec fn payload_outcome(
    payload: Seq<u8>,
    entry: EntrySpec,
    keys: Seq<Seq<u8>>,
    output_root: Seq<u8>,
    encryption_enabled: bool,
) -> Result<FileSpec, PakError> {
    match decode_spec(payload, entry.relative_path, keys, encryption_enabled) {
        Ok(contents) => Ok(
            FileSpec { output_path: output_path(output_root, entry.relative_path), contents },
        ),
        Err(e) => Err(e),
    }
}

/// What one entry of an archive comes to. It depends on the archive, the
/// entry, the keys and the output root, and on nothing else.
pub open spec fn entry_outcome(
    archive: Seq<u8>,
    entry: EntrySpec,
    keys: Seq<Seq<u8>>,
    output_root: Seq<u8>,
    encryption_enabled: bool,
) -> Result<FileSpec, PakError> {
    if payload_in_bounds(archive.len(), entry) {
        payload_outcome(payload_of(archive, entry), entry, keys, output_root, encryption_enabled)
    } else {
        Err(PakError::Format)
    }
}

/// Decodes the raw bytes of one entry and resolves where the result goes.
pub fn extract_payload(
    payload: &[u8],
    entry: &DirectoryEntry,
    keys: &[CandidateKey],
    output_root: &[u8],
    encryption_enabled: bool,
) -> (r: Result<ExtractedFile, PakError>)
    ensures
        outcome_spec(r) == payload_outcome(
            payload@,
            entry@,
            key_secrets(keys@),
            output_root@,
            encryption_enabled,
        ),
{
    match decode(payload, entry.relative_path.as_slice(), keys, encryption_enabled) {
        Ok(contents) => {
            let output_path = resolve_output_path(output_root, entry.relative_path.as_slice());
            Ok(ExtractedFile { output_path, contents })
        },
        Err(e) => Err(e),
    }
}

/// Extracts one entry from an archive held in memory.
///
/// Fails with [`PakError::Format`] where the payload does not lie inside the archive.
pub fn extract_entry(
    archive: &[u8],
    entry: &DirectoryEntry,
    keys: &[CandidateKey],
    output_root: &[u8],
    encryption_enabled: bool,
) -> (r: Result<ExtractedFile, PakError>)
    ensures
        outcome_spec(r) == entry_outcome(
            archive@,
            entry@,
            key_secrets(keys@),
            output_root@,
            encryption_enabled,
        ),
{
    let start: u64 = entry.payload_offset as u64;
    let end: u64 = start + entry.compressed_size as u64;
    if end > archive.len() as u64 {
        return Err(PakError::Format);
    }
    let payload = &archive[start as usize..end as usize];
    extract_payload(payload, entry, keys, output_root, encryption_enabled)
}

/// How the run accounts for one entry.
#[derive(Clone, Copy, Debug, PartialEq, Eq, Structural)]
pub enum EntryStatus {
    /// The entry was decoded and its file written.
    Written,
    /// No key matched, or the entry did not inflate.
    Skipped,
    /// Reading, writing or the entry's bounds failed.
    Failed,
}

/// How an error of one entry is accounted for.
pub open spec fn error_status(e: PakError) -> EntryStatus {
    match e {
        PakError::NoMatchingKey => EntryStatus::Skipped,
        PakError::Decompression => EntryStatus::Skipped,
        _ => EntryStatus::Failed,
    }
}

/// How the result of one entry is accounted for.
pub open spec fn status_of<T>(result: Result<T, PakError>) -> EntryStatus {
    match result {
        Ok(_) => EntryStatus::Written,
        Err(e) => error_status(e),
    }
}

/// How the result of one entry is accounted for.
pub fn entry_status<T>(result: &Result<T, PakError>) -> (status: EntryStatus)
    ensures
        status == status_of(*result),
{
    match result {
        Ok(_) => EntryStatus::Written,
        Err(PakError::NoMatchingKey) => EntryStatus::Skipped,
        Err(PakError::Decompression) => EntryStatus::Skipped,
        Err(_) => EntryStatus::Failed,
    }
}

/// Number of entries with the given status.
pub open spec fn occurrences(statuses: Seq<EntryStatus>, which: EntryStatus) -> nat
    decreases statuses.len(),
{
    if statuses.len() == 0 {
        0
    } else if statuses.last() == which {
        occurrences(statuses.drop_last(), which) + 1
    } else {
        occurrences(statuses.drop_last(), which)
    }
}

/// The counts of a run.
#[derive(Clone, Copy, Debug, PartialEq, Eq, Structural)]
pub struct ExtractionReport {
    pub written: usize,
    pub skipped: usize,
    pub failed: usize,
}

impl ExtractionReport {
    /// Number of entries that the report accounts for.
    pub open spec fn total(&self) -> int {
        self.written + self.skipped + self.failed
    }

    /// Number of entries that the report accounts for.
    pub fn entries(&self) -> (count: u128)
        ensures
            count == self.total(),
    {
        self.written as u128 + self.skipped as u128 + self.failed as u128
    }

    /// The report counts exactly these statuses.
    pub open spec fn counts(&self, statuses: Seq<EntryStatus>) -> bool {
        &&& self.written == occurrences(statuses, EntryStatus::Written)
        &&& self.skipped == occurrences(statuses, EntryStatus::Skipped)
        &&& self.failed == occurrences(statuses, EntryStatus::Failed)
    }
}

/// Every entry is written, skipped or failed: the three counts add up to the number of entries.
pub proof fn lemma_counts_cover_all_entries(statuses: Seq<EntryStatus>)
    ensures
        occurrences(statuses, EntryStatus::Written) + occurrences(statuses, EntryStatus::Skipped)
            + occurrences(statuses, EntryStatus::Failed) == statuses.len(),
    decreases statuses.len(),
{
    if statuses.len() > 0 {
        lemma_counts_cover_all_entries(statuses.drop_last());
    }
}

/// Counts the statuses of a run.
pub fn tally(statuses: &[EntryStatus]) -> (report: ExtractionReport)
    ensures
        report.counts(statuses@),
        report.total() == statuses@.len(),
{
    let mut report = ExtractionReport { written: 0, skipped: 0, failed: 0 };
    let mut i: usize = 0;
    proof {
        assert(statuses@.take(0) =~= Seq::<EntryStatus>::empty());
    }
    while i < statuses.len()
        invariant
            i <= statuses.len(),
            report.counts(statuses@.take(i as int)),
            report.total() == i,
        decreases statuses.len() - i,
    {
        proof {
            assert(statuses@.take(i + 1).drop_last() =~= statuses@.take(i as int));
        }
        match statuses[i] {
            EntryStatus::Written => {
                report.written = report.written + 1;
            },
            EntryStatus::Skipped => {
                report.skipped = report.skipped + 1;
            },
            EntryStatus::Failed => {
                report.failed = report.failed + 1;
            },
        }
        i = i + 1;
    }
    proof {
        assert(statuses@.take(statuses@.len() as int) =~= statuses@);
    }
    report
}

/// What a run makes of each entry of an archive, in directory order.
pub open spec fn run_outcomes(
    archive: Seq<u8>,
    keys: Seq<Seq<u8>>,
    output_root: Seq<u8>,
    encryption_enabled: bool,
) -> Seq<Result<FileSpec, PakError>> {
    Seq::new(
        directory_of(archive).len(),
        |i: int| entry_outcome(archive, directory_of(archive)[i], keys, output_root, encryption_enabled),
    )
}

/// How a run accounts for each of its outcomes, in directory order.
pub open spec fn statuses_of(outcomes: Seq<Result<FileSpec, PakError>>) -> Seq<EntryStatus> {
    Seq::new(outcomes.len(), |i: int| status_of(outcomes[i]))
}

/// A run with encryption needs at least one candidate key.
pub open spec fn keys_suffice(keys: Seq<Seq<u8>>, encryption_enabled: bool) -> bool {
    !encryption_enabled || keys.len() > 0
}

/// What a run over an archive held in memory produced.
#[derive(Debug)]
pub struct Extraction {
    pub header: ArchiveHeader,
    /// One outcome for each directory entry, in directory order.
    pub outcomes: Vec<Result<ExtractedFile, PakError>>,
    /// The counts of the outcomes, each decoded entry counted as written.
    pub report: ExtractionReport,
}

/// Extracts every entry of an archive held in memory.
///
/// The directory is read first: a truncated header or directory fails the
/// run with [`PakError::Format`] before any entry is touched. With encryption
/// enabled the key list must yield a key, else the run fails with
/// [`PakError::NoCandidateKeys`]. After that every entry has an outcome of its
/// own, and the failure of one leaves the others as they are.
#[verifier::rlimit(50)]
pub fn pak_extract(
    archive: &[u8],
    key_lines: &Vec<String>,
    output_root: &[u8],
    encryption_enabled: bool,
) -> (r: Result<Extraction, PakError>)
    ensures
        match r {
            Ok(run) => {
                let keys = keys_of_lines(line_texts(key_lines@));
                let outcomes = run_outcomes(archive@, keys, output_root@, encryption_enabled);
                &&& directory_readable(archive@)
                &&& keys_suffice(keys, encryption_enabled)
                &&& run.header == header_of(archive@)
                &&& outcome_specs(run.outcomes@) == outcomes
                &&& run.report.counts(statuses_of(outcomes))
                &&& run.report.total() == header_of(archive@).entry_count
            },
            Err(e) => {
                let keys = keys_of_lines(line_texts(key_lines@));
                if !directory_readable(archive@) {
                    e == PakError::Format
                } else {
                    e == PakError::NoCandidateKeys && !keys_suffice(keys, encryption_enabled)
                }
            },
        },
{
    let (header, entries) = match read_directory(archive) {
        Ok(directory) => directory,
        Err(e) => {
            return Err(e);
        },
    };
    let keys: Vec<CandidateKey> = if encryption_enabled {
        load_keys(key_lines)
    } else {
        Vec::new()
    };
    if encryption_enabled && keys.len() == 0 {
        return Err(PakError::NoCandidateKeys);
    }
    let ghost listed = keys_of_lines(line_texts(key_lines@));
    let ghost expected = run_outcomes(archive@, listed, output_root@, encryption_enabled);
    let mut outcomes: Vec<Result<ExtractedFile, PakError>> = Vec::new();
    let mut statuses: Vec<EntryStatus> = Vec::new();
    let mut i: usize = 0;
    while i < entries.len()
        invariant
            i <= entries.len(),
            entry_specs(entries@) == directory_of(archive@),
            encryption_enabled ==> key_secrets(keys@) == listed,
            expected == run_outcomes(archive@, listed, output_root@, encryption_enabled),
            outcomes@.len() == i,
            statuses@.len() == i,
            forall|j: int| 0 <= j < i ==> outcome_spec(#[trigger] outcomes@[j]) == expected[j],
            forall|j: int| 0 <= j < i ==> #[trigger] statuses@[j] == status_of(expected[j]),
        decreases entries.len() - i,
    {
        let outcome = extract_entry(archive, &entries[i], keys.as_slice(), output_root, encryption_enabled);
        proof {
            assert(entry_specs(entries@)[i as int] == entries@[i as int]@);
            assert(outcome_spec(outcome) == expected[i as int]);
        }
        statuses.push(entry_status(&outcome));
        outcomes.push(outcome);
        i = i + 1;
    }
    let report = tally(statuses.as_slice());
    proof {
        assert(entry_specs(entries@).len() == entries@.len());
        assert(outcome_specs(outcomes@) =~= expected);
        assert(statuses@ =~= statuses_of(expected));
    }
    Ok(Extraction { header, outcomes, report })
}

/// The files that a run leaves behind when it handles its entries in the
/// given order: each decoded entry is written to its output path, over
/// whatever an earlier entry wrote there.
pub open spec fn files_after(outcomes: Seq<Result<FileSpec, PakError>>, order: Seq<int>) -> Map<
    Seq<u8>,
    Seq<u8>,
>
    decreases order.len(),
{
    if order.len() == 0 {
        Map::empty()
    } else {
        let before = files_after(outcomes, order.drop_last());
        match outcomes[order.last()] {
            Ok(file) => before.insert(file.output_path, file.contents),
            Err(_) => before,
        }
    }
}

/// Step `step` of the order handles an entry that is written to `path`.
pub open spec fn writes_to(
    outcomes: Seq<Result<FileSpec, PakError>>,
    order: Seq<int>,
    step: int,
    path: Seq<u8>,
) -> bool {
    &&& 0 <= step < order.len()
    &&& outcomes[order[step]] is Ok
    &&& outcomes[order[step]]->Ok_0.output_path == path
}

/// Step `step` of the order handles entry `entry`.
pub open spec fn handles(order: Seq<int>, step: int, entry: int) -> bool {
    0 <= step < order.len() && order[step] == entry
}

/// Some step of the order handles entry `entry`.
pub open spec fn is_handled(order: Seq<int>, entry: int) -> bool {
    exists|step: int| #[trigger] handles(order, step, entry)
}

/// An order in which the entries of a run may be handled: it names entries
/// of the run only, and each of them at least once.
pub open spec fn is_schedule(order: Seq<int>, entries: nat) -> bool {
    &&& forall|step: int| 0 <= step < order.len() ==> 0 <= #[trigger] order[step] < entries
    &&& forall|entry: int| 0 <= entry < entries ==> #[trigger] is_handled(order, entry)
}

/// No two decoded entries go to the same output path.
pub open spec fn paths_distinct(outcomes: Seq<Result<FileSpec, PakError>>) -> bool {
    forall|i: int, j: int|
        0 <= i < outcomes.len() && 0 <= j < outcomes.len() && i != j && (
        #[trigger] outcomes[i]) is Ok && (#[trigger] outcomes[j]) is Ok
            ==> outcomes[i]->Ok_0.output_path != outcomes[j]->Ok_0.output_path
}

/// A path holds a file after a run exactly where some step wrote to it, and
/// then it holds the contents of the entry of every such step.
#[verifier::rlimit(50)]
pub proof fn lemma_files_after(
    outcomes: Seq<Result<FileSpec, PakError>>,
    order: Seq<int>,
    path: Seq<u8>,
)
    requires
        forall|step: int| 0 <= step < order.len() ==> 0 <= #[trigger] order[step] < outcomes.len(),
        paths_distinct(outcomes),
    ensures
        files_after(outcomes, order).dom().contains(path) <==> exists|step: int|
            writes_to(outcomes, order, step, path),
        forall|step: int| #[trigger]
            writes_to(outcomes, order, step, path) ==> files_after(outcomes, order)[path]
                == outcomes[order[step]]->Ok_0.contents,
    decreases order.len(),
{
    if order.len() > 0 {
        let earlier = order.drop_last();
        let last = order.len() - 1;
        lemma_files_after(outcomes, earlier, path);
        assert forall|step: int| writes_to(outcomes, earlier, step, path) implies writes_to(
            outcomes,
            order,
            step,
            path,
        ) by {}
        assert forall|step: int|
            writes_to(outcomes, order, step, path) && step != last implies writes_to(
            outcomes,
            earlier,
            step,
            path,
        ) by {}
        if writes_to(outcomes, order, last, path) {
            assert forall|step: int| #[trigger]
                writes_to(outcomes, order, step, path) implies order[step] == order[last] by {
                if order[step] != order[last] {
                    assert(outcomes[order[step]] is Ok);
                    assert(outcomes[order[last]] is Ok);
                }
            }
        } else {
            if files_after(outcomes, order).dom().contains(path) {
                assert(files_after(outcomes, earlier).dom().contains(path));
                let step = choose|step: int| writes_to(outcomes, earlier, step, path);
                assert(writes_to(outcomes, order, step, path));
            }
        }
    }
}

/// The files that a run leaves behind do not depend on the order in which
/// its entries are handled, as long as no two entries go to the same path.
#[verifier::rlimit(50)]
pub proof fn lemma_order_of_entries_does_not_matter(
    outcomes: Seq<Result<FileSpec, PakError>>,
    first: Seq<int>,
    second: Seq<int>,
)
    requires
        is_schedule(first, outcomes.len()),
        is_schedule(second, outcomes.len()),
        paths_distinct(outcomes),
    ensures
        files_after(outcomes, first) == files_after(outcomes, second),
{
    let left = files_after(outcomes, first);
    let right = files_after(outcomes, second);
    assert forall|path: Seq<u8>|
        (#[trigger] left.dom().contains(path)) == right.dom().contains(path) && (
        left.dom().contains(path) ==> left[path] == right[path]) by {
        lemma_files_after(outcomes, first, path);
        lemma_files_after(outcomes, second, path);
        if left.dom().contains(path) {
            let step = choose|step: int| writes_to(outcomes, first, step, path);
            assert(is_handled(second, first[step]));
            let other = choose|other: int| handles(second, other, first[step]);
            assert(handles(second, other, first[step]));
            assert(writes_to(outcomes, second, other, path));
        }
        if right.dom().contains(path) {
            let step = choose|step: int| writes_to(outcomes, second, step, path);
            assert(is_handled(first, second[step]));
            let other = choose|other: int| handles(first, other, second[step]);
            assert(handles(first, other, second[step]));
            assert(writes_to(outcomes, first, other, path));
        }
    }
    assert(left.dom() =~= right.dom());
    assert(left =~= right);
}

/// Two runs over the same archive with the same keys leave the same files,
/// in whatever order each of them handles the entries.
pub proof fn lemma_extraction_is_deterministic(
    archive: Seq<u8>,
    keys: Seq<Seq<u8>>,
    output_root: Seq<u8>,
    encryption_enabled: bool,
    first: Seq<int>,
    second: Seq<int>,
)
    requires
        is_schedule(first, directory_of(archive).len()),
        is_schedule(second, directory_of(archive).len()),
        paths_distinct(run_outcomes(archive, keys, output_root, encryption_enabled)),
    ensures
        files_after(run_outcomes(archive, keys, output_root, encryption_enabled), first)
            == files_after(run_outcomes(archive, keys, output_root, encryption_enabled), second),
{
    lemma_order_of_entries_does_not_matter(
        run_outcomes(archive, keys, output_root, encryption_enabled),
        first,
        second,
    );
}

} // verus!
