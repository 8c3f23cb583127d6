use vstd::prelude::*;

verus! {

/// Why a run, or one entry of it, did not produce a file.
#[derive(Clone, Copy, Debug, PartialEq, Eq, Structural)]
pub enum PakError {
    /// The archive, the key list or the output tree could not be opened, read or written.
    Io,
    /// The header or the directory is truncated, or an entry's payload lies outside the archive.
    Format,
    /// Every candidate key was tried and none both decrypted and inflated the entry.
    NoMatchingKey,
    /// A plain entry did not inflate, or inflated to nothing.
    Decompression,
    /// Encryption was requested and the key list holds no candidate key.
    NoCandidateKeys,
}

} // verus!
