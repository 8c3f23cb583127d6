use vstd::prelude::*;
use vstd::string::StringSliceAdditionalSpecFns;
use crate::bytes::{append_bytes, matches_at, occurs_at, same_bytes};

verus! {

/// What a request asks to be converted.
#[derive(Clone, Copy, Debug, PartialEq, Eq, Structural)]
pub enum ConvertMode {
    /// Table files to lines of text.
    ToTsv,
    /// Lines of text to table files.
    ToDnt,
    /// Animation files of version 6 to version 5.
    ActV6ToV5,
    /// Nothing that is known.
    Unknown,
}

/// The mode that a request names.
pub open spec fn mode_of(name: Seq<u8>) -> ConvertMode {
    if name == "Convert to .tsv".spec_bytes() {
        ConvertMode::ToTsv
    } else if name == "Convert to .dnt".spec_bytes() {
        ConvertMode::ToDnt
    } else if name == "Convert act v6 to v5".spec_bytes() {
        ConvertMode::ActV6ToV5
    } else {
        ConvertMode::Unknown
    }
}

/// Reads the mode that a request names.
pub fn parse_convert_mode(name: &str) -> (mode: ConvertMode)
    ensures
        mode == mode_of(name.spec_bytes()),
{
    let bytes = name.as_bytes();
    if same_bytes(bytes, "Convert to .tsv".as_bytes()) {
        ConvertMode::ToTsv
    } else if same_bytes(bytes, "Convert to .dnt".as_bytes()) {
        ConvertMode::ToDnt
    } else if same_bytes(bytes, "Convert act v6 to v5".as_bytes()) {
        ConvertMode::ActV6ToV5
    } else {
        ConvertMode::Unknown
    }
}

/// Whether a request names a folder of files rather than one file.
pub fn is_folder_mode(open_mode: &str) -> (r: bool)
    ensures
        r == (open_mode.spec_bytes() == "Folder".spec_bytes()),
{
    same_bytes(open_mode.as_bytes(), "Folder".as_bytes())
}

/// `text` with every occurrence of `from` replaced by `to`, the
/// occurrences taken from the left and without overlap.
pub open spec fn replaced(text: Seq<u8>, from: Seq<u8>, to: Seq<u8>) -> Seq<u8>
    decreases text.len(),
{
    if from.len() == 0 || text.len() < from.len() {
        text
    } else if occurs_at(text, from, 0) {
        to + replaced(text.skip(from.len() as int), from, to)
    } else {
        seq![text[0]] + replaced(text.skip(1), from, to)
    }
}

/// Replaces every occurrence of `from` in `text` by `to`.
#[verifier::rlimit(50)]
pub fn replace_all(text: &[u8], from: &[u8], to: &[u8]) -> (out: Vec<u8>)
    requires
        from@.len() > 0,
    ensures
        out@ == replaced(text@, from@, to@),
{
    let mut out: Vec<u8> = Vec::new();
    let mut at: usize = 0;
    proof {
        assert(text@.skip(0) =~= text@);
        assert(out@ + replaced(text@, from@, to@) =~= replaced(text@, from@, to@));
    }
    while text.len() - at >= from.len()
        invariant
            at <= text.len(),
            from@.len() > 0,
            replaced(text@, from@, to@) == out@ + replaced(text@.skip(at as int), from@, to@),
        decreases text.len() - at,
    {
        let ghost rest = text@.skip(at as int);
        let ghost before = out@;
        if matches_at(text, from, at) {
            proof {
                assert(rest.subrange(0, from@.len() as int) =~= text@.subrange(
                    at as int,
                    at + from@.len(),
                ));
                assert(rest.skip(from@.len() as int) =~= text@.skip(at + from@.len()));
            }
            append_bytes(&mut out, to);
            at = at + from.len();
            proof {
                assert(before + (to@ + replaced(text@.skip(at as int), from@, to@)) =~= out@
                    + replaced(text@.skip(at as int), from@, to@));
            }
        } else {
            proof {
                assert(rest.subrange(0, from@.len() as int) =~= text@.subrange(
                    at as int,
                    at + from@.len(),
                ));
                assert(rest.skip(1) =~= text@.skip(at + 1));
            }
            out.push(text[at]);
            at = at + 1;
            proof {
                assert(before + (seq![rest[0]] + replaced(text@.skip(at as int), from@, to@))
                    =~= out@ + replaced(text@.skip(at as int), from@, to@));
            }
        }
    }
    let ghost before = out@;
    append_bytes(&mut out, &text[at..text.len()]);
    proof {
        assert(text@.subrange(at as int, text@.len() as int) =~= text@.skip(at as int));
    }
    out
}

/// The name of the file that a conversion of tables writes for a file of
/// a folder: `.dnt` becomes `.tsv` on the way to text, and `.tsv` becomes
/// `.dnt` in any other mode.
pub open spec fn converted_name(file_name: Seq<u8>, mode: ConvertMode) -> Seq<u8> {
    if mode == ConvertMode::ToTsv {
        replaced(file_name, ".dnt".spec_bytes(), ".tsv".spec_bytes())
    } else {
        replaced(file_name, ".tsv".spec_bytes(), ".dnt".spec_bytes())
    }
}

/// Names the file that a conversion of tables writes for a file of a folder.
pub fn convert_file_name(file_name: &[u8], mode: ConvertMode) -> (name: Vec<u8>)
    ensures
        name@ == converted_name(file_name@, mode),
{
    proof {
        reveal_strlit(".dnt");
        reveal_strlit(".tsv");
        vstd::utf8::is_ascii_chars_encode_utf8(".dnt"@);
        vstd::utf8::is_ascii_chars_encode_utf8(".tsv"@);
    }
    match mode {
        ConvertMode::ToTsv => replace_all(file_name, ".dnt".as_bytes(), ".tsv".as_bytes()),
        _ => replace_all(file_name, ".tsv".as_bytes(), ".dnt".as_bytes()),
    }
}

} // verus!
