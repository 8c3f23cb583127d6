use vstd::prelude::*;
use vstd::string::StringSliceAdditionalSpecFns;
use crate::bytes::{append_bytes, contains, contains_bytes, copy_range};

verus! {

/// The separator that resolved paths are written with.
pub const SLASH: u8 = 0x2f;

/// The separator that entry paths are stored with.
pub const BACKSLASH: u8 = 0x5c;

/// Both slashes separate the components of a path.
pub open spec fn is_separator(byte: u8) -> bool {
    byte == SLASH || byte == BACKSLASH
}

/// Length of the run of bytes other than separators that `path` begins with.
pub open spec fn component_len(path: Seq<u8>) -> nat
    decreases path.len(),
{
    if path.len() > 0 && !is_separator(path[0]) {
        1 + component_len(path.skip(1))
    } else {
        0
    }
}

/// The first run of bytes other than separators is no longer than the path.
pub proof fn lemma_component_len_bound(path: Seq<u8>)
    ensures
        component_len(path) <= path.len(),
    decreases path.len(),
{
    if path.len() > 0 && !is_separator(path[0]) {
        lemma_component_len_bound(path.skip(1));
    }
}

/// The components of a path: its maximal runs of bytes other than separators, in order.
pub open spec fn components(path: Seq<u8>) -> Seq<Seq<u8>>
    decreases path.len(),
{
    if path.len() == 0 {
        Seq::empty()
    } else if is_separator(path[0]) {
        components(path.skip(1))
    } else {
        let n = component_len(path) as int;
        proof {
            lemma_component_len_bound(path);
        }
        seq![path.take(n)] + components(path.skip(n))
    }
}

/// A component of the output root stays unless it names the archive itself.
pub open spec fn keeps_component(component: Seq<u8>) -> bool {
    !contains_bytes(component, ".pak".spec_bytes())
}

/// The components that stay, in order.
pub open spec fn kept_components(parts: Seq<Seq<u8>>) -> Seq<Seq<u8>>
    decreases parts.len(),
{
    if parts.len() == 0 {
        Seq::empty()
    } else if keeps_component(parts.last()) {
        kept_components(parts.drop_last()).push(parts.last())
    } else {
        kept_components(parts.drop_last())
    }
}

/// The components written one after the other, with one slash between neighbours.
pub open spec fn joined(parts: Seq<Seq<u8>>) -> Seq<u8>
    decreases parts.len(),
{
    if parts.len() == 0 {
        Seq::empty()
    } else if parts.len() == 1 {
        parts[0]
    } else {
        joined(parts.drop_last()) + seq![SLASH] + parts.last()
    }
}

/// A path that begins with a separator starts at the root of the file system.
pub open spec fn is_rooted(path: Seq<u8>) -> bool {
    path.len() > 0 && is_separator(path[0])
}

/// The components of the output path of an entry: those of the output root
/// that do not name the archive, then `Export`, then those of the entry path.
pub open spec fn output_components(output_root: Seq<u8>, relative_path: Seq<u8>) -> Seq<Seq<u8>> {
    kept_components(components(output_root)).push("Export".spec_bytes()) + components(
        relative_path,
    )
}

/// The output path of an entry.
pub open spec fn output_path(output_root: Seq<u8>, relative_path: Seq<u8>) -> Seq<u8> {
    let lead = if is_rooted(output_root) {
        seq![SLASH]
    } else {
        Seq::empty()
    };
    lead + joined(output_components(output_root, relative_path))
}

/// The byte sequences that a list of vectors holds.
pub open spec fn byte_seqs(parts: Seq<Vec<u8>>) -> Seq<Seq<u8>> {
    Seq::new(parts.len(), |i: int| parts[i]@)
}

/// `n` is the length of the first run of bytes other than separators.
pub proof fn lemma_component_len(path: Seq<u8>, n: int)
    requires
        0 <= n <= path.len(),
        forall|i: int| 0 <= i < n ==> !is_separator(path[i]),
        n == path.len() || is_separator(path[n]),
    ensures
        component_len(path) == n,
    decreases n,
{
    if n > 0 {
        lemma_component_len(path.skip(1), n - 1);
    }
}

/// Whether a byte separates components.
pub fn separates(byte: u8) -> (r: bool)
    ensures
        r == is_separator(byte),
{
    byte == SLASH || byte == BACKSLASH
}

/// Splits a path into its components.
#[verifier::rlimit(50)]
pub fn split_components(path: &[u8]) -> (parts: Vec<Vec<u8>>)
    ensures
        byte_seqs(parts@) == components(path@),
{
    let mut parts: Vec<Vec<u8>> = Vec::new();
    let mut at: usize = 0;
    proof {
        assert(path@.skip(0) =~= path@);
        assert(byte_seqs(parts@) =~= Seq::<Seq<u8>>::empty());
    }
    while at < path.len()
        invariant
            at <= path.len(),
            components(path@) == byte_seqs(parts@) + components(path@.skip(at as int)),
        decreases path.len() - at,
    {
        let ghost rest = path@.skip(at as int);
        if separates(path[at]) {
            assert(rest.skip(1) =~= path@.skip(at + 1));
            at = at + 1;
        } else {
            let start: usize = at;
            while at < path.len() && !separates(path[at])
                invariant
                    start <= at <= path.len(),
                    forall|i: int| start <= i < at ==> !is_separator(path@[i]),
                decreases path.len() - at,
            {
                at = at + 1;
            }
            let part = copy_range(path, start, at);
            proof {
                lemma_component_len(rest, at - start);
                assert(rest.take(at - start) =~= part@);
                assert(rest.skip(at - start) =~= path@.skip(at as int));
                assert(byte_seqs(parts@.push(part)) =~= byte_seqs(parts@) + seq![part@]);
            }
            parts.push(part);
        }
    }
    proof {
        assert(byte_seqs(parts@) + components(path@.skip(at as int)) =~= byte_seqs(parts@));
    }
    parts
}

/// Appends to `out` the components that stay.
pub fn keep_components(parts: &Vec<Vec<u8>>, out: &mut Vec<Vec<u8>>)
    ensures
        byte_seqs(final(out)@) == byte_seqs(old(out)@) + kept_components(byte_seqs(parts@)),
{
    let ghost all = byte_seqs(parts@);
    let mut i: usize = 0;
    proof {
        assert(all.take(0) =~= Seq::<Seq<u8>>::empty());
        assert(byte_seqs(out@) + kept_components(all.take(0)) =~= byte_seqs(out@));
    }
    while i < parts.len()
        invariant
            i <= parts.len(),
            all == byte_seqs(parts@),
            byte_seqs(out@) == byte_seqs(old(out)@) + kept_components(all.take(i as int)),
        decreases parts.len() - i,
    {
        let part = &parts[i];
        proof {
            assert(all.take(i + 1).drop_last() =~= all.take(i as int));
            assert(all.take(i + 1).last() == part@);
        }
        if !contains(part.as_slice(), ".pak".as_bytes()) {
            let copy = copy_range(part.as_slice(), 0, part.len());
            proof {
                assert(copy@ =~= part@);
                assert(byte_seqs(out@.push(copy)) =~= byte_seqs(out@).push(part@));
            }
            out.push(copy);
        }
        i = i + 1;
    }
    proof {
        assert(all.take(parts@.len() as int) =~= all);
    }
}

/// Appends to `out` the components joined by slashes.
pub fn append_joined(out: &mut Vec<u8>, parts: &Vec<Vec<u8>>)
    ensures
        final(out)@ == old(out)@ + joined(byte_seqs(parts@)),
{
    let ghost all = byte_seqs(parts@);
    let mut i: usize = 0;
    proof {
        assert(all.take(0) =~= Seq::<Seq<u8>>::empty());
    }
    while i < parts.len()
        invariant
            i <= parts.len(),
            all == byte_seqs(parts@),
            out@ == old(out)@ + joined(all.take(i as int)),
        decreases parts.len() - i,
    {
        proof {
            assert(all.take(i + 1).drop_last() =~= all.take(i as int));
            assert(all.take(i + 1).last() == parts@[i as int]@);
        }
        if i > 0 {
            out.push(SLASH);
        }
        append_bytes(out, parts[i].as_slice());
        i = i + 1;
    }
    proof {
        assert(all.take(parts@.len() as int) =~= all);
    }
}

/// Resolves where an entry is written.
///
/// The components of the output root that contain `.pak` are dropped, the
/// directory `Export` follows, then the components of the entry path. Both
/// slashes separate components on the way in; the result is written with
/// forward slashes, and begins with one where the output root does.
#[verifier::rlimit(50)]
pub fn resolve_output_path(output_root: &[u8], relative_path: &[u8]) -> (path: Vec<u8>)
    ensures
        path@ == output_path(output_root@, relative_path@),
{
    let root_parts = split_components(output_root);
    let mut parts: Vec<Vec<u8>> = Vec::new();
    assert(byte_seqs(parts@) =~= Seq::<Seq<u8>>::empty());
    keep_components(&root_parts, &mut parts);
    let ghost kept = byte_seqs(parts@);
    let export = copy_range("Export".as_bytes(), 0, "Export".as_bytes().len());
    assert(export@ =~= "Export".spec_bytes());
    parts.push(export);
    assert(byte_seqs(parts@) =~= kept.push("Export".spec_bytes()));
    let mut relative_parts = split_components(relative_path);
    let ghost before = byte_seqs(parts@);
    let ghost after = byte_seqs(relative_parts@);
    parts.append(&mut relative_parts);
    assert(byte_seqs(parts@) =~= before + after);
    let mut path: Vec<u8> = Vec::new();
    if output_root.len() > 0 && separates(output_root[0]) {
        path.push(SLASH);
    }
    append_joined(&mut path, &parts);
    path
}

} // verus!
