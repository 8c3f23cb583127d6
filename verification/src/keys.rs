use vstd::prelude::*;
use vstd::utf8::encode_utf8;
use crate::text::{line_texts, trim, trimmed};

verus! {

/// Length of the text of a key line.
pub const KEY_TEXT_LEN: usize = 31;

/// Length of the secret that a key line yields.
pub const KEY_LEN: usize = 32;

/// One candidate decryption secret: the 31 bytes of a key line and a closing zero byte.
#[derive(Clone, Copy, Debug, PartialEq, Eq)]
pub struct CandidateKey {
    pub secret: [u8; 32],
}

impl View for CandidateKey {
    type V = Seq<u8>;

    open spec fn view(&self) -> Seq<u8> {
        self.secret@
    }
}

/// The secrets of a list of candidate keys, in order.
pub open spec fn key_secrets(keys: Seq<CandidateKey>) -> Seq<Seq<u8>> {
    Seq::new(keys.len(), |i: int| keys[i]@)
}

/// The secret that a line of a key list yields: where the trimmed line is
/// 31 bytes long in UTF-8, those bytes and a zero byte.
pub open spec fn key_of_line(line: Seq<char>) -> Option<Seq<u8>> {
    let text = encode_utf8(trimmed(line));
    if text.len() == KEY_TEXT_LEN {
        Some(text.push(0u8))
    } else {
        None
    }
}

/// The secrets that a list of lines yields, in order.
pub open spec fn keys_of_lines(lines: Seq<Seq<char>>) -> Seq<Seq<u8>>
    decreases lines.len(),
{
    if lines.len() == 0 {
        Seq::empty()
    } else {
        match key_of_line(lines.last()) {
            Some(secret) => keys_of_lines(lines.drop_last()).push(secret),
            None => keys_of_lines(lines.drop_last()),
        }
    }
}

/// Reads one line of a key list.
pub fn key_from_line(line: &str) -> (r: Option<CandidateKey>)
    ensures
        match r {
            Some(key) => key_of_line(line@) == Some(key@),
            None => key_of_line(line@) is None,
        },
{
    let text = trim(line).as_bytes();
    if text.len() != KEY_TEXT_LEN {
        return None;
    }
    let mut secret: [u8; 32] = [0u8; 32];
    let mut i: usize = 0;
    while i < KEY_TEXT_LEN
        invariant
            i <= KEY_TEXT_LEN,
            text@.len() == KEY_TEXT_LEN,
            forall|j: int| 0 <= j < i ==> secret@[j] == text@[j],
            forall|j: int| i <= j < KEY_LEN ==> secret@[j] == 0,
        decreases KEY_TEXT_LEN - i,
    {
        secret[i] = text[i];
        i = i + 1;
    }
    assert(secret@ =~= text@.push(0u8));
    Some(CandidateKey { secret })
}

/// Loads the candidate keys that the lines of a key list hold, in file order.
///
/// A line yields a key where its trimmed text is 31 bytes long; any other
/// line is passed over.
pub fn load_keys(lines: &Vec<String>) -> (keys: Vec<CandidateKey>)
    ensures
        key_secrets(keys@) == keys_of_lines(line_texts(lines@)),
{
    let ghost all = line_texts(lines@);
    let mut keys: Vec<CandidateKey> = Vec::new();
    let mut i: usize = 0;
    proof {
        assert(all.take(0) =~= Seq::<Seq<char>>::empty());
        assert(key_secrets(keys@) =~= Seq::<Seq<u8>>::empty());
    }
    while i < lines.len()
        invariant
            i <= lines.len(),
            all == line_texts(lines@),
            key_secrets(keys@) == keys_of_lines(all.take(i as int)),
        decreases lines.len() - i,
    {
        proof {
            assert(all.take(i + 1).drop_last() =~= all.take(i as int));
            assert(all.take(i + 1).last() == lines@[i as int]@);
        }
        match key_from_line(lines[i].as_str()) {
            Some(key) => {
                assert(key_secrets(keys@.push(key)) =~= key_secrets(keys@).push(key@));
                keys.push(key);
            },
            None => {},
        }
        i = i + 1;
    }
    proof {
        assert(all.take(lines@.len() as int) =~= all);
    }
    keys
}

} // verus!
