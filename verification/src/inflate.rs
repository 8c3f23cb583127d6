use vstd::prelude::*;

verus! {

/// What zlib inflation makes of `data`: the decompressed bytes, or `None`
/// where `data` is no complete, well-formed zlib stream.
pub uninterp spec fn zlib_inflate(data: Seq<u8>) -> Option<Seq<u8>>;

/// The bytes that an optional vector holds.
pub open spec fn bytes_of(value: Option<Vec<u8>>) -> Option<Seq<u8>> {
    match value {
        Some(bytes) => Some(bytes@),
        None => None,
    }
}

/// An inflation result counts only where it holds at least one byte.
pub open spec fn nonempty(inflated: Option<Seq<u8>>) -> Option<Seq<u8>> {
    match inflated {
        Some(bytes) => if bytes.len() > 0 {
            Some(bytes)
        } else {
            None
        },
        None => None,
    }
}

/// Runs `flate2::read::ZlibDecoder` over `data` to the end of the stream.
/// Trusted: the decoder's output depends on `data` alone, and a read error
/// of the decoder is reported as `None`.
#[verifier::external_body]
pub(crate) fn inflate(data: &[u8]) -> (r: Option<Vec<u8>>)
    ensures
        bytes_of(r) == zlib_inflate(data@),
{
    let mut out = Vec::new();
    match std::io::Read::read_to_end(&mut flate2::read::ZlibDecoder::new(data), &mut out) {
        Ok(_) => Some(out),
        Err(_) => None,
    }
}

/// Keeps an inflation result only where it holds at least one byte.
pub fn accept_inflated(inflated: Option<Vec<u8>>) -> (r: Option<Vec<u8>>)
    ensures
        bytes_of(r) == nonempty(bytes_of(inflated)),
{
    match inflated {
        Some(bytes) => if bytes.len() > 0 {
            Some(bytes)
        } else {
            None
        },
        None => None,
    }
}

/// Inflates `data` and keeps the result where it holds at least one byte.
pub fn inflate_nonempty(data: &[u8]) -> (r: Option<Vec<u8>>)
    ensures
        bytes_of(r) == nonempty(zlib_inflate(data@)),
{
    accept_inflated(inflate(data))
}

} // verus!
