//! The compression codec behind loose objects and packfile payloads.
//!
//! A zlib stream carries its own end marker, so decompression from the
//! middle of a buffer both yields the payload and says how many compressed
//! bytes belonged to it — the packfile format depends on exactly this.

use vstd::prelude::*;

use crate::GitError;

verus! {

/// The zlib-compressed form of a byte sequence, named but not spelled out:
/// at a fixed compression level it is a function of the input alone.
pub uninterp spec fn deflate_of(data: Seq<u8>) -> Seq<u8>;

/// What decompressing the front of a byte sequence yields: the payload and
/// the number of compressed bytes consumed, or nothing when no well-formed
/// zlib stream starts there.  A function of the input alone.
pub uninterp spec fn inflate_of(data: Seq<u8>) -> Option<(Seq<u8>, nat)>;

/// Relies on `flate2::write::ZlibEncoder` at `Compression::fast()`: the
/// compressed stream is a function of the input alone, and decompressing
/// it — with anything at all appended — yields the input back and consumes
/// exactly the stream, since a zlib stream marks its own end.
#[verifier::external_body]
pub fn zlib_compress(data: &Vec<u8>) -> (r: Vec<u8>)
    ensures
        r@ == deflate_of(data@),
        forall|rest: Seq<u8>| inflate_of(r@ + rest) == Some((data@, r@.len() as nat)),
{
    let mut enc = flate2::write::ZlibEncoder::new(Vec::new(), flate2::Compression::fast());
    std::io::Write::write_all(&mut enc, data.as_slice()).expect("writing to a buffer");
    enc.finish().expect("finishing an in-memory stream")
}

/// Relies on `flate2::bufread::ZlibDecoder`: decompresses the single zlib
/// stream starting at `pos`, reporting via `total_in` how many compressed
/// bytes it consumed, and fails exactly where no well-formed stream starts.
#[verifier::external_body]
pub fn zlib_decompress_prefix(data: &Vec<u8>, pos: usize) -> (r: Result<(Vec<u8>, usize), GitError>)
    requires
        pos <= data@.len(),
    ensures
        match r {
            Ok((out, used)) => {
                &&& pos + used <= data@.len()
                &&& inflate_of(data@.skip(pos as int)) == Some((out@, used as nat))
            },
            Err(e) => e == GitError::Format && inflate_of(data@.skip(pos as int)) is None,
        },
{
    let mut dec = flate2::bufread::ZlibDecoder::new(&data[pos..]);
    let mut out = Vec::new();
    match std::io::Read::read_to_end(&mut dec, &mut out) {
        Ok(_) => {
            let used = dec.total_in() as usize;
            if pos + used <= data.len() {
                Ok((out, used))
            } else {
                Err(GitError::Format)
            }
        },
        Err(_) => Err(GitError::Format),
    }
}

} // verus!
