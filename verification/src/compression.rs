//! Decompressing the records of a batch.
use vstd::prelude::*;
use crate::codec::put_bytes;

verus! {

/// What `snap::raw::Decoder::decompress_vec` gives for `input`: the raw
/// Snappy decompression of the bytes, or none when they are not valid raw
/// Snappy data.
pub uninterp spec fn snappy_raw(input: Seq<u8>) -> Option<Seq<u8>>;

/// `snap::raw::Decoder::decompress_vec` on a fresh decoder: the decompressed
/// bytes, or none on an error. The contract names the result: it depends on
/// the bytes alone, and an error comes exactly when the name has no bytes.
#[verifier::external_body]
fn snap_decompress(input: &[u8]) -> (r: Option<Vec<u8>>)
    ensures
        r is None <==> snappy_raw(input@) is None,
        r matches Some(v) ==> snappy_raw(input@) == Some(v@),
{
    snap::raw::Decoder::new().decompress_vec(input).ok()
}

/// Why the records of a batch could not be decompressed.
#[derive(Clone, Copy, Debug, PartialEq, Eq, Structural)]
pub enum DecompressError {
    /// The batch uses a compression (the code given) that is not read here.
    Unsupported(i16),
    /// The bytes are not valid Snappy data.
    Snappy,
}

/// What decompressing bytes compressed with the code `compression` gives:
/// code 0 leaves them as they are, code 2 is Snappy; no other compression
/// is read.
pub open spec fn decompressed_bytes(compression: i16, input: Seq<u8>) -> Result<Seq<u8>, DecompressError> {
    if compression == 0 {
        Ok(input)
    } else if compression == 2 {
        match snappy_raw(input) {
            Some(d) => Ok(d),
            None => Err(DecompressError::Snappy),
        }
    } else {
        Err(DecompressError::Unsupported(compression))
    }
}

/// The records' bytes of a batch compressed with the code `compression`
/// (the low three bits of its attributes): code 0 leaves them as they are,
/// code 2 is Snappy; no other compression is read.
pub fn decompress(compression: i16, input: &[u8]) -> (r: Result<Vec<u8>, DecompressError>)
    ensures
        match decompressed_bytes(compression, input@) {
            Ok(d) => r matches Ok(v) && v@ == d,
            Err(e) => r == Err::<Vec<u8>, DecompressError>(e),
        },
{
    if compression == 0 {
        let mut out: Vec<u8> = Vec::new();
        put_bytes(&mut out, input);
        assert(out@ =~= input@);
        Ok(out)
    } else if compression == 2 {
        match snap_decompress(input) {
            Some(v) => Ok(v),
            None => Err(DecompressError::Snappy),
        }
    } else {
        Err(DecompressError::Unsupported(compression))
    }
}

/// The compression codes are the protocol's: code 0 keeps the bytes as
/// they are, code 2 is raw Snappy (an error where the bytes are not valid
/// Snappy data); codes 1 (gzip), 3 (LZ4), 4 (Zstandard) and any other are
/// not read.
pub proof fn lemma_compression_codes(input: Seq<u8>)
    ensures
        decompressed_bytes(0, input) == Ok::<Seq<u8>, DecompressError>(input),
        snappy_raw(input) matches Some(d) ==> decompressed_bytes(2, input) == Ok::<Seq<u8>, DecompressError>(d),
        snappy_raw(input) is None ==> decompressed_bytes(2, input) == Err::<Seq<u8>, DecompressError>(
            DecompressError::Snappy,
        ),
        forall|c: i16| c != 0 && c != 2 ==> #[trigger] decompressed_bytes(c, input) == Err::<
            Seq<u8>,
            DecompressError,
        >(DecompressError::Unsupported(c)),
{
}

} // verus!
