//! The codec of message bodies on the wire.

use vstd::prelude::*;

verus! {

/// What `lz4_flex::decompress_size_prepended` makes of `input`: the
/// decompressed bytes, or `None` where it reports an error.
pub uninterp spec fn lz4_decompressed(input: Seq<u8>) -> Option<Seq<u8>>;

/// `lz4_flex::decompress_size_prepended` reads the first four bytes as the
/// size of the output and decompresses the rest as one LZ4 block.
#[verifier::external_body]
pub(crate) fn lz4_decompress(input: &[u8]) -> (output: Option<Vec<u8>>)
    ensures
        match output {
            Some(bytes) => lz4_decompressed(input@) == Some(bytes@),
            None => lz4_decompressed(input@) is None,
        },
{
    lz4_flex::decompress_size_prepended(input).ok()
}

} // verus!
