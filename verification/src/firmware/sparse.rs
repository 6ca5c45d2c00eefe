//! Android sparse image detection.

use crate::bytes::{read_u32, spec_u32_le};
use vstd::prelude::*;

verus! {

/// Size of the Android sparse file header.
pub const SPARSE_HEADER_SIZE: usize = 28;
/// Magic number at the start of an Android sparse image.
pub const SPARSE_HEADER_MAGIC: u32 = 0xED26_FF3A;

/// The image holds a sparse header: at least 28 bytes, starting with the
/// little-endian sparse magic.
pub open spec fn spec_is_sparse_image(img: Seq<u8>) -> bool {
    img.len() >= SPARSE_HEADER_SIZE && spec_u32_le(img, 0) == SPARSE_HEADER_MAGIC
}

/// Whether `img` is an Android sparse image.
pub fn is_sparse_image(img: &[u8]) -> (r: bool)
    ensures
        r == spec_is_sparse_image(img@),
{
    img.len() >= SPARSE_HEADER_SIZE && read_u32(img, 0) == SPARSE_HEADER_MAGIC
}

} // verus!
