use crate::error::VectorIndexError;
use vstd::prelude::*;

verus! {

/// The dimensions that the distance kernel is built for.
pub const DIM_104: usize = 104;

pub const DIM_128: usize = 128;

pub const DIM_256: usize = 256;

/// Whether the distance kernel takes vectors of this dimension.
pub open spec fn supported_dimension(dimension: usize) -> bool {
    dimension == DIM_104 || dimension == DIM_128 || dimension == DIM_256
}

/// Whether the distance kernel takes vectors of this dimension.
pub fn is_supported_dimension(dimension: usize) -> (b: bool)
    ensures
        b == supported_dimension(dimension),
{
    dimension == DIM_104 || dimension == DIM_128 || dimension == DIM_256
}

/// Holds the length of a query against that of a stored vector.
pub fn check_dimension(query_len: usize, stored_len: usize) -> (r: Result<(), VectorIndexError>)
    ensures
        query_len == stored_len ==> r is Ok,
        query_len != stored_len ==> r == Err::<(), VectorIndexError>(
            VectorIndexError::InvalidDimension { expected: stored_len, actual: query_len },
        ),
{
    if query_len != stored_len {
        Err(VectorIndexError::InvalidDimension { expected: stored_len, actual: query_len })
    } else {
        Ok(())
    }
}

/// The 31 bits of a 32-bit pattern below its sign bit.
pub open spec fn magnitude(bits: u32) -> int {
    if bits >= 0x8000_0000 {
        bits - 0x8000_0000
    } else {
        bits as int
    }
}

/// Where a single-precision number stands among all of them, given its
/// bit pattern: a number that is not negative stands at its magnitude, a
/// negative one at the negated magnitude, so that both zeros stand at 0,
/// and everything that is not a number stands together above infinity.
pub open spec fn rank_of_bits(bits: u32) -> int {
    if magnitude(bits) > 0x7F80_0000 {
        0x8000_0000
    } else if bits >= 0x8000_0000 {
        -magnitude(bits)
    } else {
        magnitude(bits)
    }
}

/// The key of a distance, given the bit pattern of the distance: its rank,
/// moved up so that no key is negative. Keys are ordered as the distances
/// are, with everything that is not a number last.
pub fn distance_key_of_bits(bits: u32) -> (key: u32)
    ensures
        key == rank_of_bits(bits) + 0x7FFF_FFFF,
{
    let negative = bits >= 0x8000_0000;
    let size: u32 = if negative {
        bits - 0x8000_0000
    } else {
        bits
    };
    if size > 0x7F80_0000 {
        u32::MAX
    } else if negative {
        0x7FFF_FFFF - size
    } else {
        0x7FFF_FFFF + size
    }
}

/// Two keys are ordered as the ranks of their bit patterns are.
pub proof fn lemma_keys_follow_ranks(a: u32, b: u32)
    ensures
        rank_of_bits(a) + 0x7FFF_FFFF < rank_of_bits(b) + 0x7FFF_FFFF <==> rank_of_bits(a)
            < rank_of_bits(b),
        0 <= rank_of_bits(a) + 0x7FFF_FFFF <= u32::MAX,
{
}

} // verus!
