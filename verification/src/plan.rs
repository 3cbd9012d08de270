use vstd::arithmetic::div_mod::{
    lemma_div_plus_one, lemma_div_pos_is_pos, lemma_fundamental_div_mod,
    lemma_mod_division_less_than_divisor,
};
use vstd::prelude::*;

use crate::error::ChunkError;

verus! {

/// Ceiling of `a / b`, for positive `b` and non-negative `a`.
pub open spec fn div_ceil(a: int, b: int) -> int {
    (a + b - 1) / b
}

/// The boundary plan derived from a file's size and the requested chunk
/// size: how many chunks, how large each is, and how large the last one is.
pub struct ChunkPlan {
    pub chunk_size_bytes: u64,
    pub chunk_count: u64,
    pub last_chunk_bytes: u64,
}

/// What a correct plan for a file of `file_size` bytes states: the count is
/// the ceiling of `file_size / chunk_size_bytes`, and the last chunk holds
/// exactly the remainder, which is positive and at most a full chunk.
pub open spec fn plan_matches(p: ChunkPlan, file_size: int) -> bool {
    &&& p.chunk_size_bytes > 0
    &&& p.chunk_count == div_ceil(file_size, p.chunk_size_bytes as int)
    &&& p.last_chunk_bytes == file_size - (p.chunk_count - 1) * p.chunk_size_bytes
    &&& 0 < p.last_chunk_bytes <= p.chunk_size_bytes
}

/// Validates a split request and derives its boundary plan.
///
/// The requested size arrives as a whole number of bytes (the caller has
/// already taken the floor of its fractional megabyte count); a request of
/// zero bytes or fewer is rejected, as is an empty file.
pub fn plan_chunks(file_size: u64, chunk_size_bytes: i64) -> (r: Result<ChunkPlan, ChunkError>)
    ensures
        chunk_size_bytes <= 0 ==> (r matches Err(ChunkError::InvalidInput(m))
            && m@ == "Chunk size must be greater than 0"@),
        chunk_size_bytes > 0 && file_size == 0 ==> (r matches Err(ChunkError::InvalidInput(m))
            && m@ == "Empty file"@),
        chunk_size_bytes > 0 && file_size > 0 ==> (r matches Ok(p)
            && p.chunk_size_bytes == chunk_size_bytes as u64
            && plan_matches(p, file_size as int)),
{
    if chunk_size_bytes <= 0 {
        return Err(ChunkError::InvalidInput("Chunk size must be greater than 0"));
    }
    if file_size == 0 {
        return Err(ChunkError::InvalidInput("Empty file"));
    }
    let cs: u64 = chunk_size_bytes as u64;
    proof {
        lemma_div_pos_is_pos(file_size - 1, cs as int);
        lemma_fundamental_div_mod(file_size - 1, cs as int);
        lemma_mod_division_less_than_divisor(file_size - 1, cs as int);
        assert((file_size - 1) / (cs as int) <= (cs as int) * ((file_size - 1) / (cs as int)))
            by (nonlinear_arith)
            requires cs >= 1 && (file_size - 1) / (cs as int) >= 0;
        lemma_div_plus_one(file_size - 1, cs as int);
    }
    let count: u64 = (file_size - 1) / cs + 1;
    let last: u64 = file_size - (count - 1) * cs;
    Ok(ChunkPlan { chunk_size_bytes: cs, chunk_count: count, last_chunk_bytes: last })
}

} // verus!
