use vstd::arithmetic::div_mod::{lemma_basic_div, lemma_div_plus_one};
use vstd::prelude::*;
use vstd::slice::{slice_subrange, slice_to_vec};

use crate::digest::{sha256, sha256_of};
use crate::error::ChunkError;
use crate::plan::{div_ceil, plan_matches, ChunkPlan};

verus! {

/// The chunks that a file of bytes `data` splits into at a chunk size of
/// `cs` bytes: full chunks of exactly `cs` bytes, in order, with whatever
/// remains as the final, shorter chunk.
pub open spec fn chunks_of(data: Seq<u8>, cs: int) -> Seq<Seq<u8>>
    decreases data.len(),
{
    if cs <= 0 || data.len() == 0 {
        Seq::empty()
    } else if data.len() <= cs {
        seq![data]
    } else {
        seq![data.subrange(0, cs)] + chunks_of(data.subrange(cs, data.len() as int), cs)
    }
}

/// The bytes of each chunk in a list of chunk buffers.
pub open spec fn chunk_views(chunks: Seq<Vec<u8>>) -> Seq<Seq<u8>> {
    Seq::new(chunks.len(), |i: int| chunks[i]@)
}

/// Whether every entry of a chunk listing is actually present.
pub open spec fn all_present(chunks: Seq<Option<Vec<u8>>>) -> bool {
    forall|i: int| 0 <= i < chunks.len() ==> chunks[i] is Some
}

/// The bytes of each present chunk; a missing chunk contributes nothing.
pub open spec fn present_views(chunks: Seq<Option<Vec<u8>>>) -> Seq<Seq<u8>> {
    Seq::new(
        chunks.len(),
        |i: int|
            match chunks[i] {
                Some(c) => c@,
                None => Seq::empty(),
            },
    )
}

/// Concatenating the chunks of a split, in order, reproduces the split
/// bytes exactly.
pub proof fn lemma_round_trip(data: Seq<u8>, cs: int)
    requires
        cs > 0,
    ensures
        chunks_of(data, cs).flatten() == data,
    decreases data.len(),
{
    if data.len() == 0 {
        assert(chunks_of(data, cs).flatten() =~= data);
    } else if data.len() <= cs {
        let cks = chunks_of(data, cs);
        assert(cks.drop_first() =~= Seq::<Seq<u8>>::empty());
        assert(Seq::<Seq<u8>>::empty().flatten() =~= Seq::<u8>::empty());
        assert(cks.flatten() =~= data);
    } else {
        let rest = data.subrange(cs, data.len() as int);
        lemma_round_trip(rest, cs);
        let cks = chunks_of(data, cs);
        assert(cks.first() == data.subrange(0, cs));
        assert(cks.drop_first() =~= chunks_of(rest, cs));
        assert(cks.flatten() =~= data);
    }
}

/// A split at chunk size `cs` produces exactly `ceil(len / cs)` chunks.
pub proof fn lemma_chunk_count(data: Seq<u8>, cs: int)
    requires
        cs > 0,
        data.len() > 0,
    ensures
        chunks_of(data, cs).len() == div_ceil(data.len() as int, cs),
    decreases data.len(),
{
    if data.len() <= cs {
        lemma_basic_div(data.len() - 1, cs);
        lemma_div_plus_one(data.len() - 1, cs);
    } else {
        let rest = data.subrange(cs, data.len() as int);
        lemma_chunk_count(rest, cs);
        lemma_div_plus_one(data.len() - 1, cs);
    }
}

/// Every chunk of a split except the last holds exactly `cs` bytes; the
/// last holds the remainder, which is never empty and never more than a
/// full chunk; and the chunk lengths sum to the length of the input.
pub proof fn lemma_chunk_sizing(data: Seq<u8>, cs: int)
    requires
        cs > 0,
        data.len() > 0,
    ensures
        chunks_of(data, cs).len() >= 1,
        forall|i: int|
            0 <= i < chunks_of(data, cs).len() - 1 ==> #[trigger] chunks_of(data, cs)[i].len()
                == cs,
        chunks_of(data, cs).last().len() == data.len() - (chunks_of(data, cs).len() - 1) * cs,
        0 < chunks_of(data, cs).last().len() <= cs,
        chunks_of(data, cs).flatten().len() == data.len(),
    decreases data.len(),
{
    lemma_round_trip(data, cs);
    if data.len() <= cs {
        assert(chunks_of(data, cs).last() == data);
    } else {
        let rest = data.subrange(cs, data.len() as int);
        lemma_chunk_sizing(rest, cs);
        let cks = chunks_of(data, cs);
        let tail = chunks_of(rest, cs);
        assert(cks.last() == tail.last());
        let t = tail.len() as int;
        assert(t * cs == (t - 1) * cs + cs) by (nonlinear_arith);
        assert(forall|i: int| 1 <= i < cks.len() - 1 ==> #[trigger] cks[i] == tail[i - 1]);
    }
}

/// A split delivers exactly what its boundary plan announced: as many
/// chunks as the plan's count, and a final chunk of the plan's remainder.
pub proof fn lemma_split_follows_plan(data: Seq<u8>, p: ChunkPlan)
    requires
        data.len() > 0,
        plan_matches(p, data.len() as int),
    ensures
        chunks_of(data, p.chunk_size_bytes as int).len() == p.chunk_count,
        chunks_of(data, p.chunk_size_bytes as int).last().len() == p.last_chunk_bytes,
{
    lemma_chunk_count(data, p.chunk_size_bytes as int);
    lemma_chunk_sizing(data, p.chunk_size_bytes as int);
}

/// A split followed by an unaltered validation succeeds: if a stored chunk
/// listing holds, present and in order, exactly the chunks of a split of
/// `data`, then the digest the validator computes over the listing equals
/// the digest of `data` itself.
pub proof fn lemma_validate_after_split(data: Seq<u8>, cs: int, stored: Seq<Option<Vec<u8>>>)
    requires
        cs > 0,
        data.len() > 0,
        stored.len() == chunks_of(data, cs).len(),
        forall|i: int|
            0 <= i < stored.len() ==> ((#[trigger] stored[i]) matches Some(c) && c@ == chunks_of(
                data,
                cs,
            )[i]),
    ensures
        stored.len() > 0,
        all_present(stored),
        sha256_of(present_views(stored).flatten()) == sha256_of(data),
{
    lemma_chunk_sizing(data, cs);
    assert(present_views(stored) =~= chunks_of(data, cs));
    lemma_round_trip(data, cs);
}

/// Appends the bytes of `src` to `dst`.
fn append_bytes(dst: &mut Vec<u8>, src: &Vec<u8>)
    ensures
        final(dst)@ == old(dst)@ + src@,
{
    let mut i: usize = 0;
    while i < src.len()
        invariant
            i <= src@.len(),
            dst@ == old(dst)@ + src@.take(i as int),
        decreases src@.len() - i,
    {
        let b: u8 = src[i];
        dst.push(b);
        proof {
            assert(old(dst)@ + src@.take(i as int) + seq![src@[i as int]] =~= old(dst)@
                + src@.take(i as int + 1));
        }
        i = i + 1;
    }
    proof {
        assert(old(dst)@ + src@.take(src@.len() as int) =~= old(dst)@ + src@);
    }
}

/// Whether two byte buffers hold the same bytes.
fn bytes_equal(a: &Vec<u8>, b: &Vec<u8>) -> (r: bool)
    ensures
        r == (a@ == b@),
{
    if a.len() != b.len() {
        return false;
    }
    let mut i: usize = 0;
    while i < a.len()
        invariant
            a@.len() == b@.len(),
            i <= a@.len(),
            forall|j: int| 0 <= j < i ==> a@[j] == b@[j],
        decreases a@.len() - i,
    {
        if a[i] != b[i] {
            return false;
        }
        i = i + 1;
    }
    proof {
        assert(a@ =~= b@);
    }
    true
}

/// Splits files into chunks and checks that the chunks reassemble them.
pub struct Chunker;

impl Chunker {
    /// Partitions a file's bytes into chunks of `chunk_size_bytes` bytes
    /// each, the last chunk holding whatever remains.
    ///
    /// The requested size arrives as a whole number of bytes, the floor of
    /// the requested megabyte count; a request of zero bytes or fewer is
    /// rejected, as is an empty file.
    pub fn split_file(data: &Vec<u8>, chunk_size_bytes: i64) -> (r: Result<
        Vec<Vec<u8>>,
        ChunkError,
    >)
        ensures
            chunk_size_bytes <= 0 ==> (r matches Err(ChunkError::InvalidInput(m)) && m@
                == "Chunk size must be greater than 0"@),
            chunk_size_bytes > 0 && data@.len() == 0 ==> (r matches Err(
                ChunkError::InvalidInput(m),
            ) && m@ == "Empty file"@),
            chunk_size_bytes > 0 && data@.len() > 0 ==> (r matches Ok(chunks) && chunk_views(
                chunks@,
            ) == chunks_of(data@, chunk_size_bytes as int)),
    {
        if chunk_size_bytes <= 0 {
            return Err(ChunkError::InvalidInput("Chunk size must be greater than 0"));
        }
        if data.len() == 0 {
            return Err(ChunkError::InvalidInput("Empty file"));
        }
        let ghost csi: int = chunk_size_bytes as int;
        let mut chunks: Vec<Vec<u8>> = Vec::new();
        let mut pos: usize = 0;
        proof {
            assert(data@.subrange(0, data@.len() as int) =~= data@);
            assert(chunk_views(chunks@) =~= Seq::<Seq<u8>>::empty());
            assert(chunk_views(chunks@) + chunks_of(data@, csi) =~= chunks_of(data@, csi));
        }
        while pos < data.len()
            invariant
                0 < chunk_size_bytes,
                csi == chunk_size_bytes as int,
                pos <= data@.len(),
                chunk_views(chunks@) + chunks_of(
                    data@.subrange(pos as int, data@.len() as int),
                    csi,
                ) == chunks_of(data@, csi),
            decreases data@.len() - pos,
        {
            let remaining: usize = data.len() - pos;
            let step: usize = if (chunk_size_bytes as u64) <= (remaining as u64) {
                chunk_size_bytes as usize
            } else {
                remaining
            };
            let end: usize = pos + step;
            let piece: Vec<u8> = slice_to_vec(slice_subrange(data.as_slice(), pos, end));
            proof {
                let rem = data@.subrange(pos as int, data@.len() as int);
                let pushed = chunk_views(chunks@).push(piece@);
                assert(chunk_views(chunks@.push(piece)) =~= pushed);
                if rem.len() <= csi {
                    assert(piece@ =~= rem);
                    assert(chunks_of(rem, csi) == seq![rem]);
                    assert(data@.subrange(end as int, data@.len() as int) =~= Seq::<u8>::empty());
                    assert(pushed + chunks_of(Seq::<u8>::empty(), csi) =~= chunk_views(chunks@)
                        + chunks_of(rem, csi));
                } else {
                    let rest = data@.subrange(end as int, data@.len() as int);
                    assert(piece@ =~= rem.subrange(0, csi));
                    assert(rest =~= rem.subrange(csi, rem.len() as int));
                    assert(chunks_of(rem, csi) == seq![rem.subrange(0, csi)] + chunks_of(
                        rem.subrange(csi, rem.len() as int),
                        csi,
                    ));
                    assert(pushed + chunks_of(rest, csi) =~= chunk_views(chunks@) + chunks_of(
                        rem,
                        csi,
                    ));
                }
            }
            chunks.push(piece);
            pos = end;
        }
        proof {
            assert(data@.subrange(pos as int, data@.len() as int) =~= Seq::<u8>::empty());
            assert(chunk_views(chunks@) + chunks_of(Seq::<u8>::empty(), csi) =~= chunk_views(
                chunks@,
            ));
        }
        Ok(chunks)
    }

    /// Checks that the chunks in a stored listing, concatenated in the
    /// caller-supplied order, carry the same digest as the original bytes.
    ///
    /// An empty listing and a missing chunk are rejected before any
    /// hashing; a digest mismatch is an answer of `false`, not an error.
    pub fn validate(original: &Vec<u8>, chunks: &Vec<Option<Vec<u8>>>) -> (r: Result<
        bool,
        ChunkError,
    >)
        ensures
            chunks@.len() == 0 ==> (r matches Err(ChunkError::InvalidInput(m)) && m@
                == "No chunks provided for validation"@),
            chunks@.len() > 0 && !all_present(chunks@) ==> (r matches Err(
                ChunkError::InvalidInput(m),
            ) && m@ == "Missing chunk file"@),
            chunks@.len() > 0 && all_present(chunks@) ==> (r matches Ok(b) && b == (sha256_of(
                original@,
            ) == sha256_of(present_views(chunks@).flatten()))),
    {
        if chunks.len() == 0 {
            return Err(ChunkError::InvalidInput("No chunks provided for validation"));
        }
        let mut i: usize = 0;
        while i < chunks.len()
            invariant
                i <= chunks@.len(),
                forall|j: int| 0 <= j < i ==> chunks@[j] is Some,
            decreases chunks@.len() - i,
        {
            match &chunks[i] {
                Option::Some(_) => {},
                Option::None => {
                    return Err(ChunkError::InvalidInput("Missing chunk file"));
                },
            }
            i = i + 1;
        }
        let ghost pv = present_views(chunks@);
        let mut joined: Vec<u8> = Vec::new();
        let mut k: usize = 0;
        while k < chunks.len()
            invariant
                all_present(chunks@),
                pv == present_views(chunks@),
                k <= chunks@.len(),
                joined@ == pv.take(k as int).flatten_alt(),
            decreases chunks@.len() - k,
        {
            match &chunks[k] {
                Option::Some(c) => {
                    append_bytes(&mut joined, c);
                    proof {
                        let upto = pv.take(k as int + 1);
                        assert(upto.drop_last() =~= pv.take(k as int));
                        assert(upto.last() == c@);
                    }
                },
                Option::None => {
                    proof {
                        assert(chunks@[k as int] is Some);
                        assert(false);
                    }
                },
            }
            k = k + 1;
        }
        proof {
            assert(pv.take(pv.len() as int) =~= pv);
            pv.lemma_flatten_and_flatten_alt_are_equivalent();
        }
        let original_digest = sha256(original.as_slice());
        let chunks_digest = sha256(joined.as_slice());
        Ok(bytes_equal(&original_digest, &chunks_digest))
    }
}

} // verus!
