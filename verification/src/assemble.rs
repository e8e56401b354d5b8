//! Assembly: write fetched chunks in range order and verify that the byte
//! count equals the declared length, all-or-nothing per file.

use vstd::prelude::*;
use crate::ranges::{ByteRange, is_range_plan, lemma_ranges_contiguous, lemma_ranges_cover,
    lemma_ranges_nonempty};

verus! {

/// Why an assembly failed.
#[derive(Clone, Copy, PartialEq, Eq, Structural, Debug)]
pub enum AssembleError {
    /// Some planned range produced no chunk.
    MissingChunk,
    /// The bytes on hand do not add up to the declared length.
    LengthMismatch,
}

/// Every planned range produced a chunk.
pub open spec fn all_present(results: Seq<Option<Vec<u8>>>) -> bool {
    forall|i: int| 0 <= i < results.len() ==> (#[trigger] results[i]) is Some
}

/// The byte sequences of the chunks, in range order.
pub open spec fn chunk_views(results: Seq<Option<Vec<u8>>>) -> Seq<Seq<u8>> {
    Seq::new(results.len(), |i: int| results[i].unwrap()@)
}

/// Concatenate the fetched chunks in range order; fail if any range
/// produced no chunk, or if the total byte count differs from the
/// declared length. On success the output is exactly the chunks'
/// bytes, in order, and exactly `declared_length` bytes long.
pub fn assemble_chunks(declared_length: usize, results: &Vec<Option<Vec<u8>>>) -> (r: Result<
    Vec<u8>,
    AssembleError,
>)
    ensures
        r matches Ok(out) ==> out@ == chunk_views(results@).flatten() && out@.len()
            == declared_length,
        r is Ok <==> all_present(results@) && chunk_views(results@).flatten().len()
            == declared_length,
        r == Err::<Vec<u8>, AssembleError>(AssembleError::MissingChunk) <==> !all_present(
            results@,
        ),
        r == Err::<Vec<u8>, AssembleError>(AssembleError::LengthMismatch) <==> all_present(
            results@,
        ) && chunk_views(results@).flatten().len() != declared_length,
{
    let mut out: Vec<u8> = Vec::new();
    let mut i: usize = 0;
    proof {
        assert(chunk_views(results@.subrange(0, 0)).flatten() =~= Seq::<u8>::empty());
    }
    while i < results.len()
        invariant
            i <= results@.len(),
            forall|j: int| 0 <= j < i ==> (#[trigger] results@[j]) is Some,
            out@ == chunk_views(results@.subrange(0, i as int)).flatten(),
        decreases results@.len() - i,
    {
        match &results[i] {
            None => {
                return Err(AssembleError::MissingChunk);
            },
            Some(chunk) => {
                let ghost pre = chunk_views(results@.subrange(0, i as int));
                let ghost out_pre = out@;
                let mut t: usize = 0;
                while t < chunk.len()
                    invariant
                        t <= chunk@.len(),
                        out@ == out_pre + chunk@.subrange(0, t as int),
                    decreases chunk@.len() - t,
                {
                    out.push(chunk[t]);
                    proof {
                        assert(out_pre + chunk@.subrange(0, (t + 1) as int) =~= (out_pre
                            + chunk@.subrange(0, t as int)).push(chunk@[t as int]));
                    }
                    t = t + 1;
                }
                proof {
                    assert(chunk@.subrange(0, chunk@.len() as int) =~= chunk@);
                    assert(chunk_views(results@.subrange(0, (i + 1) as int)) =~= pre.push(chunk@));
                    pre.lemma_flatten_push(chunk@);
                }
            },
        }
        i = i + 1;
    }
    proof {
        assert(results@.subrange(0, results@.len() as int) =~= results@);
    }
    if out.len() == declared_length {
        Ok(out)
    } else {
        Err(AssembleError::LengthMismatch)
    }
}

/// Judge a sequential, streamed transfer: the bytes counted while copying
/// must equal the declared length exactly.
pub fn verify_stream_length(declared_length: usize, written: usize) -> (r: Result<
    (),
    AssembleError,
>)
    ensures
        r is Ok <==> written == declared_length,
        r is Err ==> r == Err::<(), AssembleError>(AssembleError::LengthMismatch),
{
    if written == declared_length {
        Ok(())
    } else {
        Err(AssembleError::LengthMismatch)
    }
}

/// Chunks that are exactly the bytes of contiguous ranges of `body`,
/// starting at offset `k` and ending at `body`'s end, concatenate to the
/// suffix of `body` from `k`.
pub proof fn lemma_chunks_concat(body: Seq<u8>, r: Seq<ByteRange>, chunks: Seq<Seq<u8>>, k: int)
    requires
        r.len() == chunks.len(),
        0 <= k <= body.len(),
        r.len() == 0 ==> k == body.len(),
        r.len() > 0 ==> r[0].start == k,
        r.len() > 0 ==> r[r.len() - 1].end == body.len(),
        forall|i: int|
            0 <= i < r.len() ==> (#[trigger] r[i]).start <= r[i].end && r[i].end <= body.len(),
        forall|i: int| 0 <= i < r.len() - 1 ==> (#[trigger] r[i]).end == r[i + 1].start,
        forall|i: int|
            0 <= i < r.len() ==> #[trigger] chunks[i] == body.subrange(
                r[i].start as int,
                r[i].end as int,
            ),
    ensures
        chunks.flatten() == body.subrange(k, body.len() as int),
    decreases r.len(),
{
    if r.len() == 0 {
        assert(chunks.flatten() =~= body.subrange(k, body.len() as int));
    } else {
        let k2 = r[0].end as int;
        let r2 = r.drop_first();
        let chunks2 = chunks.drop_first();
        assert forall|i: int| 0 <= i < r2.len() implies (#[trigger] r2[i]).start <= r2[i].end
            && r2[i].end <= body.len() by {
            assert(r2[i] == r[i + 1]);
        }
        assert forall|i: int| 0 <= i < r2.len() - 1 implies (#[trigger] r2[i]).end == r2[i
            + 1].start by {
            assert(r2[i] == r[i + 1] && r2[i + 1] == r[i + 2]);
        }
        assert forall|i: int| 0 <= i < r2.len() implies #[trigger] chunks2[i] == body.subrange(
            r2[i].start as int,
            r2[i].end as int,
        ) by {
            assert(r2[i] == r[i + 1] && chunks2[i] == chunks[i + 1]);
        }
        if r2.len() > 0 {
            assert(r2[0] == r[1] && r2[r2.len() - 1] == r[r.len() - 1]);
            assert(r[0].end == r[1].start);
        }
        lemma_chunks_concat(body, r2, chunks2, k2);
        assert(chunks.flatten() == chunks.first() + chunks.drop_first().flatten());
        assert(chunks[0] == body.subrange(k, k2));
        assert(body.subrange(k, k2) + body.subrange(k2, body.len() as int) =~= body.subrange(
            k,
            body.len() as int,
        ));
    }
}

/// The ordering law of a successful concurrent download: when every planned
/// range's fetch produced exactly that range's bytes of `body`, the results
/// are complete and assemble — in ascending range order, whatever order the
/// fetches completed in — to `body` itself, the very bytes a single
/// sequential full-body fetch would have produced. With the assembler's
/// contract this pins the output: `assemble_chunks` on such results returns
/// `Ok` of `body` exactly when `body` has the declared length.
pub proof fn lemma_concurrent_equals_sequential(
    body: Seq<u8>,
    chunk_size: int,
    r: Seq<ByteRange>,
    results: Seq<Option<Vec<u8>>>,
)
    requires
        chunk_size > 0,
        is_range_plan(r, body.len() as int, chunk_size),
        results.len() == r.len(),
        forall|i: int|
            0 <= i < results.len() ==> {
                &&& (#[trigger] results[i]) matches Some(c)
                &&& c@ == body.subrange(r[i].start as int, r[i].end as int)
            },
    ensures
        all_present(results),
        chunk_views(results).flatten() == body,
{
    let chunks = chunk_views(results);
    assert forall|i: int| 0 <= i < r.len() implies #[trigger] chunks[i] == body.subrange(
        r[i].start as int,
        r[i].end as int,
    ) by {
        assert(results[i] is Some);
    }
    lemma_plan_assembles_body(body, chunk_size, r, chunks);
}

/// Chunks that hold exactly the bytes of the planned ranges of `body`,
/// assembled in ascending range order, yield `body` itself.
pub proof fn lemma_plan_assembles_body(
    body: Seq<u8>,
    chunk_size: int,
    r: Seq<ByteRange>,
    chunks: Seq<Seq<u8>>,
)
    requires
        chunk_size > 0,
        is_range_plan(r, body.len() as int, chunk_size),
        chunks.len() == r.len(),
        forall|i: int|
            0 <= i < r.len() ==> #[trigger] chunks[i] == body.subrange(
                r[i].start as int,
                r[i].end as int,
            ),
    ensures
        chunks.flatten() == body,
{
    lemma_ranges_contiguous(r, body.len() as int, chunk_size);
    assert forall|i: int| 0 <= i < r.len() implies (#[trigger] r[i]).start <= r[i].end && r[i].end
        <= body.len() by {
        lemma_ranges_nonempty(r, body.len() as int, chunk_size, i);
    }
    if r.len() == 0 {
        if body.len() > 0 {
            lemma_ranges_cover(r, body.len() as int, chunk_size, 0);
        }
        assert(chunks.flatten() =~= body);
    } else {
        lemma_chunks_concat(body, r, chunks, 0);
        assert(body.subrange(0, body.len() as int) =~= body);
    }
}

} // verus!
