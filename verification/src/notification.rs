//! Notification batching: an ordered list of changed products is split into
//! fixed-size delivery chunks, one notifier call per chunk, with a fixed
//! delay between chunk deliveries. An empty list produces zero chunks, so
//! the notifier is never called for it.

use vstd::prelude::*;

use crate::model::Product;

verus! {

/// Number of products delivered per notifier call.
pub const CHUNK_SIZE: usize = 5;

/// Seconds to wait between two chunk deliveries.
pub const CHUNK_DELAY_SECS: u64 = 1;

/// Seconds to wait between two chunk deliveries.
pub fn chunk_delay_secs() -> (r: u64)
    ensures
        r == CHUNK_DELAY_SECS,
{
    CHUNK_DELAY_SECS
}

/// End of the chunk that starts at `start`.
pub open spec fn chunk_end(len: int, start: int) -> int {
    if start + 5 <= len {
        start + 5
    } else {
        len
    }
}

/// Split an ordered batch into delivery chunks: every chunk holds five
/// products, except a shorter final one; their concatenation is the batch.
/// Zero products give zero chunks.
pub fn chunk_batches(products: &Vec<Product>) -> (r: Vec<Vec<Product>>)
    ensures
        r@.len() == (products@.len() + 4) / 5,
        forall|i: int|
            0 <= i < r@.len() ==> #[trigger] r.deep_view()[i] == products.deep_view().subrange(
                5 * i,
                chunk_end(products@.len() as int, 5 * i),
            ),
{
    let ghost all = products.deep_view();
    let mut r: Vec<Vec<Product>> = Vec::new();
    let mut start: usize = 0;
    while start < products.len()
        invariant
            all == products.deep_view(),
            0 <= start <= products@.len(),
            start % 5 == 0 || start == products@.len(),
            r@.len() == (start + 4) / 5,
            forall|i: int|
                0 <= i < r@.len() ==> #[trigger] r.deep_view()[i] == all.subrange(
                    5 * i,
                    chunk_end(all.len() as int, 5 * i),
                ),
        decreases products@.len() - start,
    {
        let end = if start + CHUNK_SIZE <= products.len() {
            start + CHUNK_SIZE
        } else {
            products.len()
        };
        let mut chunk: Vec<Product> = Vec::new();
        let mut j: usize = start;
        proof {
            assert(chunk.deep_view() =~= all.subrange(start as int, start as int));
        }
        while j < end
            invariant
                all == products.deep_view(),
                start <= j <= end <= products@.len(),
                chunk.deep_view() == all.subrange(start as int, j as int),
            decreases end - j,
        {
            let ghost pre_chunk = chunk;
            let x = products[j].clone();
            let ghost gx = x;
            chunk.push(x);
            proof {
                crate::seqs::lemma_vec_push_deep_view(pre_chunk, chunk, gx);
                assert(chunk.deep_view() =~= all.subrange(start as int, j + 1));
            }
            j = j + 1;
        }
        let ghost pre_r = r;
        let ghost gchunk = chunk;
        r.push(chunk);
        proof {
            crate::seqs::lemma_vec_push_deep_view(pre_r, r, gchunk);
            assert(gchunk.deep_view() == all.subrange(
                5 * (r@.len() - 1),
                chunk_end(all.len() as int, 5 * (r@.len() - 1)),
            ));
        }
        start = end;
    }
    r
}

} // verus!
