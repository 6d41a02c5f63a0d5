//! Counting samples into the bins of a fixed-width histogram.
use vstd::prelude::*;
use vstd::math::min;

verus! {

/// The bin that takes bin position `index`: positions past the end fall into the last bin.
pub open spec fn bin_of(index: usize, bin_count: usize) -> int {
    if index < bin_count - 1 {
        index as int
    } else {
        bin_count - 1
    }
}

/// How many of the positions fall into bin `k`.
pub open spec fn bin_tally(indices: Seq<usize>, bin_count: usize, k: int) -> nat
    decreases indices.len(),
{
    if indices.len() == 0 {
        0
    } else {
        bin_tally(indices.drop_last(), bin_count, k) + if bin_of(indices.last(), bin_count) == k {
            1nat
        } else {
            0nat
        }
    }
}

/// The sum of a sequence of counts.
pub open spec fn total(s: Seq<usize>) -> int
    decreases s.len(),
{
    if s.len() == 0 {
        0
    } else {
        total(s.drop_last()) + s.last()
    }
}

/// Adding one to an entry adds one to the total.
proof fn lemma_total_increment(s: Seq<usize>, j: int)
    requires
        0 <= j < s.len(),
        s[j] < usize::MAX,
    ensures
        total(s.update(j, (s[j] + 1) as usize)) == total(s) + 1,
    decreases s.len(),
{
    let t = s.update(j, (s[j] + 1) as usize);
    if j == s.len() - 1 {
        assert(t.drop_last() =~= s.drop_last());
    } else {
        assert(t.drop_last() =~= s.drop_last().update(j, (s[j] + 1) as usize));
        lemma_total_increment(s.drop_last(), j);
    }
}

/// The tally of bin `k` is the number of positions `p` with `min(p, bin_count - 1) == k`.
proof fn lemma_tally_counts_capped_positions(indices: Seq<usize>, bin_count: usize, k: int)
    requires
        bin_count >= 1,
    ensures
        bin_tally(indices, bin_count, k) == indices.filter(|p: usize| min(p as int, bin_count - 1) == k).len(),
    decreases indices.len(),
{
    reveal(Seq::filter);
    if indices.len() > 0 {
        lemma_tally_counts_capped_positions(indices.drop_last(), bin_count, k);
    }
}

/// Counts bin positions into `bin_count` bins; a position at or past the last bin
/// counts in the last bin. Every position is counted exactly once.
pub fn count_bins(indices: &Vec<usize>, bin_count: usize) -> (r: Vec<usize>)
    requires
        bin_count >= 1,
    ensures
        r@.len() == bin_count,
        forall|k: int| 0 <= k < bin_count ==> #[trigger] r@[k] == bin_tally(indices@, bin_count, k),
        total(r@) == indices@.len(),
        forall|k: int|
            0 <= k < bin_count ==> #[trigger] r@[k] == indices@.filter(
                |p: usize| min(p as int, bin_count - 1) == k,
            ).len(),
{
    let mut r: Vec<usize> = Vec::new();
    for k in 0..bin_count
        invariant
            r@.len() == k,
            forall|j: int| 0 <= j < k ==> r@[j] == 0,
            total(r@) == 0,
    {
        let ghost before = r@;
        r.push(0);
        proof {
            assert(r@.drop_last() =~= before);
        }
    }
    proof {
        assert forall|k: int| 0 <= k < bin_count implies #[trigger] r@[k] == bin_tally(
            indices@.take(0),
            bin_count,
            k,
        ) by {}
    }
    for i in 0..indices.len()
        invariant
            bin_count >= 1,
            r@.len() == bin_count,
            forall|k: int| 0 <= k < bin_count ==> #[trigger] r@[k] == bin_tally(
                indices@.take(i as int),
                bin_count,
                k,
            ),
            forall|k: int| 0 <= k < bin_count ==> #[trigger] r@[k] <= i,
            total(r@) == i,
    {
        let x = indices[i];
        let j = if x < bin_count - 1 {
            x
        } else {
            bin_count - 1
        };
        proof {
            assert(indices@.take(i + 1).drop_last() =~= indices@.take(i as int));
            lemma_total_increment(r@, j as int);
        }
        let c = r[j];
        r.set(j, c + 1);
    }
    proof {
        assert(indices@.take(indices@.len() as int) =~= indices@);
        assert forall|k: int| 0 <= k < bin_count implies #[trigger] r@[k] == indices@.filter(
            |p: usize| min(p as int, bin_count - 1) == k,
        ).len() by {
            lemma_tally_counts_capped_positions(indices@, bin_count, k);
        }
    }
    r
}

} // verus!
