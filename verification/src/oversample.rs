//! Block averaging: which reference/measurement pairs can be decimated.
use vstd::prelude::*;
use vstd::arithmetic::div_mod::lemma_fundamental_div_mod;
use vstd::arithmetic::mul::lemma_mul_is_commutative;

verus! {

/// Reference and measured series can be averaged in blocks of `factor` samples when
/// they have the same length, the factor is positive and divides that length.
pub open spec fn blocks_of(reference_len: usize, measured_len: usize, factor: usize) -> Option<
    usize,
> {
    if reference_len == measured_len && factor > 0 && reference_len % factor == 0 {
        Some(reference_len / factor)
    } else {
        None
    }
}

/// The number of averaged output samples, or `None` when the series cannot be
/// split into whole blocks of `factor` matching samples.
pub fn block_count(reference_len: usize, measured_len: usize, factor: usize) -> (r: Option<usize>)
    ensures
        r == blocks_of(reference_len, measured_len, factor),
        r matches Some(n) ==> reference_len == measured_len && factor > 0 && n * factor
            == reference_len,
        r is None ==> reference_len != measured_len || factor == 0 || reference_len % factor != 0,
{
    if reference_len != measured_len || factor == 0 || reference_len % factor != 0 {
        None
    } else {
        proof {
            lemma_fundamental_div_mod(reference_len as int, factor as int);
            lemma_mul_is_commutative(reference_len as int / factor as int, factor as int);
        }
        Some(reference_len / factor)
    }
}

} // verus!
