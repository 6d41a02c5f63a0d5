//! Integer properties of an ideal unsigned N-bit converter.
use vstd::prelude::*;
use vstd::arithmetic::power2::pow2;
use vstd::bits::{lemma_u32_pow2_no_overflow, lemma_u32_shl_is_mul};
use crate::config::{MAX_BITS, MIN_BITS};

verus! {

/// A resolution the simulator supports: 2 to 24 bits.
pub open spec fn bits_supported(bits: u8) -> bool {
    MIN_BITS <= bits <= MAX_BITS
}

/// The largest code of an unsigned `bits`-bit converter, 2^bits - 1, when the
/// resolution is supported.
pub fn max_code_for(bits: u8) -> (r: Option<u32>)
    ensures
        match r {
            Some(m) => bits_supported(bits) && m == pow2(bits as nat) - 1,
            None => !bits_supported(bits),
        },
{
    if bits < MIN_BITS || bits > MAX_BITS {
        return None;
    }
    let shift = bits as u32;
    proof {
        lemma_u32_pow2_no_overflow(shift as nat);
        lemma_u32_shl_is_mul(1, shift);
    }
    Some((1u32 << shift) - 1)
}

} // verus!
