//! SplitMix64: a small, reproducible 64-bit pseudo-random generator.
use vstd::prelude::*;
use vstd::arithmetic::div_mod::{
    lemma_add_mod_noop, lemma_mul_mod_noop_left, lemma_mul_mod_noop_right, lemma_small_mod,
};
use vstd::arithmetic::mul::lemma_mul_is_associative;

verus! {

/// Golden-ratio increment added to the state on every step.
pub const GOLDEN_GAMMA: u64 = 0x9e3779b97f4a7c15;

/// First multiplier of the output mixer.
pub const MIX_MUL_1: u64 = 0xbf58476d1ce4e5b9;

/// Second multiplier of the output mixer.
pub const MIX_MUL_2: u64 = 0x94d049bb133111eb;

/// Multiplication modulo 2^64.
pub open spec fn mul_mod64(x: u64, y: u64) -> u64 {
    ((x as nat * y as nat) % 0x1_0000_0000_0000_0000nat) as u64
}

/// The state that follows `state`: one golden-gamma step, modulo 2^64.
pub open spec fn advance(state: u64) -> u64 {
    ((state as nat + GOLDEN_GAMMA as nat) % 0x1_0000_0000_0000_0000nat) as u64
}

/// The SplitMix64 output function applied to an advanced state.
pub open spec fn mix(z: u64) -> u64 {
    let a = mul_mod64(z ^ (z >> 30u64), MIX_MUL_1);
    let b = mul_mod64(a ^ (a >> 27u64), MIX_MUL_2);
    b ^ (b >> 31u64)
}

/// The state of a generator seeded with `seed` after `k` draws:
/// `seed + k * GOLDEN_GAMMA` modulo 2^64.
pub open spec fn state_after(seed: u64, k: nat) -> u64 {
    ((seed as int + k * GOLDEN_GAMMA as int) % 0x1_0000_0000_0000_0000int) as u64
}

/// Output number `n` (counting from 0) of a generator seeded with `seed`.
pub open spec fn output_at(seed: u64, n: nat) -> u64 {
    mix(state_after(seed, n + 1))
}

/// A fresh generator is in its seed state, and each draw moves it from its state
/// after `k` draws to its state after `k + 1` draws, yielding output number `k`.
pub proof fn lemma_stream_step(seed: u64, k: nat)
    ensures
        state_after(seed, 0) == seed,
        advance(state_after(seed, k)) == state_after(seed, k + 1),
        mix(advance(state_after(seed, k))) == output_at(seed, k),
{
    let m = 0x1_0000_0000_0000_0000int;
    let g = GOLDEN_GAMMA as int;
    let a = seed as int + k * g;
    lemma_small_mod(seed as nat, m as nat);
    lemma_small_mod(g as nat, m as nat);
    lemma_add_mod_noop(a, g, m);
    assert((k + 1) * g == k * g + g) by (nonlinear_arith);
    assert(a + g == seed as int + (k + 1) * g);
}

/// SplitMix64 generator: the whole state is one 64-bit word.
#[derive(Debug)]
pub struct SplitMix64 {
    state: u64,
}

impl View for SplitMix64 {
    type V = u64;

    closed spec fn view(&self) -> u64 {
        self.state
    }
}

impl Clone for SplitMix64 {
    /// A generator in the same state, which therefore produces the same stream.
    fn clone(&self) -> (r: Self)
        ensures
            r@ == self@,
    {
        SplitMix64 { state: self.state }
    }
}

impl SplitMix64 {
    /// A generator whose state is the seed itself.
    pub fn new(seed: u64) -> (r: Self)
        ensures
            r@ == seed,
    {
        Self { state: seed }
    }

    /// Advances the state by the golden gamma (wrapping) and returns the mixed state.
    pub fn next_u64(&mut self) -> (r: u64)
        ensures
            final(self)@ == advance(old(self)@),
            r == mix(final(self)@),
            forall|seed: u64, k: nat|
                #[trigger] state_after(seed, k) == old(self)@ ==> final(self)@ == state_after(
                    seed,
                    k + 1,
                ) && r == output_at(seed, k),
    {
        proof {
            assert forall|seed: u64, k: nat| #[trigger]
                state_after(seed, k) == old(self)@ implies advance(old(self)@) == state_after(
                seed,
                k + 1,
            ) by {
                lemma_stream_step(seed, k);
            }
        }
        self.state = self.state.wrapping_add(GOLDEN_GAMMA);
        let mut z = self.state;
        z = (z ^ (z >> 30)).wrapping_mul(MIX_MUL_1);
        z = (z ^ (z >> 27)).wrapping_mul(MIX_MUL_2);
        z ^ (z >> 31)
    }

    /// The top 53 bits of the next output: the numerator of a uniform fraction
    /// in [0, 1) with denominator 2^53.
    pub fn next_fraction_bits(&mut self) -> (r: u64)
        ensures
            final(self)@ == advance(old(self)@),
            r == mix(final(self)@) >> 11u64,
            r < 0x20_0000_0000_0000,
    {
        let x = self.next_u64();
        assert(x >> 11u64 < 0x20_0000_0000_0000u64) by (bit_vector);
        x >> 11
    }
}

/// Multiplying by `c` and then by its inverse modulo 2^64 gives back `z`.
proof fn lemma_mul_unit_cancel(z: u64, c: u64, c_inv: u64)
    requires
        (c as int * c_inv as int) % 0x1_0000_0000_0000_0000int == 1,
    ensures
        (mul_mod64(z, c) as int * c_inv as int) % 0x1_0000_0000_0000_0000int == z,
{
    let m = 0x1_0000_0000_0000_0000int;
    assert(mul_mod64(z, c) as int == (z as int * c as int) % m);
    lemma_mul_mod_noop_left(z as int * c as int, c_inv as int, m);
    lemma_mul_is_associative(z as int, c as int, c_inv as int);
    lemma_mul_mod_noop_right(z as int, c as int * c_inv as int, m);
    lemma_small_mod(z as nat, m as nat);
}

/// Multiplying by a unit modulo 2^64 loses nothing.
proof fn lemma_mul_unit_injective(x: u64, y: u64, c: u64, c_inv: u64)
    requires
        (c as int * c_inv as int) % 0x1_0000_0000_0000_0000int == 1,
        mul_mod64(x, c) == mul_mod64(y, c),
    ensures
        x == y,
{
    lemma_mul_unit_cancel(x, c, c_inv);
    lemma_mul_unit_cancel(y, c, c_inv);
}

/// Inverse of [`MIX_MUL_1`] modulo 2^64.
pub const MIX_MUL_1_INVERSE: u64 = 0x96de1b173f119089;

/// Inverse of [`MIX_MUL_2`] modulo 2^64.
pub const MIX_MUL_2_INVERSE: u64 = 0x319642b2d24d8ec3;

/// The output mixer loses no information: distinct words mix to distinct words.
pub proof fn lemma_mix_injective(x: u64, y: u64)
    requires
        mix(x) == mix(y),
    ensures
        x == y,
{
    assert((MIX_MUL_1 as int * MIX_MUL_1_INVERSE as int) % 0x1_0000_0000_0000_0000int == 1);
    assert((MIX_MUL_2 as int * MIX_MUL_2_INVERSE as int) % 0x1_0000_0000_0000_0000int == 1);
    let ax = mul_mod64(x ^ (x >> 30u64), MIX_MUL_1);
    let ay = mul_mod64(y ^ (y >> 30u64), MIX_MUL_1);
    let bx = mul_mod64(ax ^ (ax >> 27u64), MIX_MUL_2);
    let by_ = mul_mod64(ay ^ (ay >> 27u64), MIX_MUL_2);
    assert(bx ^ (bx >> 31u64) == by_ ^ (by_ >> 31u64) ==> bx == by_) by (bit_vector);
    lemma_mul_unit_injective(ax ^ (ax >> 27u64), ay ^ (ay >> 27u64), MIX_MUL_2, MIX_MUL_2_INVERSE);
    assert(ax ^ (ax >> 27u64) == ay ^ (ay >> 27u64) ==> ax == ay) by (bit_vector);
    lemma_mul_unit_injective(x ^ (x >> 30u64), y ^ (y >> 30u64), MIX_MUL_1, MIX_MUL_1_INVERSE);
    assert(x ^ (x >> 30u64) == y ^ (y >> 30u64) ==> x == y) by (bit_vector);
}

/// Generators in different states produce different next outputs: both the step and
/// the output mixer are bijections of 64-bit words.
pub proof fn lemma_distinct_states_distinct_outputs(s: u64, t: u64)
    requires
        s != t,
    ensures
        advance(s) != advance(t),
        mix(advance(s)) != mix(advance(t)),
{
    if mix(advance(s)) == mix(advance(t)) {
        lemma_mix_injective(advance(s), advance(t));
    }
}

/// Output `n` of a generator seeded with `s` equals output `m` of one seeded with `t`
/// exactly when the first is in the same state after `n` draws as the second after
/// `m` draws, i.e. `s + n * GOLDEN_GAMMA == t + m * GOLDEN_GAMMA` modulo 2^64.
pub proof fn lemma_outputs_equal_iff_states_equal(s: u64, n: nat, t: u64, m: nat)
    ensures
        output_at(s, n) == output_at(t, m) <==> state_after(s, n) == state_after(t, m),
{
    lemma_stream_step(s, n);
    lemma_stream_step(t, m);
    if state_after(s, n) != state_after(t, m) {
        lemma_distinct_states_distinct_outputs(state_after(s, n), state_after(t, m));
    }
}

} // verus!
