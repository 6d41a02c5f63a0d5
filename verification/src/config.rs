//! Experiment settings: noise kinds and the integer part of configuration validation.
use vstd::prelude::*;
use crate::text::{decimal_text, joined, push_decimal};
use vstd::arithmetic::div_mod::lemma_small_mod;
use vstd::arithmetic::power2::{lemma2_to64, lemma_pow2_pos, lemma_pow2_unfold, pow2};

verus! {

/// Kind of analog noise added before quantization.
#[derive(Clone, Copy, Debug, PartialEq, Eq, Structural)]
pub enum NoiseKind {
    /// No noise: the input is quantized as it is.
    Off,
    Uniform,
    Gaussian,
}

/// Shape of the reference signal; its voltages are floating-point options.
#[derive(Clone, Copy, Debug, PartialEq, Eq, Structural)]
pub enum SignalShape {
    Constant,
    Ramp,
}

/// The integer and text settings of an experiment, as given on the command line.
#[derive(Debug, Clone)]
pub struct Settings {
    pub bits: u8,
    pub sample_count: usize,
    pub seed: u64,
    pub signal: SignalShape,
    pub noise: NoiseKind,
    pub oversampling: Vec<usize>,
    pub histogram_bins: usize,
    pub output_dir: String,
}

/// Abstract value of [`Settings`].
pub struct SettingsModel {
    pub bits: u8,
    pub sample_count: usize,
    pub seed: u64,
    pub signal: SignalShape,
    pub noise: NoiseKind,
    pub oversampling: Seq<usize>,
    pub histogram_bins: usize,
    pub output_dir: Seq<char>,
}

impl View for Settings {
    type V = SettingsModel;

    open spec fn view(&self) -> SettingsModel {
        SettingsModel {
            bits: self.bits,
            sample_count: self.sample_count,
            seed: self.seed,
            signal: self.signal,
            noise: self.noise,
            oversampling: self.oversampling@,
            histogram_bins: self.histogram_bins,
            output_dir: self.output_dir@,
        }
    }
}

/// The settings used where the command line says nothing.
pub open spec fn default_settings() -> SettingsModel {
    SettingsModel {
        bits: 12,
        sample_count: 1048576,
        seed: 42,
        signal: SignalShape::Constant,
        noise: NoiseKind::Gaussian,
        oversampling: seq![1usize, 4, 16, 64, 256],
        histogram_bins: 80,
        output_dir: "results"@,
    }
}

impl Settings {
    /// The default settings: 12 bits, 1048576 samples, seed 42, a constant
    /// signal, Gaussian noise, ratios 1, 4, 16, 64, 256, 80 histogram bins and
    /// the output directory `results`.
    pub fn defaults() -> (r: Settings)
        ensures
            r@ == default_settings(),
    {
        let mut oversampling: Vec<usize> = Vec::new();
        oversampling.push(1);
        oversampling.push(4);
        oversampling.push(16);
        oversampling.push(64);
        oversampling.push(256);
        let r = Settings {
            bits: 12,
            sample_count: 1048576,
            seed: 42,
            signal: SignalShape::Constant,
            noise: NoiseKind::Gaussian,
            oversampling,
            histogram_bins: 80,
            output_dir: String::from_str("results"),
        };
        assert(r@.oversampling =~= default_settings().oversampling);
        r
    }
}

/// Smallest accepted ADC resolution in bits.
pub const MIN_BITS: u8 = 2;

/// Largest accepted ADC resolution in bits.
pub const MAX_BITS: u8 = 24;

/// Smallest accepted number of histogram bins.
pub const MIN_HISTOGRAM_BINS: usize = 2;

/// `n` is 2^k for some k >= 0.
pub open spec fn is_power_of_two(n: nat) -> bool
    decreases n,
{
    if n == 1 {
        true
    } else if n < 2 || n % 2 != 0 {
        false
    } else {
        is_power_of_two(n / 2)
    }
}

/// An oversampling ratio is usable for `sample_count` samples when it is a power
/// of two that does not exceed the sample count and divides it.
pub open spec fn osr_fits(m: usize, sample_count: usize) -> bool {
    is_power_of_two(m as nat) && m <= sample_count && m > 0 && sample_count % m == 0
}

/// Every element is smaller than the next one (sorted without duplicates).
pub open spec fn strictly_increasing(s: Seq<usize>) -> bool {
    forall|i: int, j: int| 0 <= i < j < s.len() ==> s[i] < s[j]
}

/// `out` is the sorted, duplicate-free list of the ratios in `input` together with 1.
pub open spec fn normalized_ratios(out: Seq<usize>, input: Seq<usize>) -> bool {
    strictly_increasing(out) && out.to_set() == input.to_set().insert(1)
}

/// Index of the first ratio in `s` that does not fit `sample_count`, or `s.len()`.
pub open spec fn first_unfit(s: Seq<usize>, sample_count: usize) -> int
    decreases s.len(),
{
    if s.len() == 0 {
        0
    } else if !osr_fits(s[0], sample_count) {
        0
    } else {
        1 + first_unfit(s.drop_first(), sample_count)
    }
}

/// The reason a configuration is rejected.
#[derive(Clone, Copy, Debug, PartialEq, Eq, Structural)]
pub enum SettingsError {
    /// Resolution outside 2..=24 bits.
    Bits(u8),
    /// Reference voltage not finite or not positive.
    VRef,
    /// No samples requested.
    Samples(usize),
    /// Noise amplitude not finite or negative.
    NoiseLsb,
    /// Signal voltages or ramp span not finite.
    Signal,
    /// Fewer than two histogram bins.
    HistogramBins(usize),
    /// No oversampling ratio given.
    OsrEmpty,
    /// The first ratio that is not a power of two dividing the sample count.
    Osr(usize),
}

/// The message for a rejected configuration. The floating-point values appear as
/// the texts `v_ref` and `noise_lsb`, as the caller renders them.
pub open spec fn settings_message(e: SettingsError, v_ref: Seq<char>, noise_lsb: Seq<char>) -> Seq<
    char,
> {
    match e {
        SettingsError::Bits(b) => "--bits must be in 2..=24, got "@ + decimal_text(b as nat),
        SettingsError::VRef => "--vref must be finite and positive, got "@ + v_ref,
        SettingsError::Samples(n) => "--samples must be positive, got "@ + decimal_text(n as nat),
        SettingsError::NoiseLsb => "--noise-lsb must be finite and non-negative, got "@ + noise_lsb,
        SettingsError::Signal => "signal voltages and ramp span must be finite"@,
        SettingsError::HistogramBins(n) => "--histogram-bins must be at least 2, got "@
            + decimal_text(n as nat),
        SettingsError::OsrEmpty => "--osr must not be empty"@,
        SettingsError::Osr(m) => "--osr "@ + decimal_text(m as nat)
            + " must be a power of two dividing --samples"@,
    }
}

impl SettingsError {
    /// The message for this rejection; `v_ref` and `noise_lsb` are the texts of the
    /// reference voltage and the noise amplitude, used by the messages about them.
    pub fn message(&self, v_ref: &str, noise_lsb: &str) -> (r: String)
        ensures
            r@ == settings_message(*self, v_ref@, noise_lsb@),
    {
        match *self {
            SettingsError::Bits(b) => {
                let mut r = String::from_str("--bits must be in 2..=24, got ");
                push_decimal(&mut r, b as u64);
                r
            },
            SettingsError::VRef => joined("--vref must be finite and positive, got ", v_ref),
            SettingsError::Samples(n) => {
                let mut r = String::from_str("--samples must be positive, got ");
                push_decimal(&mut r, n as u64);
                r
            },
            SettingsError::NoiseLsb => joined(
                "--noise-lsb must be finite and non-negative, got ",
                noise_lsb,
            ),
            SettingsError::Signal => String::from_str("signal voltages and ramp span must be finite"),
            SettingsError::HistogramBins(n) => {
                let mut r = String::from_str("--histogram-bins must be at least 2, got ");
                push_decimal(&mut r, n as u64);
                r
            },
            SettingsError::OsrEmpty => String::from_str("--osr must not be empty"),
            SettingsError::Osr(m) => {
                let mut r = String::from_str("--osr ");
                push_decimal(&mut r, m as u64);
                r.append(" must be a power of two dividing --samples");
                r
            },
        }
    }
}

/// The first failing check, in the order in which a configuration is examined;
/// `None` when every check passes.
pub open spec fn settings_error(
    bits: u8,
    v_ref_ok: bool,
    sample_count: usize,
    noise_ok: bool,
    signal_ok: bool,
    histogram_bins: usize,
    oversampling: Seq<usize>,
) -> Option<SettingsError> {
    if !(MIN_BITS <= bits <= MAX_BITS) {
        Some(SettingsError::Bits(bits))
    } else if !v_ref_ok {
        Some(SettingsError::VRef)
    } else if sample_count == 0 {
        Some(SettingsError::Samples(sample_count))
    } else if !noise_ok {
        Some(SettingsError::NoiseLsb)
    } else if !signal_ok {
        Some(SettingsError::Signal)
    } else if histogram_bins < MIN_HISTOGRAM_BINS {
        Some(SettingsError::HistogramBins(histogram_bins))
    } else if oversampling.len() == 0 {
        Some(SettingsError::OsrEmpty)
    } else if first_unfit(oversampling, sample_count) < oversampling.len() {
        Some(SettingsError::Osr(oversampling[first_unfit(oversampling, sample_count)]))
    } else {
        None
    }
}

/// Whether `n` is a power of two (zero is not).
pub fn power_of_two(n: usize) -> (r: bool)
    ensures
        r == is_power_of_two(n as nat),
        r <==> exists|k: nat| n == pow2(k),
{
    proof {
        lemma_power_of_two_iff(n as nat);
    }
    if n == 0 {
        return false;
    }
    let mut m = n;
    while m % 2 == 0
        invariant
            m > 0,
            is_power_of_two(m as nat) == is_power_of_two(n as nat),
        decreases m,
    {
        m = m / 2;
    }
    m == 1
}

/// Inserts `x` into a sorted, duplicate-free list, keeping it so.
fn insert_sorted(v: &mut Vec<usize>, x: usize)
    requires
        strictly_increasing(old(v)@),
    ensures
        strictly_increasing(final(v)@),
        final(v)@.to_set() == old(v)@.to_set().insert(x),
{
    let ghost before = v@;
    let mut p: usize = 0;
    while p < v.len() && v[p] < x
        invariant
            v@ == before,
            p <= v.len(),
            forall|i: int| 0 <= i < p ==> v@[i] < x,
        decreases v.len() - p,
    {
        p = p + 1;
    }
    if p < v.len() && v[p] == x {
        assert(v@.to_set() =~= before.to_set().insert(x)) by {
            assert(before.contains(x)) by {
                assert(before[p as int] == x);
            }
        }
        return;
    }
    v.insert(p, x);
    proof {
        before.insert_ensures(p as int, x);
        let after = v@;
        assert forall|i: int, j: int| 0 <= i < j < after.len() implies after[i] < after[j] by {
            if j < p {
            } else if j == p {
            } else if i < p {
                assert(before[j - 1] >= x);
            } else if i == p {
                assert(before[j - 1] >= x);
                assert(before[j - 1] != x) by {
                    if j - 1 > p {
                        assert(before[p as int] < before[j - 1]);
                        assert(before[p as int] >= x);
                    }
                }
            } else {
                assert(before[i - 1] < before[j - 1]);
            }
        }
        assert forall|y: usize| after.contains(y) <==> before.to_set().insert(x).contains(y) by {
            if after.contains(y) {
                let k = choose|k: int| 0 <= k < after.len() && after[k] == y;
                if k < p {
                    assert(before[k] == y);
                } else if k > p {
                    assert(before[k - 1] == y);
                }
            }
            if before.contains(y) {
                let k = choose|k: int| 0 <= k < before.len() && before[k] == y;
                if k < p {
                    assert(after[k] == y);
                } else {
                    assert(after[k + 1] == y);
                }
            }
            if y == x {
                assert(after[p as int] == x);
            }
        }
        assert(after.to_set() =~= before.to_set().insert(x));
    }
}

/// The ratios sorted ascending without duplicates, with 1 added as the baseline.
pub fn normalized_osr(oversampling: &Vec<usize>) -> (r: Vec<usize>)
    ensures
        normalized_ratios(r@, oversampling@),
        forall|i: int, j: int| 0 <= i < j < r@.len() ==> r@[i] < r@[j],
        r@.contains(1),
        forall|i: int| 0 <= i < oversampling@.len() ==> r@.contains(#[trigger] oversampling@[i]),
        forall|i: int|
            0 <= i < r@.len() ==> #[trigger] r@[i] == 1 || oversampling@.contains(r@[i]),
{
    let mut r: Vec<usize> = Vec::new();
    proof {
        assert(r@.to_set() =~= Set::empty());
    }
    for i in 0..oversampling.len()
        invariant
            strictly_increasing(r@),
            r@.to_set() == oversampling@.take(i as int).to_set(),
    {
        insert_sorted(&mut r, oversampling[i]);
        proof {
            assert(oversampling@.take(i + 1) =~= oversampling@.take(i as int) + seq![oversampling@[i as int]]);
            Seq::<usize>::lemma_to_set_insert_commutes(oversampling@.take(i as int), oversampling@[i as int]);
        }
    }
    insert_sorted(&mut r, 1);
    proof {
        assert(oversampling@.take(oversampling@.len() as int) =~= oversampling@);
        assert(r@.to_set().contains(1));
        assert forall|i: int| 0 <= i < oversampling@.len() implies r@.contains(
            #[trigger] oversampling@[i],
        ) by {
            assert(r@.to_set().contains(oversampling@[i]));
        }
        assert forall|i: int| 0 <= i < r@.len() implies #[trigger] r@[i] == 1
            || oversampling@.contains(r@[i]) by {
            assert(r@.to_set().contains(r@[i]));
        }
    }
    r
}

/// When the first `i` ratios fit, the first unfit index is at least `i`, and it is
/// exactly `i` when ratio `i` does not fit.
proof fn lemma_first_unfit(s: Seq<usize>, sample_count: usize, i: int)
    requires
        0 <= i <= s.len(),
        forall|j: int| 0 <= j < i ==> osr_fits(#[trigger] s[j], sample_count),
    ensures
        i <= first_unfit(s, sample_count) <= s.len(),
        i < s.len() && !osr_fits(s[i], sample_count) ==> first_unfit(s, sample_count) == i,
    decreases i,
{
    if i > 0 {
        let t = s.drop_first();
        assert forall|j: int| 0 <= j < i - 1 implies osr_fits(#[trigger] t[j], sample_count) by {
            assert(t[j] == s[j + 1]);
        }
        lemma_first_unfit(t, sample_count, i - 1);
        assert(osr_fits(s[0], sample_count));
        if i < s.len() {
            assert(t[i - 1] == s[i]);
        }
    } else {
        lemma_first_unfit_bound(s, sample_count);
    }
}

proof fn lemma_first_unfit_bound(s: Seq<usize>, sample_count: usize)
    ensures
        0 <= first_unfit(s, sample_count) <= s.len(),
    decreases s.len(),
{
    if s.len() > 0 {
        lemma_first_unfit_bound(s.drop_first(), sample_count);
    }
}

/// The integer checks of a configuration, in order, together with the outcome of
/// its floating-point checks (`v_ref_ok`: reference voltage finite and positive;
/// `noise_ok`: noise amplitude finite and non-negative; `signal_ok`: signal
/// voltages and ramp span finite). On success, the normalized ratio list.
fn validate_settings(
    bits: u8,
    v_ref_ok: bool,
    sample_count: usize,
    noise_ok: bool,
    signal_ok: bool,
    histogram_bins: usize,
    oversampling: &Vec<usize>,
) -> (r: Result<Vec<usize>, SettingsError>)
    ensures
        match settings_error(
            bits,
            v_ref_ok,
            sample_count,
            noise_ok,
            signal_ok,
            histogram_bins,
            oversampling@,
        ) {
            Some(e) => r == Err::<Vec<usize>, SettingsError>(e),
            None => r matches Ok(v) && normalized_ratios(v@, oversampling@),
        },
{
    if !(MIN_BITS <= bits && bits <= MAX_BITS) {
        return Err(SettingsError::Bits(bits));
    }
    if !v_ref_ok {
        return Err(SettingsError::VRef);
    }
    if sample_count == 0 {
        return Err(SettingsError::Samples(sample_count));
    }
    if !noise_ok {
        return Err(SettingsError::NoiseLsb);
    }
    if !signal_ok {
        return Err(SettingsError::Signal);
    }
    if histogram_bins < MIN_HISTOGRAM_BINS {
        return Err(SettingsError::HistogramBins(histogram_bins));
    }
    if oversampling.len() == 0 {
        return Err(SettingsError::OsrEmpty);
    }
    for i in 0..oversampling.len()
        invariant
            MIN_BITS <= bits <= MAX_BITS,
            v_ref_ok,
            noise_ok,
            signal_ok,
            histogram_bins >= MIN_HISTOGRAM_BINS,
            oversampling.len() > 0,
            sample_count > 0,
            forall|j: int| 0 <= j < i ==> osr_fits(#[trigger] oversampling@[j], sample_count),
    {
        let m = oversampling[i];
        if !power_of_two(m) || m > sample_count || sample_count % m != 0 {
            proof {
                lemma_first_unfit(oversampling@, sample_count, i as int);
            }
            return Err(SettingsError::Osr(m));
        }
    }
    proof {
        lemma_first_unfit(oversampling@, sample_count, oversampling@.len() as int);
    }
    Ok(normalized_osr(oversampling))
}

/// Two sorted, duplicate-free lists with the same elements are the same list.
pub proof fn lemma_sorted_sets_equal(a: Seq<usize>, b: Seq<usize>)
    requires
        strictly_increasing(a),
        strictly_increasing(b),
        a.to_set() == b.to_set(),
    ensures
        a == b,
    decreases a.len(),
{
    if a.len() == 0 {
        if b.len() > 0 {
            assert(b.to_set().contains(b[0]));
        }
        assert(b.len() == 0);
        assert(a =~= b);
    } else {
        assert(a.to_set().contains(a[0]));
        let j = choose|j: int| 0 <= j < b.len() && b[j] == a[0];
        assert(b.to_set().contains(b[0]));
        let i = choose|i: int| 0 <= i < a.len() && a[i] == b[0];
        assert(a[0] <= a[i]);
        assert(b[0] <= b[j]);
        assert(a[0] == b[0]);
        let ta = a.drop_first();
        let tb = b.drop_first();
        assert forall|x: usize| ta.contains(x) <==> tb.contains(x) by {
            if ta.contains(x) {
                let k = choose|k: int| 0 <= k < ta.len() && ta[k] == x;
                assert(a[k + 1] == x);
                assert(a.to_set().contains(x));
                assert(b.contains(x));
                let l = choose|l: int| 0 <= l < b.len() && b[l] == x;
                assert(l != 0);
                assert(tb[l - 1] == x);
            }
            if tb.contains(x) {
                let k = choose|k: int| 0 <= k < tb.len() && tb[k] == x;
                assert(b[k + 1] == x);
                assert(b.to_set().contains(x));
                assert(a.contains(x));
                let l = choose|l: int| 0 <= l < a.len() && a[l] == x;
                assert(l != 0);
                assert(ta[l - 1] == x);
            }
        }
        assert(ta.to_set() =~= tb.to_set());
        lemma_sorted_sets_equal(ta, tb);
        assert(a =~= seq![a[0]] + ta);
        assert(b =~= seq![b[0]] + tb);
    }
}

/// When no ratio is unfit, every ratio fits.
proof fn lemma_all_fit(s: Seq<usize>, sample_count: usize)
    requires
        first_unfit(s, sample_count) == s.len(),
    ensures
        forall|i: int| 0 <= i < s.len() ==> osr_fits(#[trigger] s[i], sample_count),
    decreases s.len(),
{
    if s.len() > 0 {
        lemma_first_unfit_bound(s.drop_first(), sample_count);
        lemma_all_fit(s.drop_first(), sample_count);
        assert forall|i: int| 0 <= i < s.len() implies osr_fits(#[trigger] s[i], sample_count) by {
            if i > 0 {
                assert(s[i] == s.drop_first()[i - 1]);
            }
        }
    }
}

/// Validating a configuration that passed validation succeeds again and leaves its
/// ratio list unchanged.
pub proof fn lemma_validation_idempotent(
    bits: u8,
    v_ref_ok: bool,
    sample_count: usize,
    noise_ok: bool,
    signal_ok: bool,
    histogram_bins: usize,
    input: Seq<usize>,
    out: Seq<usize>,
)
    requires
        settings_error(bits, v_ref_ok, sample_count, noise_ok, signal_ok, histogram_bins, input)
            is None,
        normalized_ratios(out, input),
    ensures
        settings_error(bits, v_ref_ok, sample_count, noise_ok, signal_ok, histogram_bins, out)
            is None,
        forall|again: Seq<usize>| #[trigger] normalized_ratios(again, out) ==> again == out,
{
    lemma_first_unfit_bound(input, sample_count);
    lemma_all_fit(input, sample_count);
    assert(out.to_set().contains(1));
    assert(out.contains(1));
    assert forall|j: int| 0 <= j < out.len() implies osr_fits(#[trigger] out[j], sample_count) by {
        assert(out.to_set().contains(out[j]));
        if out[j] != 1 {
            assert(input.contains(out[j]));
            let k = choose|k: int| 0 <= k < input.len() && input[k] == out[j];
            assert(osr_fits(input[k], sample_count));
        } else {
            assert(is_power_of_two(1));
        }
    }
    lemma_first_unfit(out, sample_count, out.len() as int);
    assert forall|again: Seq<usize>| #[trigger] normalized_ratios(again, out) implies again == out by {
        assert(out.to_set().insert(1) =~= out.to_set());
        lemma_sorted_sets_equal(again, out);
    }
}

/// After a successful validation the baseline ratio 1 comes first.
pub proof fn lemma_baseline_first(
    bits: u8,
    v_ref_ok: bool,
    sample_count: usize,
    noise_ok: bool,
    signal_ok: bool,
    histogram_bins: usize,
    input: Seq<usize>,
    out: Seq<usize>,
)
    requires
        settings_error(bits, v_ref_ok, sample_count, noise_ok, signal_ok, histogram_bins, input)
            is None,
        normalized_ratios(out, input),
    ensures
        out.len() > 0,
        out[0] == 1,
{
    lemma_first_unfit_bound(input, sample_count);
    lemma_all_fit(input, sample_count);
    assert(out.to_set().contains(1));
    let k = choose|k: int| 0 <= k < out.len() && out[k] == 1;
    assert(out.to_set().contains(out[0]));
    if out[0] != 1 {
        assert(input.contains(out[0]));
        let m = choose|m: int| 0 <= m < input.len() && input[m] == out[0];
        assert(osr_fits(input[m], sample_count));
        assert(out[0] < out[k]);
    }
}

/// 2^k passes the power-of-two test.
proof fn lemma_pow2_is_power_of_two(k: nat)
    ensures
        is_power_of_two(pow2(k)),
    decreases k,
{
    lemma2_to64();
    if k > 0 {
        lemma_pow2_unfold(k);
        lemma_pow2_pos((k - 1) as nat);
        lemma_pow2_is_power_of_two((k - 1) as nat);
        assert(pow2(k) / 2 == pow2((k - 1) as nat));
    }
}

/// A number passing the power-of-two test is 2^k for some k.
proof fn lemma_power_of_two_witness(n: nat)
    requires
        is_power_of_two(n),
    ensures
        exists|k: nat| n == pow2(k),
    decreases n,
{
    lemma2_to64();
    if n == 1 {
        assert(n == pow2(0));
    } else {
        lemma_power_of_two_witness(n / 2);
        let k = choose|k: nat| n / 2 == pow2(k);
        lemma_pow2_unfold(k + 1);
        assert(n == pow2(k + 1));
    }
}

/// The power-of-two test says exactly that `n` is 2^k for some k.
pub proof fn lemma_power_of_two_iff(n: nat)
    ensures
        is_power_of_two(n) <==> exists|k: nat| n == pow2(k),
{
    if is_power_of_two(n) {
        lemma_power_of_two_witness(n);
    }
    if exists|k: nat| n == pow2(k) {
        let k = choose|k: nat| n == pow2(k);
        lemma_pow2_is_power_of_two(k);
    }
}

/// For a positive sample count, a ratio fits exactly when it is a positive power of
/// two that divides the sample count.
proof fn lemma_fits_iff(m: usize, sample_count: usize)
    requires
        sample_count > 0,
    ensures
        osr_fits(m, sample_count) <==> (m > 0 && sample_count % m == 0 && exists|k: nat|
            m == pow2(k)),
{
    lemma_power_of_two_iff(m as nat);
    if m > sample_count {
        lemma_small_mod(sample_count as nat, m as nat);
    }
}

/// The ratio at the first unfit index does not fit.
proof fn lemma_first_unfit_fails(s: Seq<usize>, sample_count: usize)
    requires
        first_unfit(s, sample_count) < s.len(),
    ensures
        !osr_fits(s[first_unfit(s, sample_count)], sample_count),
    decreases s.len(),
{
    if s.len() > 0 && osr_fits(s[0], sample_count) {
        let t = s.drop_first();
        assert(first_unfit(s, sample_count) == 1 + first_unfit(t, sample_count));
        lemma_first_unfit_bound(t, sample_count);
        lemma_first_unfit_fails(t, sample_count);
        assert(s[first_unfit(s, sample_count)] == t[first_unfit(t, sample_count)]);
    }
}

impl Settings {
    /// These settings checked in order, given the outcome of their floating-point
    /// checks (`v_ref_ok`: reference voltage finite and positive; `noise_ok`: noise
    /// amplitude finite and non-negative; `signal_ok`: signal voltages and ramp
    /// span finite). On success, the same settings with the ratios sorted,
    /// deduplicated and including the baseline 1.
    pub fn validated(&self, v_ref_ok: bool, noise_ok: bool, signal_ok: bool) -> (r: Result<
        Settings,
        SettingsError,
    >)
        ensures
            match settings_error(
                self.bits,
                v_ref_ok,
                self.sample_count,
                noise_ok,
                signal_ok,
                self.histogram_bins,
                self.oversampling@,
            ) {
                Some(e) => r matches Err(f) && f == e,
                None => r matches Ok(c) && c@ == (SettingsModel {
                    oversampling: c@.oversampling,
                    ..self@
                }) && normalized_ratios(c@.oversampling, self.oversampling@),
            },
            r is Ok <==> {
                &&& 2 <= self.bits <= 24
                &&& v_ref_ok
                &&& self.sample_count > 0
                &&& noise_ok
                &&& signal_ok
                &&& self.histogram_bins >= 2
                &&& self.oversampling@.len() > 0
                &&& forall|i: int|
                    0 <= i < self.oversampling@.len() ==> {
                        let m = #[trigger] self.oversampling@[i];
                        m > 0 && self.sample_count % m == 0 && exists|k: nat| m == pow2(k)
                    }
            },
            r matches Ok(c) ==> {
                &&& c.oversampling@.len() > 0
                &&& c.oversampling@[0] == 1
                &&& forall|i: int, j: int|
                    0 <= i < j < c.oversampling@.len() ==> c.oversampling@[i]
                        < c.oversampling@[j]
                &&& forall|i: int|
                    0 <= i < c.oversampling@.len() ==> {
                        let m = #[trigger] c.oversampling@[i];
                        &&& m > 0
                        &&& self.sample_count % m == 0
                        &&& exists|k: nat| m == pow2(k)
                        &&& (m == 1 || self.oversampling@.contains(m))
                    }
                &&& forall|i: int|
                    0 <= i < self.oversampling@.len() ==> c.oversampling@.contains(
                        #[trigger] self.oversampling@[i],
                    )
            },
            r matches Err(SettingsError::Osr(m)) ==> self.oversampling@.contains(m) && !(m > 0
                && self.sample_count % m == 0 && exists|k: nat| m == pow2(k)),
    {
        proof {
            let input = self.oversampling@;
            let sc = self.sample_count;
            if sc > 0 {
                assert forall|i: int| 0 <= i < input.len() implies (osr_fits(
                    #[trigger] input[i],
                    sc,
                ) <==> (input[i] > 0 && sc % input[i] == 0 && exists|k: nat| input[i] == pow2(k))) by {
                    lemma_fits_iff(input[i], sc);
                }
                lemma_first_unfit_bound(input, sc);
                if first_unfit(input, sc) < input.len() {
                    lemma_first_unfit_fails(input, sc);
                } else {
                    lemma_all_fit(input, sc);
                }
            }
        }
        let oversampling = validate_settings(
            self.bits,
            v_ref_ok,
            self.sample_count,
            noise_ok,
            signal_ok,
            self.histogram_bins,
            &self.oversampling,
        )?;
        proof {
            let input = self.oversampling@;
            let out = oversampling@;
            let sc = self.sample_count;
            lemma_baseline_first(
                self.bits,
                v_ref_ok,
                sc,
                noise_ok,
                signal_ok,
                self.histogram_bins,
                input,
                out,
            );
            lemma_validation_idempotent(
                self.bits,
                v_ref_ok,
                sc,
                noise_ok,
                signal_ok,
                self.histogram_bins,
                input,
                out,
            );
            lemma_first_unfit_bound(out, sc);
            lemma_all_fit(out, sc);
            assert forall|i: int| 0 <= i < out.len() implies {
                let m = #[trigger] out[i];
                &&& m > 0
                &&& sc % m == 0
                &&& exists|k: nat| m == pow2(k)
                &&& (m == 1 || input.contains(m))
            } by {
                lemma_fits_iff(out[i], sc);
                assert(out.to_set().contains(out[i]));
            }
            assert forall|i: int| 0 <= i < input.len() implies out.contains(#[trigger] input[i]) by {
                assert(input.to_set().insert(1).contains(input[i]));
            }
        }
        Ok(
            Settings {
                bits: self.bits,
                sample_count: self.sample_count,
                seed: self.seed,
                signal: self.signal,
                noise: self.noise,
                oversampling,
                histogram_bins: self.histogram_bins,
                output_dir: self.output_dir.clone(),
            },
        )
    }
}

} // verus!
