//! Names used when results are reported.
use vstd::prelude::*;
use crate::config::NoiseKind;

verus! {

/// The name of a noise kind, as written on the command line and in reports.
pub open spec fn noise_label(kind: NoiseKind) -> Seq<char> {
    match kind {
        NoiseKind::Off => "none"@,
        NoiseKind::Uniform => "uniform"@,
        NoiseKind::Gaussian => "gaussian"@,
    }
}

/// The name of a noise kind, as written on the command line and in reports.
pub fn noise_name(kind: NoiseKind) -> (r: &'static str)
    ensures
        r@ == noise_label(kind),
{
    match kind {
        NoiseKind::Off => "none",
        NoiseKind::Uniform => "uniform",
        NoiseKind::Gaussian => "gaussian",
    }
}

/// Distinct noise kinds have distinct names.
pub proof fn lemma_noise_names_distinct(a: NoiseKind, b: NoiseKind)
    requires
        a != b,
    ensures
        noise_label(a) != noise_label(b),
{
    reveal_strlit("none");
    reveal_strlit("uniform");
    reveal_strlit("gaussian");
    assert("none"@.len() == 4);
    assert("uniform"@.len() == 7);
    assert("gaussian"@.len() == 8);
}

/// The ratios whose error distributions are drawn, when a run includes them.
pub open spec fn charted_ratios() -> Seq<usize> {
    seq![1usize, 16, 256]
}

/// The charted ratios that occur in `osrs`, in chart order.
pub open spec fn charts_for(osrs: Seq<usize>) -> Seq<usize> {
    charted_ratios().filter(|m: usize| osrs.contains(m))
}

/// Which error-histogram charts a run with ratios `osrs` gets: each of 1, 16 and 256
/// that the run includes, in that order.
pub fn histogram_osrs(osrs: &Vec<usize>) -> (r: Vec<usize>)
    ensures
        r@ == charts_for(osrs@),
{
    let mut r: Vec<usize> = Vec::new();
    let wanted: [usize; 3] = [1, 16, 256];
    assert(wanted@ == charted_ratios());
    for k in 0..3
        invariant
            wanted@ == charted_ratios(),
            r@ == charted_ratios().take(k as int).filter(|m: usize| osrs@.contains(m)),
    {
        let m = wanted[k];
        let mut found = false;
        for i in 0..osrs.len()
            invariant
                found == exists|j: int| 0 <= j < i && osrs@[j] == m,
        {
            if osrs[i] == m {
                found = true;
            }
        }
        proof {
            let t = charted_ratios().take(k + 1);
            assert(t.drop_last() =~= charted_ratios().take(k as int));
            reveal(Seq::filter);
            assert(found == osrs@.contains(m));
        }
        if found {
            r.push(m);
        }
    }
    proof {
        assert(charted_ratios().take(3) =~= charted_ratios());
    }
    r
}

} // verus!
