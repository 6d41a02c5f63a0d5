//! Summaries of the raw ADC codes produced by an experiment.
use vstd::prelude::*;

verus! {

/// Smallest, largest and number of distinct raw ADC codes.
#[derive(Clone, Copy, Debug, PartialEq, Eq, Structural)]
pub struct CodeRange {
    pub min: u32,
    pub max: u32,
    pub unique: usize,
}

/// `slice::sort_unstable` on a vector of codes: afterwards the vector is in
/// ascending order and holds the same codes, each as often as before.
#[verifier::external_body]
fn sort_codes(v: &mut Vec<u32>)
    ensures
        final(v)@.to_multiset() == old(v)@.to_multiset(),
        forall|i: int, j: int| 0 <= i <= j < final(v)@.len() ==> final(v)@[i] <= final(v)@[j],
{
    v.sort_unstable();
}

/// Every code is smaller than the next one.
pub open spec fn codes_increasing(s: Seq<u32>) -> bool {
    forall|i: int, j: int| 0 <= i < j < s.len() ==> s[i] < s[j]
}

/// The distinct codes of an ascending vector, in order.
fn distinct_sorted(v: &Vec<u32>) -> (r: Vec<u32>)
    requires
        forall|i: int, j: int| 0 <= i <= j < v@.len() ==> v@[i] <= v@[j],
    ensures
        codes_increasing(r@),
        r@.to_set() == v@.to_set(),
        v@.len() > 0 ==> r@.len() > 0 && r@[0] == v@[0] && r@.last() == v@.last(),
{
    let mut r: Vec<u32> = Vec::new();
    proof {
        assert(r@.to_set() =~= v@.take(0).to_set());
    }
    for i in 0..v.len()
        invariant
            forall|a: int, b: int| 0 <= a <= b < v@.len() ==> v@[a] <= v@[b],
            codes_increasing(r@),
            r@.to_set() == v@.take(i as int).to_set(),
            i > 0 ==> r@.len() > 0 && r@[0] == v@[0] && r@.last() == v@[i - 1],
            i == 0 ==> r@.len() == 0,
    {
        let x = v[i];
        let ghost old_r = r@;
        proof {
            assert(v@.take(i + 1) =~= v@.take(i as int) + seq![x]);
            Seq::<u32>::lemma_to_set_insert_commutes(v@.take(i as int), x);
        }
        if r.len() == 0 || r[r.len() - 1] != x {
            r.push(x);
            proof {
                assert(r@ =~= old_r + seq![x]);
                Seq::<u32>::lemma_to_set_insert_commutes(old_r, x);
                if i > 0 {
                    assert(v@[i - 1] <= x);
                }
            }
        } else {
            proof {
                assert(old_r.to_set().contains(x)) by {
                    assert(old_r[old_r.len() - 1] == x);
                }
                assert(v@.take(i + 1).to_set() =~= old_r.to_set());
            }
        }
    }
    proof {
        assert(v@.take(v@.len() as int) =~= v@);
    }
    r
}

/// Range and number of distinct values of the raw codes (which it sorts).
pub fn code_range(codes: Vec<u32>) -> (r: CodeRange)
    requires
        codes.len() > 0,
    ensures
        codes@.contains(r.min),
        codes@.contains(r.max),
        forall|i: int| 0 <= i < codes@.len() ==> r.min <= #[trigger] codes@[i] <= r.max,
        r.unique == codes@.to_set().len(),
        r.unique == 1 <==> r.min == r.max,
        1 <= r.unique <= codes@.len(),
{
    let ghost given = codes@;
    let mut codes = codes;
    sort_codes(&mut codes);
    let d = distinct_sorted(&codes);
    proof {
        given.to_multiset_ensures();
        codes@.to_multiset_ensures();
        assert forall|x: u32| given.contains(x) <==> codes@.contains(x) by {
            assert(given.contains(x) <==> given.to_multiset().count(x) > 0);
            assert(codes@.contains(x) <==> codes@.to_multiset().count(x) > 0);
        }
        assert(given.to_set() =~= codes@.to_set());
        assert(d@.no_duplicates()) by {
            assert forall|i: int, j: int| 0 <= i < d@.len() && 0 <= j < d@.len() && i != j implies d@[i]
                != d@[j] by {
                if i < j {
                    assert(d@[i] < d@[j]);
                } else {
                    assert(d@[j] < d@[i]);
                }
            }
        }
        d@.unique_seq_to_set();
        given.lemma_cardinality_of_set();
        if d@.len() > 1 {
            assert(d@[0] < d@[d@.len() - 1]);
        }
        assert(codes@.contains(codes@[0]));
        assert(codes@.contains(codes@.last()));
        assert forall|i: int| 0 <= i < given.len() implies codes@[0] <= #[trigger] given[i]
            <= codes@.last() by {
            assert(given.contains(given[i]));
            assert(codes@.contains(given[i]));
            let k = choose|k: int| 0 <= k < codes@.len() && codes@[k] == given[i];
        }
    }
    CodeRange { min: d[0], max: d[d.len() - 1], unique: d.len() }
}

} // verus!
