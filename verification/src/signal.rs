//! Sample positions of the reference signal.
use vstd::prelude::*;

verus! {

/// Where sample `index` of `count` lies on a ramp.
#[derive(Clone, Copy, Debug, PartialEq, Eq, Structural)]
pub enum RampPoint {
    /// Exactly the start voltage (the first sample, or the only one).
    Start,
    /// Exactly the end voltage (the last of two or more samples).
    End,
    /// Strictly inside: the fraction `index / last` of the way from start to end.
    Between { index: usize, last: usize },
}

/// The position of sample `index` of `count` on an inclusive ramp.
pub open spec fn ramp_point_of(index: usize, count: usize) -> RampPoint {
    if count <= 1 || index == 0 {
        RampPoint::Start
    } else if index == count - 1 {
        RampPoint::End
    } else {
        RampPoint::Between { index, last: (count - 1) as usize }
    }
}

/// The position of sample `index` of `count` on an inclusive ramp: both ends are hit
/// exactly, and inner samples are evenly spaced.
pub fn ramp_point(index: usize, count: usize) -> (r: RampPoint)
    ensures
        r == ramp_point_of(index, count),
        index < count ==> (r matches RampPoint::Between { index: i, last: l } ==> 0 < i < l),
        0 < index && index + 1 < count ==> r == (RampPoint::Between { index, last: (count - 1) as usize }),
        index == 0 || count <= 1 ==> r == RampPoint::Start,
        0 < index && count >= 2 && index == count - 1 ==> r == RampPoint::End,
{
    if count <= 1 || index == 0 {
        RampPoint::Start
    } else if index == count - 1 {
        RampPoint::End
    } else {
        RampPoint::Between { index, last: count - 1 }
    }
}

} // verus!
