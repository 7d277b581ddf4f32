//! A lane: eight bit patterns that are processed together.

use vstd::prelude::*;
use crate::consts::LANES;

verus! {

/// Eight single-precision bit patterns, one per contract of a group.
#[derive(Clone, Copy, Debug)]
pub struct Lane {
    pub bits: [u32; 8],
}

impl View for Lane {
    type V = Seq<u32>;

    open spec fn view(&self) -> Seq<u32> {
        self.bits@
    }
}

/// The lane that `values` fills from the front, zero in the slots that are
/// left over; what lies beyond the eighth value is not read.
pub open spec fn padded(values: Seq<u32>) -> Seq<u32> {
    Seq::new(LANES as nat, |i: int| if i < values.len() { values[i] } else { 0u32 })
}

impl Lane {
    /// The lane that holds `bits`.
    pub fn new(bits: [u32; 8]) -> (lane: Lane)
        ensures
            lane@ == bits@,
    {
        Lane { bits }
    }

    /// The lane whose eight slots all hold `value`.
    pub fn splat(value: u32) -> (lane: Lane)
        ensures
            lane@ == Seq::new(LANES as nat, |i: int| value),
    {
        let lane = Lane { bits: [value; 8] };
        assert(lane@ =~= Seq::new(LANES as nat, |i: int| value));
        lane
    }

    /// Loads up to eight values from the front of `values` and pads with
    /// zero.
    pub fn from_slice(values: &[u32]) -> (lane: Lane)
        ensures
            lane@ == padded(values@),
    {
        let mut bits: [u32; 8] = [0u32; 8];
        let mut i: usize = 0;
        while i < 8
            invariant
                i <= 8,
                forall|j: int| 0 <= j < i ==> bits@[j] == padded(values@)[j],
                forall|j: int| i <= j < 8 ==> bits@[j] == 0,
            decreases 8 - i,
        {
            if i < values.len() {
                bits[i] = values[i];
            }
            i += 1;
        }
        let lane = Lane { bits };
        assert(lane@ =~= padded(values@));
        lane
    }

    /// The eight patterns.
    pub fn to_array(&self) -> (bits: [u32; 8])
        ensures
            bits@ == self@,
    {
        self.bits
    }
}

} // verus!
