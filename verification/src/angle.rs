//! Exact angles.
//!
//! The sensor reports angles as whole hundredths of a degree. The points of a
//! frame lie between two such readings, so their angles are fractions of a
//! hundredth. An [`Angle`] keeps such a fraction exactly, as a pair of integers,
//! and leaves any rounding to the caller.

use vstd::prelude::*;

verus! {

/// Hundredths of a degree in a full turn.
pub const FULL_TURN: u16 = 36000;

/// An angle of `numer / denom` degrees. The fraction is kept as it was made
/// and not reduced, and `==` compares the two fields.
#[derive(Debug, Clone, Copy, PartialEq, Eq)]
pub struct Angle {
    pub numer: u32,
    pub denom: u32,
}

impl Angle {
    /// The denominator is positive, so the fraction has a value.
    pub open spec fn wf(self) -> bool {
        self.denom > 0
    }

    /// The angle is exactly `hundredths / 100` degrees.
    pub open spec fn is_hundredths(self, hundredths: int) -> bool {
        self.numer * 100 == hundredths * self.denom
    }

    /// The angle of point `index` among `count` points spread evenly from
    /// `start` to `end`, both in hundredths of a degree.
    pub fn interpolate(start: u16, end: u16, count: u8, index: u8) -> (angle: Angle)
        requires
            index < count,
        ensures
            angle == angle_at(start, end, count as nat, index as nat),
            angle.wf(),
    {
        if count <= 1 {
            Angle { numer: start as u32, denom: 100 }
        } else {
            let steps: u32 = (count - 1) as u32;
            let taken: u32 = index as u32;
            proof {
                lemma_weighted(start as int, end as int, steps as int, taken as int);
            }
            let from_start: u32 = (start as u32) * (steps - taken);
            let from_end: u32 = (end as u32) * taken;
            Angle { numer: from_start + from_end, denom: 100 * steps }
        }
    }
}

/// The step between two neighbouring points of a frame, as the numerator of a
/// fraction of hundredths of a degree whose denominator is [`steps`]. With
/// fewer than two points there is nothing to divide the span by, and the step
/// is zero.
pub open spec fn increment_numer(start: u16, end: u16, count: nat) -> int {
    if count <= 1 {
        0
    } else {
        end - start
    }
}

/// The number of steps from the first point of a frame to its last; one where
/// the frame has fewer than two points.
pub open spec fn steps(count: nat) -> int {
    if count <= 1 {
        1
    } else {
        count - 1
    }
}

/// The angle of point `index` of a frame of `count` points that spans from
/// `start` to `end`: `start + index * (end - start) / (count - 1)` hundredths
/// of a degree, kept as a fraction of degrees. A frame of fewer than two points
/// has a zero step, so its point stands at `start`.
pub open spec fn angle_at(start: u16, end: u16, count: nat, index: nat) -> Angle {
    Angle {
        numer: (start * steps(count) + increment_numer(start, end, count) * index) as u32,
        denom: (100 * steps(count)) as u32,
    }
}

/// A point that lies `taken` of `steps` steps from `start` towards `end` is the
/// mean of the two, weighted by the steps left and the steps taken, and so no
/// further out than the larger of them.
pub proof fn lemma_weighted(start: int, end: int, steps: int, taken: int)
    requires
        0 <= start <= 0xffff,
        0 <= end <= 0xffff,
        0 <= taken <= steps,
    ensures
        start * steps + (end - start) * taken == start * (steps - taken) + end * taken,
        0 <= start * (steps - taken) <= 0xffff * (steps - taken),
        0 <= end * taken <= 0xffff * taken,
        0 <= start * (steps - taken) + end * taken <= 0xffff * steps,
{
    assert(start * steps + (end - start) * taken == start * (steps - taken) + end * taken)
        by (nonlinear_arith);
    assert(0 <= start * (steps - taken) <= 0xffff * (steps - taken)) by (nonlinear_arith)
        requires
            0 <= start <= 0xffff,
            0 <= steps - taken,
    ;
    assert(0 <= end * taken <= 0xffff * taken) by (nonlinear_arith)
        requires
            0 <= end <= 0xffff,
            0 <= taken,
    ;
}

/// In a frame of two points or more, the first point stands exactly at the
/// start angle and the last exactly at the end angle, and from each point to
/// the next the angle grows by `(end - start) / (count - 1)` hundredths of a
/// degree: all angles of the frame have the denominator `100 * (count - 1)`,
/// and their numerators differ by `end - start`.
pub proof fn lemma_interpolation(start: u16, end: u16, count: nat, index: nat)
    requires
        2 <= count <= u8::MAX,
        index + 1 < count,
    ensures
        angle_at(start, end, count, 0).is_hundredths(start as int),
        angle_at(start, end, count, (count - 1) as nat).is_hundredths(end as int),
        angle_at(start, end, count, index).denom == 100 * (count - 1),
        angle_at(start, end, count, index + 1).denom == 100 * (count - 1),
        angle_at(start, end, count, index + 1).numer - angle_at(start, end, count, index).numer
            == end - start,
{
    let steps = count - 1;
    lemma_weighted(start as int, end as int, steps, 0);
    lemma_weighted(start as int, end as int, steps, steps);
    lemma_weighted(start as int, end as int, steps, index as int);
    lemma_weighted(start as int, end as int, steps, index as int + 1);
    assert((end - start) * (index + 1) == (end - start) * index + (end - start))
        by (nonlinear_arith);
    assert((start * steps + (end - start) * 0) * 100 == start * (100 * steps))
        by (nonlinear_arith);
    assert((start * steps + (end - start) * steps) * 100 == end * (100 * steps))
        by (nonlinear_arith);
}

} // verus!
