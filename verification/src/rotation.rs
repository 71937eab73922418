//! Gathering frames into whole rotations.
//!
//! Each frame covers a stretch of the circle, its sweep. The aggregator adds
//! the sweeps up and keeps the points; once the sum reaches the wanted number
//! of turns it hands the points out as one batch and begins again from
//! nothing. What the sum held beyond the mark is not carried over.

use vstd::prelude::*;
use crate::angle::FULL_TURN;
use crate::frame::{all_points, AngledScanLine, Frame, FrameView};

verus! {

/// The stretch from `start_angle` to `end_angle`, in hundredths of a degree.
/// An end angle below the start angle means that the frame passed the zero
/// mark, and the stretch is taken through it.
pub open spec fn sweep_of(start_angle: u16, end_angle: u16) -> int {
    if end_angle >= start_angle {
        end_angle - start_angle
    } else {
        (FULL_TURN - start_angle) + end_angle
    }
}

/// The covered angle at which a batch of `rotations` turns is full.
pub open spec fn threshold(rotations: nat) -> int {
    rotations * FULL_TURN
}

/// The covered angle `covered` with `sweep` added. The sum is kept in 128
/// bits and stays at their lower end where it would fall below.
pub open spec fn add_sweep(covered: int, sweep: int) -> int {
    if covered + sweep < i128::MIN {
        i128::MIN as int
    } else {
        covered + sweep
    }
}

/// The covered angle after `frame` has been taken in, before any reset.
pub open spec fn covered_with(covered: int, frame: FrameView) -> int {
    add_sweep(covered, sweep_of(frame.start_angle, frame.end_angle))
}

/// The batches that an aggregator gives while it takes in `frames`, where it
/// holds `pending` and has covered `covered` beforehand. What it has gathered
/// when `frames` ends is in no batch.
pub open spec fn batches(
    pending: Seq<AngledScanLine>,
    covered: int,
    rotations: nat,
    frames: Seq<FrameView>,
) -> Seq<Seq<AngledScanLine>>
    decreases frames.len(),
{
    if frames.len() == 0 {
        Seq::empty()
    } else if covered_with(covered, frames[0]) >= threshold(rotations) {
        seq![pending + frames[0].data] + batches(Seq::empty(), 0, rotations, frames.drop_first())
    } else {
        batches(
            pending + frames[0].data,
            covered_with(covered, frames[0]),
            rotations,
            frames.drop_first(),
        )
    }
}

/// The sweeps of `frames` added up.
pub open spec fn total_sweep(frames: Seq<FrameView>) -> int
    decreases frames.len(),
{
    if frames.len() == 0 {
        0
    } else {
        sweep_of(frames[0].start_angle, frames[0].end_angle) + total_sweep(frames.drop_first())
    }
}

/// The stretch from `start_angle` to `end_angle`, in hundredths of a degree.
pub fn sweep(start_angle: u16, end_angle: u16) -> (sweep: i32)
    ensures
        sweep == sweep_of(start_angle, end_angle),
{
    if end_angle >= start_angle {
        (end_angle - start_angle) as i32
    } else {
        (FULL_TURN as i32 - start_angle as i32) + end_angle as i32
    }
}

/// Collects the points of frames until they make up the wanted number of
/// rotations.
pub struct RotationAggregator {
    pending: Vec<AngledScanLine>,
    covered: i128,
    rotations: usize,
}

impl RotationAggregator {
    #[verifier::type_invariant]
    spec fn inv(&self) -> bool {
        self.covered <= threshold(usize::MAX as nat)
    }

    /// The points taken in since the last batch.
    pub closed spec fn pending(&self) -> Seq<AngledScanLine> {
        self.pending@
    }

    /// The angle covered since the last batch, in hundredths of a degree.
    pub closed spec fn covered(&self) -> int {
        self.covered as int
    }

    /// The number of rotations that make a batch.
    pub closed spec fn rotations(&self) -> nat {
        self.rotations as nat
    }

    /// An aggregator that has seen nothing and makes batches of `rotations`
    /// turns. With `rotations` zero, every frame that leaves the covered angle
    /// at zero or above is a batch.
    pub fn new(rotations: usize) -> (aggregator: RotationAggregator)
        ensures
            aggregator.pending().len() == 0,
            aggregator.covered() == 0,
            aggregator.rotations() == rotations,
    {
        RotationAggregator { pending: Vec::new(), covered: 0, rotations }
    }

    /// The angle covered since the last batch, in hundredths of a degree.
    pub fn covered_angle(&self) -> (covered: i128)
        ensures
            covered == self.covered(),
    {
        self.covered
    }

    /// The number of points taken in since the last batch.
    pub fn pending_len(&self) -> (len: usize)
        ensures
            len == self.pending().len(),
    {
        self.pending.len()
    }

    /// Takes `frame` in. Where the covered angle thereby reaches the mark,
    /// returns all points gathered, those of `frame` last, and starts over
    /// with no points and a covered angle of zero.
    pub fn push(&mut self, frame: Frame) -> (out: Option<Vec<AngledScanLine>>)
        ensures
            final(self).rotations() == old(self).rotations(),
            covered_with(old(self).covered(), frame@) >= threshold(old(self).rotations()) ==> {
                &&& out matches Some(batch) && batch@ == old(self).pending() + frame@.data
                &&& final(self).pending().len() == 0
                &&& final(self).covered() == 0
            },
            covered_with(old(self).covered(), frame@) < threshold(old(self).rotations()) ==> {
                &&& out is None
                &&& final(self).pending() == old(self).pending() + frame@.data
                &&& final(self).covered() == covered_with(old(self).covered(), frame@)
            },
    {
        proof {
            use_type_invariant(&*self);
        }
        let added: i128 = sweep(frame.start_angle, frame.end_angle) as i128;
        let covered: i128 = match self.covered.checked_add(added) {
            Some(sum) => sum,
            None => i128::MIN,
        };
        let mark: i128 = (self.rotations as i128) * (FULL_TURN as i128);
        let mut data = frame.data;
        let mut gathered: Vec<AngledScanLine> = Vec::new();
        core::mem::swap(&mut gathered, &mut self.pending);
        gathered.append(&mut data);
        if covered >= mark {
            self.covered = 0;
            Some(gathered)
        } else {
            core::mem::swap(&mut gathered, &mut self.pending);
            self.covered = covered;
            None
        }
    }
}

/// Frames that fill an aggregator exactly with the last of them give one
/// batch, which holds what was pending and then all their points in order.
/// The frames after them are gathered as by an aggregator that has seen
/// nothing.
///
/// The frames fill it with the last of them where `covered` and their sweeps
/// added up reach the mark, and `covered` and the sweeps of fewer of them stay
/// below it (and within 128 bits).
pub proof fn lemma_batch_when_full(
    pending: Seq<AngledScanLine>,
    covered: int,
    rotations: nat,
    frames: Seq<FrameView>,
    later: Seq<FrameView>,
)
    requires
        frames.len() > 0,
        forall|k: int|
            0 < k < frames.len() ==> i128::MIN <= covered + #[trigger] total_sweep(frames.take(k))
                < threshold(rotations),
        covered + total_sweep(frames) >= threshold(rotations),
    ensures
        batches(pending, covered, rotations, frames + later) == seq![pending + all_points(frames)]
            + batches(Seq::empty(), 0, rotations, later),
    decreases frames.len(),
{
    let all = frames + later;
    let first = frames[0];
    let rest = frames.drop_first();
    assert(all[0] == first);
    assert(all.drop_first() =~= rest + later);
    assert(total_sweep(frames.take(1)) == sweep_of(first.start_angle, first.end_angle)) by {
        assert(total_sweep(frames.take(1).drop_first()) == 0);
    }
    if frames.len() == 1 {
        assert(frames.take(1) =~= frames);
        assert(first.data + all_points(rest) =~= first.data);
    } else {
        let next = covered_with(covered, first);
        assert forall|k: int| 0 < k < rest.len() implies i128::MIN <= next + #[trigger] total_sweep(
            rest.take(k),
        ) < threshold(rotations) by {
            assert(frames.take(k + 1).drop_first() =~= rest.take(k));
            assert(total_sweep(frames.take(k + 1)) == sweep_of(first.start_angle, first.end_angle)
                + total_sweep(rest.take(k)));
        }
        lemma_batch_when_full(pending + first.data, next, rotations, rest, later);
        assert((pending + first.data) + all_points(rest) =~= pending + all_points(frames));
    }
}

/// Frames whose sweeps reach the wanted rotations with the last frame, and
/// not before, give exactly one batch, and it holds every point of theirs in
/// order. An aggregator that has given it stands as one that has seen
/// nothing: whatever follows is gathered from a covered angle of zero.
pub proof fn lemma_one_batch_per_rotation(
    rotations: nat,
    frames: Seq<FrameView>,
    later: Seq<FrameView>,
)
    requires
        frames.len() > 0,
        forall|k: int|
            0 < k < frames.len() ==> i128::MIN <= #[trigger] total_sweep(frames.take(k))
                < threshold(rotations),
        total_sweep(frames) >= threshold(rotations),
    ensures
        batches(Seq::empty(), 0, rotations, frames) == seq![all_points(frames)],
        batches(Seq::empty(), 0, rotations, frames + later) == seq![all_points(frames)] + batches(
            Seq::empty(),
            0,
            rotations,
            later,
        ),
{
    let nothing = Seq::<AngledScanLine>::empty();
    lemma_batch_when_full(nothing, 0, rotations, frames, later);
    lemma_batch_when_full(nothing, 0, rotations, frames, Seq::empty());
    assert(frames + Seq::<FrameView>::empty() =~= frames);
    assert(nothing + all_points(frames) =~= all_points(frames));
}

/// Frames that follow take no batch back: the batches of `frames` are the
/// first batches of `frames` with `more` after them.
pub proof fn lemma_batches_of_more_frames(
    pending: Seq<AngledScanLine>,
    covered: int,
    rotations: nat,
    frames: Seq<FrameView>,
    more: Seq<FrameView>,
)
    ensures
        batches(pending, covered, rotations, frames).is_prefix_of(
            batches(pending, covered, rotations, frames + more),
        ),
    decreases frames.len(),
{
    if frames.len() > 0 {
        let all = frames + more;
        let rest = frames.drop_first();
        assert(all.drop_first() =~= rest + more);
        if covered_with(covered, frames[0]) >= threshold(rotations) {
            let nothing = Seq::<AngledScanLine>::empty();
            lemma_batches_of_more_frames(nothing, 0, rotations, rest, more);
            let short = batches(nothing, 0, rotations, rest);
            let long = batches(nothing, 0, rotations, rest + more);
            let head = seq![pending + frames[0].data];
            assert forall|i: int| 0 <= i < (head + short).len() implies (head + short)[i] == (head
                + long)[i] by {
                if i > 0 {
                    assert(short[i - 1] == long[i - 1]);
                }
            }
        } else {
            lemma_batches_of_more_frames(
                pending + frames[0].data,
                covered_with(covered, frames[0]),
                rotations,
                rest,
                more,
            );
        }
    }
}

} // verus!
