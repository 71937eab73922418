//! The sensor as a source of frames, of points and of whole rotations.

use vstd::prelude::*;
use crate::decoder::{
    all_frames, is_partial, lemma_frames_of_longer_input, lemma_sync_offset,
    lemma_sync_offset_is_first, next_frame, sync_offset, FrameDecoder,
};
use crate::frame::{
    all_points, lemma_points_of_more_frames, AngledScanLine, Frame, FrameView, SYNC_BYTE,
};
use crate::rotation::{batches, lemma_batches_of_more_frames, RotationAggregator};

verus! {

/// Why a frame could not be read.
#[derive(Debug, Clone, Copy, PartialEq, Eq)]
pub enum TransportError {
    /// The input ended before a frame was whole.
    EndOfInput,
}

/// A decoder bound to the bytes that a sensor sent.
pub struct D300 {
    bytes: Vec<u8>,
    pos: usize,
}

impl D300 {
    #[verifier::type_invariant]
    spec fn inv(&self) -> bool {
        self.pos <= self.bytes.len()
    }

    /// The bytes that have not been read yet.
    pub closed spec fn unread(&self) -> Seq<u8> {
        self.bytes@.skip(self.pos as int)
    }

    /// Binds a decoder to `bytes`.
    pub fn new(bytes: Vec<u8>) -> (lidar: D300)
        ensures
            lidar.unread() == bytes@,
    {
        D300 { bytes, pos: 0 }
    }

    /// Reads one frame: passes over the bytes before the next sync byte, then
    /// decodes the frame that it opens.
    ///
    /// Where the input ends first, the rest of it is used up and no frame is
    /// returned, not even in part.
    pub fn read_frame(&mut self) -> (result: Result<Frame, TransportError>)
        ensures
            match next_frame(old(self).unread()) {
                Some((expected, used)) => {
                    &&& result matches Ok(frame) && frame@ == expected
                    &&& final(self).unread() == old(self).unread().skip(used as int)
                },
                None => {
                    &&& result == Err::<Frame, TransportError>(TransportError::EndOfInput)
                    &&& final(self).unread().len() == 0
                },
            },
    {
        proof {
            use_type_invariant(&*self);
        }
        let ghost input = self.unread();
        let ghost start = self.pos as int;
        let mut decoder = FrameDecoder::new();
        while self.pos < self.bytes.len()
            invariant
                self.bytes@ == old(self).bytes@,
                start == old(self).pos,
                start <= self.pos <= self.bytes.len(),
                input == self.bytes@.skip(start),
                is_partial(decoder@),
                decoder@.len() == 0 ==> forall|j: int|
                    0 <= j < self.pos - start ==> input[j] != SYNC_BYTE,
                decoder@.len() > 0 ==> {
                    &&& sync_offset(input) < self.pos - start
                    &&& decoder@ == input.subrange(sync_offset(input) as int, self.pos - start)
                },
            decreases self.bytes.len() - self.pos,
        {
            let ghost seen = self.pos - start;
            let ghost pending = decoder@;
            let byte: u8 = self.bytes[self.pos];
            self.pos += 1;
            let fed = decoder.feed(byte);
            proof {
                if pending.len() == 0 {
                    if byte == SYNC_BYTE {
                        lemma_sync_offset(input, seen);
                    }
                } else {
                    assert(pending.push(byte) =~= input.subrange(
                        sync_offset(input) as int,
                        seen + 1,
                    ));
                }
            }
            if let Some(frame) = fed {
                return Ok(frame);
            }
        }
        proof {
            lemma_sync_offset_is_first(input);
        }
        Err(TransportError::EndOfInput)
    }

    /// The frames that are left to read, as a sequence to be drawn from.
    pub fn as_frame_stream(self) -> (stream: FrameStream)
        ensures
            stream.remaining() == all_frames(self.unread()),
    {
        FrameStream { source: self }
    }

    /// The points that are left to read, as a sequence to be drawn from.
    pub fn as_scan_line_stream(self) -> (stream: ScanLineStream)
        ensures
            stream.remaining() == all_points(all_frames(self.unread())),
    {
        ScanLineStream { frames: self.as_frame_stream(), queue: PointQueue::new() }
    }

    /// The points that are left to read, in batches of `rotations` turns of
    /// the sensor.
    pub fn frame_in(self, rotations: usize) -> (stream: RotationStream)
        ensures
            stream.remaining() == batches(
                Seq::empty(),
                0,
                rotations as nat,
                all_frames(self.unread()),
            ),
    {
        RotationStream {
            frames: self.as_frame_stream(),
            aggregator: RotationAggregator::new(rotations),
        }
    }
}

/// The frames of a sensor, one after the other, up to the end of the input.
pub struct FrameStream {
    source: D300,
}

impl FrameStream {
    /// The frames that the stream has yet to give.
    pub closed spec fn remaining(&self) -> Seq<FrameView> {
        all_frames(self.source.unread())
    }

    /// The next frame, or `None` once the input holds no further whole frame.
    /// That the input ended is not reported as an error, and a stream that has
    /// ended stays so.
    pub fn next(&mut self) -> (out: Option<Frame>)
        ensures
            match out {
                Some(frame) => {
                    &&& old(self).remaining().len() > 0
                    &&& frame@ == old(self).remaining()[0]
                    &&& final(self).remaining() == old(self).remaining().drop_first()
                },
                None => {
                    &&& old(self).remaining().len() == 0
                    &&& final(self).remaining().len() == 0
                },
            },
    {
        match self.source.read_frame() {
            Ok(frame) => Some(frame),
            Err(_) => None,
        }
    }
}

/// The points of one frame that have not been handed out yet.
struct PointQueue {
    items: Vec<AngledScanLine>,
    next: usize,
}

impl PointQueue {
    #[verifier::type_invariant]
    spec fn inv(&self) -> bool {
        self.next <= self.items.len()
    }

    spec fn rest(&self) -> Seq<AngledScanLine> {
        self.items@.skip(self.next as int)
    }

    fn new() -> (queue: PointQueue)
        ensures
            queue.rest().len() == 0,
    {
        PointQueue { items: Vec::new(), next: 0 }
    }

    fn refill(&mut self, items: Vec<AngledScanLine>)
        ensures
            final(self).rest() == items@,
    {
        self.next = 0;
        self.items = items;
    }

    fn pop(&mut self) -> (out: Option<AngledScanLine>)
        ensures
            match out {
                Some(point) => {
                    &&& old(self).rest().len() > 0
                    &&& point == old(self).rest()[0]
                    &&& final(self).rest() == old(self).rest().drop_first()
                },
                None => old(self).rest().len() == 0 && final(self).rest().len() == 0,
            },
    {
        proof {
            use_type_invariant(&*self);
        }
        if self.next < self.items.len() {
            let point = self.items[self.next];
            self.next += 1;
            Some(point)
        } else {
            None
        }
    }
}

/// The points of a sensor, one after the other, up to the end of the input.
pub struct ScanLineStream {
    frames: FrameStream,
    queue: PointQueue,
}

impl ScanLineStream {
    /// The points that the stream has yet to give.
    pub closed spec fn remaining(&self) -> Seq<AngledScanLine> {
        self.queue.rest() + all_points(self.frames.remaining())
    }

    /// The next point, or `None` once the input holds no further whole frame.
    /// Frames without points are passed over.
    pub fn next(&mut self) -> (out: Option<AngledScanLine>)
        ensures
            match out {
                Some(point) => {
                    &&& old(self).remaining().len() > 0
                    &&& point == old(self).remaining()[0]
                    &&& final(self).remaining() == old(self).remaining().drop_first()
                },
                None => {
                    &&& old(self).remaining().len() == 0
                    &&& final(self).remaining().len() == 0
                },
            },
    {
        loop
            invariant
                self.remaining() == old(self).remaining(),
            decreases self.frames.remaining().len(),
        {
            if let Some(point) = self.queue.pop() {
                return Some(point);
            }
            match self.frames.next() {
                Some(frame) => self.queue.refill(frame.data),
                None => return None,
            }
        }
    }
}

/// The points of a sensor in batches of whole rotations, up to the end of the
/// input. The points gathered after the last batch are never given.
pub struct RotationStream {
    frames: FrameStream,
    aggregator: RotationAggregator,
}

impl RotationStream {
    /// The batches that the stream has yet to give.
    pub closed spec fn remaining(&self) -> Seq<Seq<AngledScanLine>> {
        batches(
            self.aggregator.pending(),
            self.aggregator.covered(),
            self.aggregator.rotations(),
            self.frames.remaining(),
        )
    }

    /// The next batch, or `None` once the input ends before another batch is
    /// full.
    pub fn next(&mut self) -> (out: Option<Vec<AngledScanLine>>)
        ensures
            match out {
                Some(batch) => {
                    &&& old(self).remaining().len() > 0
                    &&& batch@ == old(self).remaining()[0]
                    &&& final(self).remaining() == old(self).remaining().drop_first()
                },
                None => {
                    &&& old(self).remaining().len() == 0
                    &&& final(self).remaining().len() == 0
                },
            },
    {
        loop
            invariant
                self.remaining() == old(self).remaining(),
            decreases self.frames.remaining().len(),
        {
            match self.frames.next() {
                Some(frame) => {
                    if let Some(batch) = self.aggregator.push(frame) {
                        assert(self.aggregator.pending() =~= Seq::empty());
                        return Some(batch);
                    }
                },
                None => {
                    return None;
                },
            }
        }
    }
}

/// Where the input ends, the three streams end, and what they gave until
/// then is what they would have given had the input gone on: the frames, the
/// points and the batches of `bytes` are the first of those of `bytes` with
/// `more` after it.
pub proof fn lemma_streams_end_with_input(bytes: Seq<u8>, more: Seq<u8>, rotations: nat)
    ensures
        all_frames(bytes).is_prefix_of(all_frames(bytes + more)),
        all_points(all_frames(bytes)).is_prefix_of(all_points(all_frames(bytes + more))),
        batches(Seq::empty(), 0, rotations, all_frames(bytes)).is_prefix_of(
            batches(Seq::empty(), 0, rotations, all_frames(bytes + more)),
        ),
{
    let short = all_frames(bytes);
    let long = all_frames(bytes + more);
    lemma_frames_of_longer_input(bytes, more);
    let extra = long.skip(short.len() as int);
    assert(long =~= short + extra);
    lemma_points_of_more_frames(short, extra);
    lemma_batches_of_more_frames(Seq::empty(), 0, rotations, short, extra);
}

} // verus!
