//! Frames and their layout on the wire.
//!
//! ```text
//! byte 0       sync, 0x54
//! byte 1       bits 7..5 message type, bits 4..0 number of points
//! bytes 2-3    speed
//! bytes 4-5    start angle, hundredths of a degree
//! bytes 6..    the points, three bytes each: distance (two), intensity (one)
//! 2 bytes      end angle, hundredths of a degree
//! 2 bytes      timestamp
//! 1 byte       checksum, carried along and not interpreted
//! ```
//!
//! Values of two bytes have the low byte first.

use vstd::prelude::*;
use crate::angle::{angle_at, lemma_interpolation, Angle};

verus! {

/// The byte that opens every frame.
pub const SYNC_BYTE: u8 = 0x54;

/// The most points a frame can carry: what five bits can count.
pub const MAX_POINTS: usize = 31;

/// Bytes of a frame that carries no point.
pub const FRAME_OVERHEAD: usize = 11;

/// Bytes of one point on the wire.
pub const POINT_SIZE: usize = 3;

/// One sample as it stands on the wire, before it has an angle.
#[derive(Debug, Clone, Copy, PartialEq, Eq)]
pub struct ScanLine {
    pub distance: u16,
    pub intensity: u8,
}

/// One sample together with the angle at which it was taken.
#[derive(Debug, Clone, Copy, PartialEq, Eq)]
pub struct AngledScanLine {
    pub distance: usize,
    pub intensity: usize,
    pub angle: Angle,
}

/// One decoded frame. Angles are in hundredths of a degree, as on the wire.
#[derive(Debug, PartialEq, Eq)]
pub struct Frame {
    pub header: u8,
    pub message_type: u8,
    pub len: u8,
    pub speed: u16,
    pub start_angle: u16,
    pub data: Vec<AngledScanLine>,
    pub end_angle: u16,
    pub ts: u16,
    pub crc: u8,
}

/// What a [`Frame`] holds, with its points as a sequence.
pub struct FrameView {
    pub header: u8,
    pub message_type: u8,
    pub len: u8,
    pub speed: u16,
    pub start_angle: u16,
    pub data: Seq<AngledScanLine>,
    pub end_angle: u16,
    pub ts: u16,
    pub crc: u8,
}

impl View for Frame {
    type V = FrameView;

    open spec fn view(&self) -> FrameView {
        FrameView {
            header: self.header,
            message_type: self.message_type,
            len: self.len,
            speed: self.speed,
            start_angle: self.start_angle,
            data: self.data@,
            end_angle: self.end_angle,
            ts: self.ts,
            crc: self.crc,
        }
    }
}

impl ScanLine {
    /// The sample with `angle` attached.
    pub open spec fn spec_at_angle(self, angle: Angle) -> AngledScanLine {
        AngledScanLine {
            distance: self.distance as usize,
            intensity: self.intensity as usize,
            angle,
        }
    }

    /// Attaches `angle` to the sample.
    #[verifier::when_used_as_spec(spec_at_angle)]
    pub fn at_angle(self, angle: Angle) -> (point: AngledScanLine)
        ensures
            point == self.spec_at_angle(angle),
    {
        AngledScanLine {
            distance: self.distance as usize,
            intensity: self.intensity as usize,
            angle,
        }
    }
}

/// The value of two bytes, low byte first.
pub open spec fn u16_le(lo: u8, hi: u8) -> u16 {
    (lo + 256 * hi) as u16
}

/// The number of points that the info byte announces: its low five bits.
pub open spec fn point_count(info: u8) -> nat {
    (info & 0x1f) as nat
}

/// The message type that the info byte carries: its high three bits.
pub open spec fn message_type(info: u8) -> u8 {
    info >> 5
}

/// The length in bytes of a frame whose info byte is `info`.
pub open spec fn frame_size(info: u8) -> nat {
    11 + 3 * point_count(info)
}

/// `frame` is one whole frame and nothing more: it opens with the sync byte
/// and is as long as its info byte says.
pub open spec fn is_frame(frame: Seq<u8>) -> bool {
    &&& frame.len() >= 2
    &&& frame[0] == SYNC_BYTE
    &&& frame.len() == frame_size(frame[1])
}

/// Point `index` of `frame` as it stands on the wire.
pub open spec fn raw_point(frame: Seq<u8>, index: int) -> ScanLine {
    ScanLine {
        distance: u16_le(frame[6 + 3 * index], frame[7 + 3 * index]),
        intensity: frame[8 + 3 * index],
    }
}

/// The start angle of `frame`.
pub open spec fn start_angle(frame: Seq<u8>) -> u16 {
    u16_le(frame[4], frame[5])
}

/// The end angle of `frame`, which follows its points.
pub open spec fn end_angle(frame: Seq<u8>) -> u16 {
    let n = point_count(frame[1]) as int;
    u16_le(frame[6 + 3 * n], frame[7 + 3 * n])
}

/// Point `index` of `frame` with its angle, which lies between the frame's
/// start and end angle as far along as the point lies among the points.
pub open spec fn angled_point(frame: Seq<u8>, index: int) -> AngledScanLine {
    raw_point(frame, index).spec_at_angle(
        angle_at(start_angle(frame), end_angle(frame), point_count(frame[1]), index as nat),
    )
}

/// The frame that the bytes of `frame` spell out.
pub open spec fn frame_of(frame: Seq<u8>) -> FrameView
    recommends
        is_frame(frame),
{
    let n = point_count(frame[1]) as int;
    FrameView {
        header: frame[0],
        message_type: message_type(frame[1]),
        len: point_count(frame[1]) as u8,
        speed: u16_le(frame[2], frame[3]),
        start_angle: start_angle(frame),
        data: Seq::new(n as nat, |i: int| angled_point(frame, i)),
        end_angle: end_angle(frame),
        ts: u16_le(frame[8 + 3 * n], frame[9 + 3 * n]),
        crc: frame[10 + 3 * n],
    }
}

/// The points of `frames`, frame after frame, each frame's points in their
/// order.
pub open spec fn all_points(frames: Seq<FrameView>) -> Seq<AngledScanLine>
    decreases frames.len(),
{
    if frames.len() == 0 {
        Seq::empty()
    } else {
        frames[0].data + all_points(frames.drop_first())
    }
}

/// The points of frames put one after the other are the points of the first
/// followed by the points of the second.
pub proof fn lemma_points_of_more_frames(frames: Seq<FrameView>, more: Seq<FrameView>)
    ensures
        all_points(frames + more) == all_points(frames) + all_points(more),
    decreases frames.len(),
{
    if frames.len() == 0 {
        assert(frames + more =~= more);
    } else {
        let all = frames + more;
        assert(all[0] == frames[0]);
        assert(all.drop_first() =~= frames.drop_first() + more);
        lemma_points_of_more_frames(frames.drop_first(), more);
    }
}

/// In a decoded frame of two points or more, the first point stands exactly
/// at the start angle and the last exactly at the end angle. All its angles
/// have the denominator `100 * (len - 1)`, and from each point to the next the
/// numerator grows by `end_angle - start_angle`: the points are
/// `(end_angle - start_angle) / (len - 1)` hundredths of a degree apart.
pub proof fn lemma_frame_angles(bytes: Seq<u8>, index: int)
    requires
        is_frame(bytes),
        0 <= index,
        index + 1 < point_count(bytes[1]),
    ensures
        ({
            let frame = frame_of(bytes);
            &&& frame.data[0].angle.is_hundredths(frame.start_angle as int)
            &&& frame.data[frame.len - 1].angle.is_hundredths(frame.end_angle as int)
            &&& frame.data[index].angle.denom == 100 * (frame.len - 1)
            &&& frame.data[index + 1].angle.denom == 100 * (frame.len - 1)
            &&& frame.data[index + 1].angle.numer - frame.data[index].angle.numer
                == frame.end_angle - frame.start_angle
        }),
{
    lemma_info_bounds(bytes[1]);
    lemma_interpolation(
        start_angle(bytes),
        end_angle(bytes),
        point_count(bytes[1]),
        index as nat,
    );
}

/// A decoded frame opens with the sync byte and holds as many points as its
/// length says, 31 at most, whatever its bytes are; on the wire it takes the
/// eleven bytes around the points and three for each.
pub proof fn lemma_frame_shape(bytes: Seq<u8>)
    requires
        is_frame(bytes),
    ensures
        frame_of(bytes).header == SYNC_BYTE,
        frame_of(bytes).message_type <= 7,
        frame_of(bytes).len <= MAX_POINTS,
        frame_of(bytes).data.len() == frame_of(bytes).len,
        bytes.len() == FRAME_OVERHEAD + POINT_SIZE * frame_of(bytes).len,
{
    lemma_info_bounds(bytes[1]);
}

/// Five bits count to 31 and three bits to 7, whatever the info byte holds.
pub proof fn lemma_info_bounds(info: u8)
    ensures
        point_count(info) <= MAX_POINTS,
        message_type(info) <= 7,
        frame_size(info) <= FRAME_OVERHEAD + POINT_SIZE * MAX_POINTS,
{
    assert(info & 0x1f <= 31) by (bit_vector);
    assert(info >> 5 <= 7) by (bit_vector);
}

/// Reads two bytes of `buf` at `at` as one value, low byte first.
fn read_u16_le(buf: &Vec<u8>, at: usize) -> (value: u16)
    requires
        at + 1 < buf.len(),
    ensures
        value == u16_le(buf[at as int], buf[at + 1]),
{
    let lo: u16 = buf[at] as u16;
    let hi: u16 = buf[at + 1] as u16;
    lo + 256 * hi
}

/// Decodes the frame that `buf` holds.
pub(crate) fn assemble(buf: &Vec<u8>) -> (frame: Frame)
    requires
        is_frame(buf@),
    ensures
        frame@ == frame_of(buf@),
{
    let info: u8 = buf[1];
    proof {
        lemma_info_bounds(info);
    }
    let len: u8 = info & 0x1f;
    let n: usize = len as usize;
    let start: u16 = read_u16_le(buf, 4);
    let end: u16 = read_u16_le(buf, 6 + 3 * n);
    let mut data: Vec<AngledScanLine> = Vec::with_capacity(n);
    let mut i: usize = 0;
    while i < n
        invariant
            is_frame(buf@),
            n == point_count(buf[1]),
            n == len,
            n <= MAX_POINTS,
            start == start_angle(buf@),
            end == end_angle(buf@),
            i <= n,
            data@ == Seq::new(i as nat, |j: int| angled_point(buf@, j)),
        decreases n - i,
    {
        let raw = ScanLine { distance: read_u16_le(buf, 6 + 3 * i), intensity: buf[8 + 3 * i] };
        let angle = Angle::interpolate(start, end, len, i as u8);
        data.push(raw.at_angle(angle));
        i += 1;
    }
    Frame {
        header: buf[0],
        message_type: info >> 5,
        len,
        speed: read_u16_le(buf, 2),
        start_angle: start,
        data,
        end_angle: end,
        ts: read_u16_le(buf, 8 + 3 * n),
        crc: buf[10 + 3 * n],
    }
}

} // verus!
