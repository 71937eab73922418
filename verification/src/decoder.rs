//! Finding frames in a stream of bytes.
//!
//! The spec functions say which frames a sequence of bytes holds. The
//! [`FrameDecoder`] finds them one byte at a time, so that whoever owns the
//! bytes decides how they are read.

use vstd::prelude::*;
use crate::frame::{
    assemble, frame_of, frame_size, is_frame, lemma_frame_shape, lemma_info_bounds, Frame,
    FrameView, FRAME_OVERHEAD, MAX_POINTS, POINT_SIZE, SYNC_BYTE,
};

verus! {

/// The number of bytes of `bytes` that stand before its first sync byte: all
/// of them where it holds none.
pub open spec fn sync_offset(bytes: Seq<u8>) -> nat
    decreases bytes.len(),
{
    if bytes.len() == 0 || bytes[0] == SYNC_BYTE {
        0
    } else {
        1 + sync_offset(bytes.skip(1))
    }
}

/// The first frame of `bytes` with the number of bytes read to its end, or
/// `None` where `bytes` ends before a frame is whole.
///
/// Bytes before the first sync byte are passed over. The frame then runs from
/// that sync byte as far as its info byte says, whatever the bytes hold.
pub open spec fn next_frame(bytes: Seq<u8>) -> Option<(FrameView, nat)> {
    let at = sync_offset(bytes) as int;
    if at + 2 <= bytes.len() && at + frame_size(bytes[at + 1]) <= bytes.len() {
        let end = at + frame_size(bytes[at + 1]);
        Some((frame_of(bytes.subrange(at, end)), end as nat))
    } else {
        None
    }
}

/// The frames of `bytes` in order, up to the first that `bytes` does not hold
/// whole.
pub open spec fn all_frames(bytes: Seq<u8>) -> Seq<FrameView>
    decreases bytes.len(),
{
    match next_frame(bytes) {
        Some((frame, used)) => seq![frame] + all_frames(bytes.skip(used as int)),
        None => Seq::empty(),
    }
}

/// `pending` is the start of a frame that is not whole yet, or nothing.
pub open spec fn is_partial(pending: Seq<u8>) -> bool {
    pending.len() > 0 ==> {
        &&& pending[0] == SYNC_BYTE
        &&& pending.len() >= 2 ==> pending.len() < frame_size(pending[1])
    }
}

/// What one more byte does to a decoder that holds `pending`: the bytes it
/// holds afterwards, and the frame that the byte completed, if it did.
///
/// Outside a frame every byte but the sync byte is dropped. Inside one, each
/// byte is kept until the frame is as long as its info byte says.
pub open spec fn step(pending: Seq<u8>, byte: u8) -> (Seq<u8>, Option<FrameView>) {
    if pending.len() == 0 && byte != SYNC_BYTE {
        (Seq::empty(), None)
    } else if is_frame(pending.push(byte)) {
        (Seq::empty(), Some(frame_of(pending.push(byte))))
    } else {
        (pending.push(byte), None)
    }
}

/// What a decoder that holds `pending` makes of `bytes`, fed one by one: the
/// bytes it holds afterwards, and the frames it gave on the way.
pub open spec fn feed_all(pending: Seq<u8>, bytes: Seq<u8>) -> (Seq<u8>, Seq<FrameView>)
    decreases bytes.len(),
{
    if bytes.len() == 0 {
        (pending, Seq::empty())
    } else {
        let (held, given) = step(pending, bytes[0]);
        let (left, rest) = feed_all(held, bytes.drop_first());
        match given {
            Some(frame) => (left, seq![frame] + rest),
            None => (left, rest),
        }
    }
}

/// `at` is where the first sync byte of `bytes` stands, or its length where it
/// holds none.
pub proof fn lemma_sync_offset(bytes: Seq<u8>, at: int)
    requires
        0 <= at <= bytes.len(),
        forall|i: int| 0 <= i < at ==> bytes[i] != SYNC_BYTE,
        at < bytes.len() ==> bytes[at] == SYNC_BYTE,
    ensures
        sync_offset(bytes) == at,
    decreases bytes.len(),
{
    if at > 0 {
        lemma_sync_offset(bytes.skip(1), at - 1);
    }
}

/// The first sync byte of `bytes` stands at `sync_offset(bytes)`, and none
/// before it.
pub proof fn lemma_sync_offset_is_first(bytes: Seq<u8>)
    ensures
        sync_offset(bytes) <= bytes.len(),
        forall|i: int| 0 <= i < sync_offset(bytes) ==> bytes[i] != SYNC_BYTE,
        sync_offset(bytes) < bytes.len() ==> bytes[sync_offset(bytes) as int] == SYNC_BYTE,
    decreases bytes.len(),
{
    if bytes.len() > 0 && bytes[0] != SYNC_BYTE {
        let rest = bytes.skip(1);
        lemma_sync_offset_is_first(rest);
        assert forall|i: int| 0 <= i < sync_offset(bytes) implies bytes[i] != SYNC_BYTE by {
            if i > 0 {
                assert(bytes[i] == rest[i - 1]);
            }
        }
    }
}

/// Bytes that hold no sync byte, put before `bytes`, change neither the frame
/// that is decoded first nor any after it: only the count of bytes read grows
/// by their number.
pub proof fn lemma_resync(noise: Seq<u8>, bytes: Seq<u8>)
    requires
        forall|i: int| 0 <= i < noise.len() ==> noise[i] != SYNC_BYTE,
    ensures
        sync_offset(noise + bytes) == noise.len() + sync_offset(bytes),
        next_frame(noise + bytes) == match next_frame(bytes) {
            Some((frame, used)) => Some((frame, used + noise.len())),
            None => None,
        },
        all_frames(noise + bytes) == all_frames(bytes),
{
    let joined = noise + bytes;
    let shift = noise.len() as int;
    let at = sync_offset(bytes) as int;
    lemma_sync_offset_is_first(bytes);
    assert forall|i: int| 0 <= i < shift + at implies joined[i] != SYNC_BYTE by {
        if i >= shift {
            assert(joined[i] == bytes[i - shift]);
        }
    }
    lemma_sync_offset(joined, shift + at);
    if at + 2 <= bytes.len() {
        let end = at + frame_size(bytes[at + 1]);
        if end <= bytes.len() {
            assert(joined.subrange(shift + at, shift + end) =~= bytes.subrange(at, end));
            assert(joined.skip(shift + end) =~= bytes.skip(end));
        }
    }
}

/// A frame never holds more than 31 points, whatever the bytes are: its
/// length is five bits of one byte, and decoding reads that many points and
/// the eleven bytes around them, no more.
pub proof fn lemma_length_cap(bytes: Seq<u8>)
    ensures
        next_frame(bytes) matches Some((frame, used)) ==> {
            &&& frame.len <= MAX_POINTS
            &&& frame.data.len() == frame.len
            &&& used == sync_offset(bytes) + FRAME_OVERHEAD + POINT_SIZE * frame.len
            &&& frame.header == SYNC_BYTE
            &&& frame.message_type <= 7
        },
{
    lemma_sync_offset_is_first(bytes);
    if let Some((_, used)) = next_frame(bytes) {
        let at = sync_offset(bytes) as int;
        let frame = bytes.subrange(at, used as int);
        assert(frame[0] == bytes[at] && frame[1] == bytes[at + 1]);
        lemma_frame_shape(frame);
    }
}

/// Input that goes on after `bytes` takes nothing back: every frame that
/// `bytes` holds whole is decoded from the longer input too, in the same
/// place. So a stream that is cut short gives the frames that were whole when
/// it ended, and then ends.
pub proof fn lemma_frames_of_longer_input(bytes: Seq<u8>, more: Seq<u8>)
    ensures
        next_frame(bytes) is Some ==> next_frame(bytes + more) == next_frame(bytes),
        all_frames(bytes).is_prefix_of(all_frames(bytes + more)),
    decreases bytes.len(),
{
    let longer = bytes + more;
    let at = sync_offset(bytes) as int;
    lemma_sync_offset_is_first(bytes);
    if let Some((frame, used)) = next_frame(bytes) {
        assert forall|i: int| 0 <= i < at implies longer[i] != SYNC_BYTE by {
            assert(longer[i] == bytes[i]);
        }
        lemma_sync_offset(longer, at);
        assert(longer.subrange(at, used as int) =~= bytes.subrange(at, used as int));
        assert(longer.skip(used as int) =~= bytes.skip(used as int) + more);
        lemma_frames_of_longer_input(bytes.skip(used as int), more);
        let tail = all_frames(bytes.skip(used as int));
        let longer_tail = all_frames(bytes.skip(used as int) + more);
        assert forall|i: int| 0 <= i < all_frames(bytes).len() implies all_frames(bytes)[i]
            == all_frames(longer)[i] by {
            if i > 0 {
                assert(tail[i - 1] == longer_tail[i - 1]);
            }
        }
    }
}

/// A decoder fed byte by byte gives the frames that the bytes hold, as
/// [`all_frames`] lists them: those of what it held with `bytes` after it,
/// and so, from a fresh decoder, those of `bytes`.
pub proof fn lemma_decoder_gives_all_frames(pending: Seq<u8>, bytes: Seq<u8>)
    requires
        is_partial(pending),
    ensures
        feed_all(pending, bytes).1 == all_frames(pending + bytes),
        is_partial(feed_all(pending, bytes).0),
    decreases bytes.len(),
{
    let input = pending + bytes;
    if bytes.len() == 0 {
        lemma_partial_holds_no_frame(pending);
    } else {
        let byte = bytes[0];
        let rest = bytes.drop_first();
        let grown = pending.push(byte);
        assert(input =~= grown + rest);
        if pending.len() == 0 && byte != SYNC_BYTE {
            lemma_resync(grown, rest);
            lemma_decoder_gives_all_frames(Seq::empty(), rest);
        } else if is_frame(grown) {
            assert(input.subrange(0, grown.len() as int) =~= grown);
            assert(input.skip(grown.len() as int) =~= rest);
            lemma_decoder_gives_all_frames(Seq::empty(), rest);
        } else {
            if grown.len() >= 2 {
                lemma_info_bounds(grown[1]);
            }
            lemma_decoder_gives_all_frames(grown, rest);
        }
    }
}

/// The start of a frame that is not whole holds no frame.
pub proof fn lemma_partial_holds_no_frame(pending: Seq<u8>)
    requires
        is_partial(pending),
    ensures
        next_frame(pending) is None,
        all_frames(pending) == Seq::<FrameView>::empty(),
{
}

/// Finds frames in bytes that arrive one at a time.
pub struct FrameDecoder {
    buf: Vec<u8>,
}

impl View for FrameDecoder {
    type V = Seq<u8>;

    /// The bytes of the frame that has begun and is not whole yet.
    closed spec fn view(&self) -> Seq<u8> {
        self.buf@
    }
}

impl FrameDecoder {
    #[verifier::type_invariant]
    spec fn inv(&self) -> bool {
        is_partial(self.buf@)
    }

    /// A decoder that stands outside any frame.
    pub fn new() -> (decoder: FrameDecoder)
        ensures
            decoder@.len() == 0,
    {
        FrameDecoder { buf: Vec::new() }
    }

    /// Takes the next byte of the stream, and returns the frame that it
    /// completes, if it completes one. A decoder never holds a whole frame: it
    /// hands each one out with the byte that completes it.
    pub fn feed(&mut self, byte: u8) -> (out: Option<Frame>)
        ensures
            is_partial(old(self)@),
            is_partial(final(self)@),
            final(self)@ == step(old(self)@, byte).0,
            match step(old(self)@, byte).1 {
                Some(expected) => out matches Some(frame) && frame@ == expected,
                None => out is None,
            },
    {
        proof {
            use_type_invariant(&*self);
        }
        if self.buf.len() == 0 && byte != SYNC_BYTE {
            return None;
        }
        let mut grown: Vec<u8> = Vec::new();
        core::mem::swap(&mut grown, &mut self.buf);
        grown.push(byte);
        proof {
            if grown.len() >= 2 {
                lemma_info_bounds(grown[1]);
            }
        }
        if grown.len() >= 2 && grown.len() == FRAME_OVERHEAD + POINT_SIZE * ((grown[1] & 0x1f) as usize) {
            Some(assemble(&grown))
        } else {
            core::mem::swap(&mut grown, &mut self.buf);
            None
        }
    }
}

} // verus!
