//! Frames, from the driver's buffer to the one that is shown.
use vstd::prelude::*;

use crate::duration::Duration;
use crate::fourcc::FourCC;

verus! {

/// The driver's mark on a damaged frame (`V4L2_BUF_FLAG_ERROR`).
pub const BUF_FLAG_ERROR: u32 = 0x0000_0040;

/// Negotiated stream layout, as reported by the driver after `VIDIOC_S_FMT`.
#[derive(Debug, Clone, Copy, PartialEq, Eq, Structural)]
pub struct FrameLayout {
    pub width: u32,
    pub height: u32,
    pub fourcc: FourCC,
    /// Bytes per row, padding included.
    pub stride: u32,
    /// Total bytes per frame.
    pub size: u32,
    /// Whether the driver reports full-range (0..255) rather than limited-range (16..235) YUV.
    pub full_range: bool,
    /// Frames are variable-length bitstreams (MJPEG) rather than fixed-size pixel arrays.
    pub compressed: bool,
}

/// What `VIDIOC_DQBUF` fills in.
#[derive(Debug, Clone, Copy, PartialEq, Eq, Structural)]
pub struct RawBuffer {
    pub index: u32,
    pub sequence: u32,
    pub bytes_used: u32,
    pub flags: u32,
    pub seconds: u64,
    pub microseconds: u32,
}

/// A frame the driver has finished writing.
#[derive(Debug, Clone, Copy, PartialEq, Eq, Structural)]
pub struct DequeuedFrame {
    /// Which buffer it is in.
    pub index: u32,
    /// Driver sequence counter; gaps mean the driver dropped frames.
    pub sequence: u32,
    /// Bytes the driver wrote.
    pub bytes_used: u32,
    /// Driver timestamp on `CLOCK_MONOTONIC`.
    pub timestamp: Duration,
    /// The driver flagged this frame as damaged, typically USB packet loss, or wrote less than a
    /// whole frame. Rows not received keep whatever the buffer held before.
    pub error: bool,
}

/// Less than a whole frame of fixed size.
pub open spec fn short(layout: FrameLayout, bytes_used: u32) -> bool {
    !layout.compressed && bytes_used < layout.size
}

impl DequeuedFrame {
    /// The frame that a dequeued buffer holds.
    pub fn from_buffer(layout: &FrameLayout, buf: &RawBuffer) -> (r: DequeuedFrame)
        requires
            buf.microseconds * 1000 <= u32::MAX,
            buf.seconds + buf.microseconds * 1000 / 1_000_000_000 <= u64::MAX,
        ensures
            r.index == buf.index,
            r.sequence == buf.sequence,
            r.bytes_used == buf.bytes_used,
            r.timestamp.nanos == buf.seconds * 1_000_000_000 + buf.microseconds * 1000,
            r.error == (buf.flags & BUF_FLAG_ERROR != 0 || short(*layout, buf.bytes_used)),
            buf.flags & 0x40 != 0 ==> r.error,
            r.error ==> buf.flags & 0x40 != 0 || (!layout.compressed && buf.bytes_used
                < layout.size),
    {
        let short = !layout.compressed && buf.bytes_used < layout.size;
        DequeuedFrame {
            index: buf.index,
            sequence: buf.sequence,
            bytes_used: buf.bytes_used,
            timestamp: Duration::new(buf.seconds, buf.microseconds * 1000),
            error: buf.flags & BUF_FLAG_ERROR != 0 || short,
        }
    }

    /// Time elapsed at `now`, on the same clock, since the driver timestamped this frame.
    pub fn age(&self, now: Duration) -> (r: Duration)
        ensures
            r.nanos == if now.nanos >= self.timestamp.nanos {
                now.nanos - self.timestamp.nanos
            } else {
                0
            },
    {
        now.saturating_sub(self.timestamp)
    }
}

/// Keeps the newest of the frames that have arrived. Each frame that a newer one displaces goes
/// back to the driver.
pub struct Newest {
    pub latest: Option<DequeuedFrame>,
}

impl Newest {
    pub fn new() -> (r: Newest)
        ensures
            r.latest is None,
    {
        Newest { latest: None }
    }

    /// Takes in a further frame. Returns the index of the buffer to give back, if any.
    pub fn offer(&mut self, frame: DequeuedFrame) -> (r: Option<u32>)
        ensures
            final(self).latest == Some(frame),
            r == match old(self).latest {
                Some(prev) => Some(prev.index),
                None => None,
            },
    {
        let displaced = match self.latest {
            Some(prev) => Some(prev.index),
            None => None,
        };
        self.latest = Some(frame);
        displaced
    }
}

/// What is kept of frames in order of arrival.
pub open spec fn kept(frames: Seq<DequeuedFrame>) -> Option<DequeuedFrame> {
    if frames.len() == 0 {
        None
    } else {
        Some(frames.last())
    }
}

/// The buffers that go back: those of all frames but the last, in order of arrival.
pub open spec fn given_back(frames: Seq<DequeuedFrame>) -> Seq<u32> {
    if frames.len() == 0 {
        Seq::empty()
    } else {
        frames.drop_last().map_values(|f: DequeuedFrame| f.index)
    }
}

/// Takes the newest of the frames that are waiting, in order of arrival; the buffers of the older
/// ones go back to the driver. Nothing is taken where nothing has arrived.
pub fn take_latest(frames: &[DequeuedFrame]) -> (r: (Option<DequeuedFrame>, Vec<u32>))
    ensures
        r.0 == kept(frames@),
        r.1@ == given_back(frames@),
{
    let mut newest = Newest::new();
    let mut back: Vec<u32> = Vec::new();
    let mut i: usize = 0;
    while i < frames.len()
        invariant
            i <= frames.len(),
            newest.latest == kept(frames@.take(i as int)),
            back@ == given_back(frames@.take(i as int)),
        decreases frames.len() - i,
    {
        proof {
            assert(frames@.take(i + 1).drop_last() =~= frames@.take(i as int));
            let f = |f: DequeuedFrame| f.index;
            if i > 0 {
                assert(frames@.take(i as int) =~= frames@.take(i as int).drop_last().push(
                    frames@[i - 1],
                ));
                assert(frames@.take(i as int).map_values(f) =~= frames@.take(i as int).drop_last().map_values(f).push(
                    frames@[i - 1].index,
                ));
            } else {
                assert(frames@.take(0).map_values(f) =~= Seq::empty());
            }
        }
        if let Some(index) = newest.offer(frames[i]) {
            back.push(index);
        }
        i = i + 1;
    }
    proof {
        assert(frames@.take(frames.len() as int) =~= frames@);
    }
    (newest.latest, back)
}

/// Of the frames that wait, one is taken and every other one is given back.
pub proof fn one_is_kept_the_rest_go_back(frames: Seq<DequeuedFrame>)
    requires
        frames.len() > 0,
    ensures
        kept(frames) == Some(frames.last()),
        given_back(frames).len() == frames.len() - 1,
{
}

/// Offering one frame after another keeps the newest, and gives back exactly what is not kept:
/// one step of [`Newest::offer`] is one more frame.
pub proof fn newest_wins(frames: Seq<DequeuedFrame>, frame: DequeuedFrame)
    ensures
        kept(frames.push(frame)) == Some(frame),
        given_back(frames.push(frame)) == match kept(frames) {
            Some(prev) => given_back(frames).push(prev.index),
            None => given_back(frames),
        },
        given_back(frames.push(frame)).len() == frames.len(),
{
    assert(frames.push(frame).drop_last() =~= frames);
    let f = |f: DequeuedFrame| f.index;
    if frames.len() > 0 {
        assert(frames.map_values(f) =~= frames.drop_last().map_values(f).push(frames.last().index));
    } else {
        assert(frames.map_values(f) =~= Seq::empty());
    }
}

/// A frame of fixed size is short by a byte or more, never when it is whole; one that is compressed
/// is never short.
pub proof fn a_frame_is_short_by_its_size(layout: FrameLayout, bytes_used: u32)
    ensures
        layout.compressed ==> !short(layout, bytes_used),
        bytes_used >= layout.size ==> !short(layout, bytes_used),
        !layout.compressed && bytes_used < layout.size ==> short(layout, bytes_used),
{
}

/// The buffers that go back are those of the frames that came before the newest, one for each, in
/// order; nothing goes back and nothing is kept where nothing came.
pub proof fn each_older_frame_goes_back(frames: Seq<DequeuedFrame>, i: int)
    ensures
        frames.len() == 0 ==> kept(frames) is None && given_back(frames).len() == 0,
        frames.len() > 0 ==> kept(frames) == Some(frames[frames.len() - 1])
            && given_back(frames).len() + 1 == frames.len(),
        0 <= i < frames.len() - 1 ==> given_back(frames)[i] == frames[i].index,
{
}

} // verus!
