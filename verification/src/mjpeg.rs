//! MJPEG: the newest JPEG frame is decoded into RGBA, buffers are used again.
//!
//! Only used when the camera's chosen mode is compressed. The V4L2 buffer goes back to the driver
//! the moment decoding finishes, so buffer depth is independent of GPU pacing.
use vstd::prelude::*;

use crate::capture::frame::{self, take_latest, DequeuedFrame};
use crate::capture::stream::{self, filled};
use crate::duration::Duration;
use crate::jpeg::{self, check_layout, check_scales};

verus! {

/// How many buffers the consumer's side keeps for reuse.
pub const POOL_LIMIT: usize = 4;

/// How many failures to decode are worth a warning.
pub const WARNINGS: u64 = 3;

/// How many bytes a frame has at most: the decoder counts those between markers in 31 bits.
pub const LONGEST: usize = 0x7fff_ffff;

/// A decoded frame, tightly packed RGBA.
#[derive(Debug)]
pub struct DecodedFrame {
    pub rgba: Vec<u8>,
    pub sequence: u32,
    pub timestamp: Duration,
    pub decode_time: Duration,
}

/// Why a frame could not be decoded.
#[derive(Debug, Clone, Copy, PartialEq, Eq, Structural)]
pub enum DecodeFailure {
    /// The headers make no sense, or there is no end to them.
    Headers,
    /// The frame is not of the stream's size.
    Size { width: u16, height: u16 },
    /// The frame is laid out in a way that the decoder cannot be given.
    Layout,
    /// The frame's coefficients may be scaled beyond what the decoder can count.
    Scales,
    /// The pixels could not be decoded.
    Pixels,
}

/// The bookkeeping of the decode thread.
#[derive(Debug)]
pub struct Decoder {
    pub width: u32,
    pub height: u32,
    /// Buffers to use again.
    pub pool: Vec<Vec<u8>>,
    /// The thread is to end.
    pub stop: bool,
    /// Frames that a newer one displaced, or that the consumer had no room for.
    pub skipped: u64,
    pub failed: u64,
}

/// What the decode thread does next.
#[derive(Debug)]
pub enum DecodeStep {
    /// Wait for a frame.
    Wait,
    /// Hand the frame to the consumer.
    Send(DecodedFrame),
    /// The frame could not be decoded; say so if asked to, then go on.
    Failed { warn: bool },
    /// Leave the loop.
    Stop,
}

/// What became of a decoded frame that was handed to the consumer.
#[derive(Debug)]
pub enum Delivery {
    Sent,
    /// The consumer is behind; the frame comes back.
    Full(DecodedFrame),
    Disconnected,
}

/// The size that `decode_headers` of `zune_jpeg` finds in the headers of a JPEG image; nothing
/// where it refuses them.
pub uninterp spec fn jpeg_size(bytes: Seq<u8>) -> Option<(u16, u16)>;

/// Whether `decode_into` of `zune_jpeg` decodes a JPEG image into a buffer, and what the buffer
/// holds afterwards; `before` is what it held.
pub uninterp spec fn jpeg_decoded(bytes: Seq<u8>, before: Seq<u8>) -> (bool, Seq<u8>);

/// Calls `zune_jpeg`'s `decode_headers` and reads the size that it found. Both are a function of
/// the bytes alone. Bytes between two markers are counted in 31 bits: longer images are left out.
#[verifier::external_body]
fn decode_headers(bytes: &[u8]) -> (r: Option<(u16, u16)>)
    requires
        bytes@.len() <= LONGEST,
    ensures
        r == jpeg_size(bytes@),
{
    let options = zune_jpeg::zune_core::options::DecoderOptions::default()
        .jpeg_set_out_colorspace(zune_jpeg::zune_core::colorspace::ColorSpace::RGBA)
        .set_strict_mode(false);
    let input = zune_jpeg::zune_core::bytestream::ZCursor::new(bytes);
    let mut decoder = zune_jpeg::JpegDecoder::new_with_options(input, options);
    decoder.decode_headers().ok()?;
    decoder.info().map(|info| (info.width, info.height))
}

/// Calls `zune_jpeg`'s `decode_into`. Whether it succeeds and what it leaves in the buffer are a
/// function of the bytes and of what the buffer held: its scalar and its vector code are the same
/// integer arithmetic. The buffer keeps its length.
///
/// It panics on an image whose first component is sampled more coarsely than another, unless each
/// scan of a frame that is not progressive holds all components, and on a progressive image of one
/// or two components that is announced with four colours. Where arithmetic is checked for overflow
/// it panics, besides, when the first coefficient of a block goes beyond 32 bits in being scaled,
/// or the bytes between two markers are more than 31 bits count. Images on which it could are left
/// out.
#[verifier::external_body]
fn decode_into(bytes: &[u8], out: &mut Vec<u8>) -> (r: bool)
    requires
        bytes@.len() <= LONGEST,
        jpeg::layout_handled(bytes@),
        jpeg::scales_fit(bytes@),
    ensures
        r == jpeg_decoded(bytes@, old(out)@).0,
        final(out)@ == jpeg_decoded(bytes@, old(out)@).1,
        final(out)@.len() == old(out)@.len(),
{
    let options = zune_jpeg::zune_core::options::DecoderOptions::default()
        .jpeg_set_out_colorspace(zune_jpeg::zune_core::colorspace::ColorSpace::RGBA)
        .set_strict_mode(false);
    let input = zune_jpeg::zune_core::bytestream::ZCursor::new(bytes);
    let mut decoder = zune_jpeg::JpegDecoder::new_with_options(input, options);
    decoder.decode_into(out).is_ok()
}

/// What the headers say decides: the failure, or nothing where the size is the stream's.
pub open spec fn size_failure(size: Option<(u16, u16)>, width: u32, height: u32) -> Option<
    DecodeFailure,
> {
    match size {
        None => Some(DecodeFailure::Headers),
        Some((w, h)) => if w == width && h == height {
            None
        } else {
            Some(DecodeFailure::Size { width: w, height: h })
        },
    }
}

/// Holds the size in a frame's headers against the stream's.
pub fn check_size(size: Option<(u16, u16)>, width: u32, height: u32) -> (r: Result<
    (),
    DecodeFailure,
>)
    ensures
        match size_failure(size, width, height) {
            Some(failure) => r == Err::<(), DecodeFailure>(failure),
            None => r is Ok,
        },
{
    match size {
        None => Err(DecodeFailure::Headers),
        Some((w, h)) => {
            if w as u32 == width && h as u32 == height {
                Ok(())
            } else {
                Err(DecodeFailure::Size { width: w, height: h })
            }
        },
    }
}

/// Why a frame is refused before it is decoded: for its size, or for a layout or scales that the
/// decoder cannot be given.
pub open spec fn refusal(bytes: Seq<u8>, width: u32, height: u32) -> Option<DecodeFailure> {
    if bytes.len() > LONGEST {
        Some(DecodeFailure::Headers)
    } else {
        match size_failure(jpeg_size(bytes), width, height) {
            Some(failure) => Some(failure),
            None => if !jpeg::layout_handled(bytes) {
                Some(DecodeFailure::Layout)
            } else if !jpeg::scales_fit(bytes) {
                Some(DecodeFailure::Scales)
            } else {
                None
            },
        }
    }
}

/// Decodes a JPEG frame of the stream's size into `out`. A frame of another size, or one that the
/// decoder cannot be given, is refused before anything is written.
pub fn decode_frame(bytes: &[u8], width: u32, height: u32, out: &mut Vec<u8>) -> (r: Result<
    (),
    DecodeFailure,
>)
    ensures
        final(out)@.len() == old(out)@.len(),
        match refusal(bytes@, width, height) {
            Some(failure) => r == Err::<(), DecodeFailure>(failure) && final(out)@ == old(out)@,
            None => {
                let (decoded, pixels) = jpeg_decoded(bytes@, old(out)@);
                &&& final(out)@ == pixels
                &&& if decoded {
                    r is Ok
                } else {
                    r == Err::<(), DecodeFailure>(DecodeFailure::Pixels)
                }
            },
        },
{
    if bytes.len() > LONGEST {
        return Err(DecodeFailure::Headers);
    }
    let size = decode_headers(bytes);
    if let Err(failure) = check_size(size, width, height) {
        return Err(failure);
    }
    if !check_layout(bytes) {
        return Err(DecodeFailure::Layout);
    }
    if !check_scales(bytes) {
        return Err(DecodeFailure::Scales);
    }
    if decode_into(bytes, out) {
        Ok(())
    } else {
        Err(DecodeFailure::Pixels)
    }
}

/// How many bytes of a buffer are the JPEG frame in it: what the driver wrote, as far as the buffer
/// goes.
pub fn jpeg_len(bytes_used: u32, length: usize) -> (r: usize)
    ensures
        r == stream::flush_len(bytes_used, length),
{
    filled(bytes_used, length)
}

/// What a buffer becomes when it is made ready for a frame: cut, or filled up with zeros.
pub open spec fn resized(buf: Seq<u8>, len: nat) -> Seq<u8> {
    Seq::new(
        len,
        |i: int|
            if i < buf.len() {
                buf[i]
            } else {
                0u8
            },
    )
}

/// The frames before the last one.
pub open spec fn older(frames: Seq<DecodedFrame>) -> Seq<DecodedFrame> {
    if frames.len() == 0 {
        frames
    } else {
        frames.drop_last()
    }
}

/// A pool after these buffers were offered to it: it takes what comes first, up to its limit.
pub open spec fn refilled(pool: Seq<Vec<u8>>, offered: Seq<DecodedFrame>) -> Seq<Vec<u8>>
    decreases offered.len(),
{
    if offered.len() == 0 {
        pool
    } else {
        let before = refilled(pool, offered.drop_last());
        if before.len() < POOL_LIMIT {
            before.push(offered.last().rgba)
        } else {
            before
        }
    }
}

impl Decoder {
    /// How many bytes a decoded frame has.
    pub open spec fn frame_bytes(self) -> int {
        self.width * self.height * 4
    }

    /// A decoded frame can be counted in 32 bits.
    pub open spec fn wf(self) -> bool {
        self.frame_bytes() <= u32::MAX
    }

    /// Everything but the pool and the counters is the same in both.
    pub open spec fn same_stream(self, other: Decoder) -> bool {
        self.width == other.width && self.height == other.height && self.stop == other.stop
    }

    /// Begins with nothing in the pool and nothing counted.
    pub fn start(width: u32, height: u32) -> (r: Decoder)
        requires
            width * height * 4 <= u32::MAX,
        ensures
            r.wf(),
            r.width == width,
            r.height == height,
            r.pool@.len() == 0,
            !r.stop,
            r.skipped == 0,
            r.failed == 0,
    {
        Decoder { width, height, pool: Vec::new(), stop: false, skipped: 0, failed: 0 }
    }

    /// Return a buffer for reuse.
    pub fn recycle(&mut self, buf: Vec<u8>)
        ensures
            final(self).same_stream(*old(self)),
            final(self).skipped == old(self).skipped,
            final(self).failed == old(self).failed,
            final(self).pool@ == if old(self).pool@.len() < POOL_LIMIT {
                old(self).pool@.push(buf)
            } else {
                old(self).pool@
            },
    {
        if self.pool.len() < POOL_LIMIT {
            self.pool.push(buf);
        }
    }

    pub fn skipped(&self) -> (r: u64)
        ensures
            r == self.skipped,
    {
        self.skipped
    }

    pub fn failed(&self) -> (r: u64)
        ensures
            r == self.failed,
    {
        self.failed
    }

    /// Ends the thread.
    pub fn shut_down(&mut self)
        ensures
            *final(self) == (Decoder { stop: true, ..*old(self) }),
    {
        self.stop = true;
    }

    /// Newest of the decoded frames that are waiting, in order of arrival; the older ones are
    /// recycled and counted as skipped.
    pub fn try_recv_latest(&mut self, waiting: Vec<DecodedFrame>) -> (r: Option<DecodedFrame>)
        ensures
            r == if waiting@.len() == 0 {
                None::<DecodedFrame>
            } else {
                Some(waiting@.last())
            },
            final(self).same_stream(*old(self)),
            final(self).failed == old(self).failed,
            final(self).skipped == (old(self).skipped + older(waiting@).len())
                % 0x1_0000_0000_0000_0000,
            final(self).pool@ == refilled(old(self).pool@, older(waiting@)),
    {
        let ghost frames = waiting@;
        let ghost start = *self;
        let mut waiting = waiting;
        let latest = waiting.pop();
        let count: usize = waiting.len();
        // The rest in order of arrival: the last one comes out first when they are taken from
        // the end, so they are turned round.
        let mut rest: Vec<DecodedFrame> = Vec::new();
        proof {
            assert(waiting@ =~= older(frames));
        }
        while waiting.len() > 0
            invariant
                waiting@.len() + rest@.len() == count,
                count == older(frames).len(),
                waiting@ == older(frames).take(waiting@.len() as int),
                forall|i: int|
                    0 <= i < rest@.len() ==> #[trigger] rest@[i] == older(frames)[count - 1 - i],
            decreases waiting.len(),
        {
            let ghost before = rest@;
            if let Some(f) = waiting.pop() {
                rest.push(f);
            }
            proof {
                assert forall|i: int| 0 <= i < rest@.len() implies #[trigger] rest@[i] == older(
                    frames,
                )[count - 1 - i] by {
                    if i < before.len() {
                        assert(rest@[i] == before[i]);
                    }
                }
            }
        }
        let mut done: usize = 0;
        proof {
            assert(older(frames).take(0) =~= Seq::empty());
        }
        while rest.len() > 0
            invariant
                done + rest@.len() == count,
                count == older(frames).len(),
                forall|i: int|
                    0 <= i < rest@.len() ==> #[trigger] rest@[i] == older(frames)[count - 1 - i],
                self.same_stream(start),
                self.failed == start.failed,
                self.skipped == (start.skipped + done) % 0x1_0000_0000_0000_0000,
                self.pool@ == refilled(start.pool@, older(frames).take(done as int)),
            decreases rest.len(),
        {
            proof {
                assert(rest@.last() == older(frames)[done as int]);
                assert(older(frames).take(done + 1).drop_last() =~= older(frames).take(done as int));
            }
            if let Some(f) = rest.pop() {
                self.recycle(f.rgba);
            }
            self.skipped = self.skipped.wrapping_add(1);
            done = done + 1;
        }
        proof {
            assert(older(frames).take(count as int) =~= older(frames));
        }
        latest
    }

    /// Waits for a frame until the thread is to end.
    pub fn next_wait(&self) -> (r: DecodeStep)
        ensures
            r == if self.stop {
                DecodeStep::Stop
            } else {
                DecodeStep::Wait
            },
    {
        if self.stop {
            DecodeStep::Stop
        } else {
            DecodeStep::Wait
        }
    }

    /// Newest wins: of the frame that was waited for and those that have arrived since, the last
    /// is decoded, and the buffers of the others go back to the driver.
    pub fn newest(&mut self, first: DequeuedFrame, since: &[DequeuedFrame]) -> (r: (
        DequeuedFrame,
        Vec<u32>,
    ))
        ensures
            r.0 == if since@.len() == 0 {
                first
            } else {
                since@.last()
            },
            r.1@ == frame::given_back(seq![first] + since@),
            final(self).skipped == (old(self).skipped + since@.len()) % 0x1_0000_0000_0000_0000,
            *final(self) == (Decoder { skipped: final(self).skipped, ..*old(self) }),
    {
        let mut all: Vec<DequeuedFrame> = Vec::new();
        all.push(first);
        let mut i: usize = 0;
        while i < since.len()
            invariant
                i <= since.len(),
                all@ == seq![first] + since@.take(i as int),
            decreases since.len() - i,
        {
            all.push(since[i]);
            i = i + 1;
            proof {
                assert(all@ =~= seq![first] + since@.take(i as int));
            }
        }
        proof {
            assert(since@.take(since.len() as int) =~= since@);
        }
        let (latest, back) = take_latest(all.as_slice());
        self.skipped = self.skipped.wrapping_add(since.len() as u64);
        match latest {
            Some(f) => (f, back),
            None => (first, back),
        }
    }

    /// A buffer for a decoded frame: one that was used before, if there is one.
    pub fn take_buffer(&mut self) -> (r: Vec<u8>)
        requires
            old(self).wf(),
        ensures
            r@ == if old(self).pool@.len() > 0 {
                resized(old(self).pool@.last()@, old(self).frame_bytes() as nat)
            } else {
                resized(Seq::empty(), old(self).frame_bytes() as nat)
            },
            final(self).same_stream(*old(self)),
            final(self).skipped == old(self).skipped,
            final(self).failed == old(self).failed,
            final(self).pool@ == if old(self).pool@.len() > 0 {
                old(self).pool@.drop_last()
            } else {
                old(self).pool@
            },
    {
        proof {
            let (w, h) = (self.width as int, self.height as int);
            assert(w * h >= 0) by (nonlinear_arith)
                requires
                    w >= 0,
                    h >= 0,
            ;
        }
        let expected: usize = (self.width * self.height * 4) as usize;
        let mut out = match self.pool.pop() {
            Some(buf) => buf,
            None => Vec::new(),
        };
        let ghost before = out@;
        out.resize(expected, 0);
        proof {
            assert(out@ =~= resized(before, expected as nat)) by {
                assert forall|i: int| 0 <= i < out@.len() implies out@[i] == resized(
                    before,
                    expected as nat,
                )[i] by {
                    if i < before.len() && expected > before.len() {
                        assert(out@.subrange(0, before.len() as int)[i] == before[i]);
                    }
                }
            }
        }
        out
    }

    /// After decoding: the frame to hand on, or the failure counted and the buffer kept for
    /// reuse. Only the first few failures are worth a warning.
    pub fn decoded(
        &mut self,
        frame: DequeuedFrame,
        out: Vec<u8>,
        result: Result<(), DecodeFailure>,
        decode_time: Duration,
    ) -> (r: DecodeStep)
        ensures
            match result {
                Ok(()) => *final(self) == *old(self) && r == DecodeStep::Send(
                    DecodedFrame {
                        rgba: out,
                        sequence: frame.sequence,
                        timestamp: frame.timestamp,
                        decode_time,
                    },
                ),
                Err(_) => {
                    &&& final(self).same_stream(*old(self))
                    &&& final(self).skipped == old(self).skipped
                    &&& final(self).failed == (old(self).failed + 1) % 0x1_0000_0000_0000_0000
                    &&& final(self).pool@ == old(self).pool@.push(out)
                    &&& r == (DecodeStep::Failed { warn: final(self).failed <= WARNINGS })
                    &&& r == (DecodeStep::Failed { warn: final(self).failed <= 3 })
                },
            },
    {
        match result {
            Ok(()) => DecodeStep::Send(
                DecodedFrame {
                    rgba: out,
                    sequence: frame.sequence,
                    timestamp: frame.timestamp,
                    decode_time,
                },
            ),
            Err(_) => {
                self.failed = self.failed.wrapping_add(1);
                self.pool.push(out);
                DecodeStep::Failed { warn: self.failed <= WARNINGS }
            },
        }
    }

    /// After handing a frame on. A consumer that is behind drains to the newest anyway, so its
    /// frame is dropped; without a consumer the loop ends.
    pub fn delivered(&mut self, delivery: Delivery) -> (r: DecodeStep)
        ensures
            match delivery {
                Delivery::Sent => *final(self) == *old(self) && r == old(self).waiting(),
                Delivery::Full(d) => {
                    &&& final(self).same_stream(*old(self))
                    &&& final(self).skipped == (old(self).skipped + 1) % 0x1_0000_0000_0000_0000
                    &&& final(self).failed == old(self).failed
                    &&& final(self).pool@ == old(self).pool@.push(d.rgba)
                    &&& r == old(self).waiting()
                },
                Delivery::Disconnected => *final(self) == *old(self) && r == DecodeStep::Stop,
            },
    {
        match delivery {
            Delivery::Sent => self.next_wait(),
            Delivery::Full(d) => {
                self.pool.push(d.rgba);
                self.skipped = self.skipped.wrapping_add(1);
                self.next_wait()
            },
            Delivery::Disconnected => DecodeStep::Stop,
        }
    }

    pub open spec fn waiting(self) -> DecodeStep {
        if self.stop {
            DecodeStep::Stop
        } else {
            DecodeStep::Wait
        }
    }
}

/// What happens to the pool.
pub enum PoolEvent {
    /// The thread takes a buffer ([`Decoder::take_buffer`]).
    Taken,
    /// The thread puts the buffer that it took back ([`Decoder::decoded`] or
    /// [`Decoder::delivered`]).
    PutBack,
    /// The buffer that the thread took goes to the consumer.
    HandedOn,
    /// The consumer returns a buffer ([`Decoder::recycle`]).
    Recycled,
}

/// How many buffers the pool holds after an event, and whether the thread has taken one.
pub open spec fn pool_after(before: (nat, bool), event: PoolEvent) -> (nat, bool) {
    match event {
        PoolEvent::Taken => (
            if before.0 > 0 {
                (before.0 - 1) as nat
            } else {
                0
            },
            true,
        ),
        PoolEvent::PutBack => (before.0 + 1, false),
        PoolEvent::HandedOn => (before.0, false),
        PoolEvent::Recycled => (
            if before.0 < POOL_LIMIT {
                before.0 + 1
            } else {
                before.0
            },
            before.1,
        ),
    }
}

/// The thread takes one buffer at a time, and puts back or hands on only what it took.
pub open spec fn may_follow(before: (nat, bool), event: PoolEvent) -> bool {
    match event {
        PoolEvent::Taken => !before.1,
        PoolEvent::PutBack => before.1,
        PoolEvent::HandedOn => before.1,
        PoolEvent::Recycled => true,
    }
}

/// The pool never grows beyond one more than its limit, however the thread and the consumer
/// take turns.
pub proof fn the_pool_stays_small(states: Seq<(nat, bool)>, events: Seq<PoolEvent>, k: int)
    requires
        states.len() == events.len() + 1,
        states[0] == (0nat, false),
        forall|i: int|
            0 <= i < events.len() ==> {
                &&& may_follow(states[i], #[trigger] events[i])
                &&& states[i + 1] == pool_after(states[i], events[i])
            },
        0 <= k < states.len(),
    ensures
        states[k].0 <= POOL_LIMIT + 1,
        states[k].1 ==> states[k].0 <= POOL_LIMIT,
    decreases k,
{
    if k > 0 {
        the_pool_stays_small(states, events, k - 1);
        assert(may_follow(states[k - 1], events[k - 1]));
    }
}

/// Frames are not lost count of: of the frames that are waiting one is taken, and the others are
/// those that are counted as skipped.
pub proof fn one_is_taken_the_rest_skipped(waiting: Seq<DecodedFrame>)
    requires
        waiting.len() > 0,
    ensures
        older(waiting).len() + 1 == waiting.len(),
        older(waiting).push(waiting.last()) == waiting,
{
    assert(older(waiting).push(waiting.last()) =~= waiting);
}

/// A frame is of the stream's size if both its sides are; one of another size is refused for the
/// size that it has.
pub proof fn a_frame_must_be_of_the_size(w: u16, h: u16, width: u32, height: u32)
    ensures
        size_failure(None, width, height) == Some(DecodeFailure::Headers),
        size_failure(Some((w, h)), width, height) is None <==> w == width && h == height,
        w != width || h != height ==> size_failure(Some((w, h)), width, height) == Some(
            DecodeFailure::Size { width: w, height: h },
        ),
{
}

/// A frame is given to the decoder if and only if it is of the stream's size, is laid out in a way
/// that the decoder can take, and its scales fit; and no more than 31 bits count its bytes.
pub proof fn what_the_decoder_is_given(bytes: Seq<u8>, width: u32, height: u32)
    ensures
        refusal(bytes, width, height) is None <==> bytes.len() <= 0x7fff_ffff && (jpeg_size(
            bytes,
        ) matches Some((w, h)) && w == width && h == height) && jpeg::layout_handled(bytes)
            && jpeg::scales_fit(bytes),
        bytes.len() <= 0x7fff_ffff && jpeg_size(bytes) is None ==> refusal(bytes, width, height)
            == Some(DecodeFailure::Headers),
{
}

/// A buffer is as long as a frame, four bytes to the pixel; it keeps what it held as far as that
/// goes, and is zero from there on.
pub proof fn a_buffer_is_as_long_as_a_frame(buf: Seq<u8>, len: nat, i: int)
    requires
        0 <= i < len,
    ensures
        resized(buf, len).len() == len,
        i < buf.len() ==> resized(buf, len)[i] == buf[i],
        i >= buf.len() ==> resized(buf, len)[i] == 0,
        resized(buf, buf.len()) == buf,
{
    assert(resized(buf, buf.len()) =~= buf);
}

/// A pool keeps what it has, takes what comes first, and takes no more once it holds four.
pub proof fn a_pool_takes_what_comes_first(pool: Seq<Vec<u8>>, offered: Seq<DecodedFrame>, i: int)
    ensures
        refilled(pool, offered).len() == if pool.len() + offered.len() <= 4 || offered.len() == 0 {
            pool.len() + offered.len()
        } else if pool.len() <= 4 {
            4
        } else {
            pool.len()
        },
        0 <= i < pool.len() ==> refilled(pool, offered)[i] == pool[i],
        pool.len() <= i < refilled(pool, offered).len() ==> refilled(pool, offered)[i] == offered[i
            - pool.len()].rgba,
    decreases offered.len(),
{
    if offered.len() > 0 {
        a_pool_takes_what_comes_first(pool, offered.drop_last(), i);
    }
}

/// A frame is refused for the first thing that is wrong with it: its headers, its size, its layout,
/// its scales.
pub proof fn a_frame_is_refused_for_the_first_thing_wrong(
    bytes: Seq<u8>,
    width: u32,
    height: u32,
    w: u16,
    h: u16,
)
    ensures
        bytes.len() > 0x7fff_ffff ==> refusal(bytes, width, height) == Some(DecodeFailure::Headers),
        bytes.len() <= 0x7fff_ffff && jpeg_size(bytes) == Some((w, h)) ==> {
            &&& w != width || h != height ==> refusal(bytes, width, height) == Some(
                DecodeFailure::Size { width: w, height: h },
            )
            &&& w == width && h == height && !jpeg::layout_handled(bytes) ==> refusal(
                bytes,
                width,
                height,
            ) == Some(DecodeFailure::Layout)
            &&& w == width && h == height && jpeg::layout_handled(bytes) && !jpeg::scales_fit(bytes)
                ==> refusal(bytes, width, height) == Some(DecodeFailure::Scales)
        },
{
}

} // verus!
