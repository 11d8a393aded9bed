//! A running capture stream: its counters, the poll loop's decisions and the return of buffers.
use vstd::prelude::*;

use crate::capture::frame::{self, take_latest, DequeuedFrame, FrameLayout};
use crate::duration::Duration;

verus! {

/// `POLLERR`: the device is in an error state.
pub const POLLERR: i16 = 8;

/// The bookkeeping of a running stream.
#[derive(Debug, Clone)]
pub struct Capture {
    pub layout: FrameLayout,
    /// Byte length of each buffer.
    pub lengths: Vec<usize>,
    /// Write back the CPU cache for each frame after dequeue.
    pub flush_cpu_cache: bool,
    /// The stream is being shut down.
    pub stop: bool,
    pub last_sequence: Option<u32>,
    pub dequeued: u64,
    pub dropped_by_driver: u64,
    pub damaged: u64,
    pub flush_nanos: u64,
}

/// What the poll loop does next.
#[derive(Debug, Clone, Copy, PartialEq, Eq, Structural)]
pub enum PollStep {
    /// Wait for the device.
    Poll,
    /// Dequeue a buffer; more may be ready.
    Dequeue,
    /// Write back the CPU cache for the first `len` bytes of the buffer that holds this frame.
    Flush { frame: DequeuedFrame, len: usize },
    /// Hand the frame to the consumer.
    Send(DequeuedFrame),
    /// Give this buffer back to the driver at once, then go on dequeuing.
    Recycle(u32),
    /// Leave the loop.
    Stop,
}

/// Why a buffer could not be dequeued.
#[derive(Debug, Clone, Copy, PartialEq, Eq, Structural)]
pub enum DequeueFailure {
    /// Nothing more is ready (`EAGAIN`).
    WouldBlock,
    Interrupted,
    Other,
}

/// What became of a frame that was handed to the consumer.
#[derive(Debug, Clone, Copy, PartialEq, Eq, Structural)]
pub enum SendOutcome {
    Sent,
    /// The consumer is stalled; the frame comes back.
    Full(DequeuedFrame),
    Disconnected,
}

/// How many frames are missing between two sequence numbers. The counter may wrap; a number that
/// is repeated misses nothing.
pub open spec fn gap(prev: u32, sequence: u32) -> nat {
    let ahead = (sequence - prev) % 0x1_0000_0000;
    if ahead == 0 {
        0
    } else {
        (ahead - 1) as nat
    }
}

/// The frames missing before this one.
pub open spec fn missing(last: Option<u32>, sequence: u32) -> nat {
    match last {
        Some(prev) => gap(prev, sequence),
        None => 0,
    }
}

/// The frames missing in a row of sequence numbers.
pub open spec fn total_missing(sequences: Seq<u32>) -> nat
    decreases sequences.len(),
{
    if sequences.len() < 2 {
        0
    } else {
        total_missing(sequences.drop_last()) + gap(
            sequences[sequences.len() - 2],
            sequences.last(),
        )
    }
}

/// How much of a frame's buffer holds the frame: what the driver wrote, as far as the buffer goes.
pub open spec fn flush_len(bytes_used: u32, length: usize) -> nat {
    if bytes_used as nat <= length as nat {
        bytes_used as nat
    } else {
        length as nat
    }
}

pub(crate) fn filled(bytes_used: u32, length: usize) -> (r: usize)
    ensures
        r == flush_len(bytes_used, length),
{
    if bytes_used as u64 <= length as u64 {
        bytes_used as usize
    } else {
        length
    }
}

fn frame_gap(prev: u32, sequence: u32) -> (r: u32)
    ensures
        r == gap(prev, sequence),
{
    let ahead: u32 = if sequence >= prev {
        sequence - prev
    } else {
        (0xffff_ffff - prev) + sequence + 1
    };
    if ahead == 0 {
        0
    } else {
        ahead - 1
    }
}

impl Capture {
    /// A stream that has just been switched on.
    pub fn new(layout: FrameLayout, lengths: Vec<usize>, flush_cpu_cache: bool) -> (r: Capture)
        ensures
            r.layout == layout,
            r.lengths == lengths,
            r.flush_cpu_cache == flush_cpu_cache,
            !r.stop,
            r.last_sequence is None,
            r.dequeued == 0,
            r.dropped_by_driver == 0,
            r.damaged == 0,
            r.flush_nanos == 0,
    {
        Capture {
            layout,
            lengths,
            flush_cpu_cache,
            stop: false,
            last_sequence: None,
            dequeued: 0,
            dropped_by_driver: 0,
            damaged: 0,
            flush_nanos: 0,
        }
    }

    /// Everything but the counters is the same in both.
    pub open spec fn same_stream(self, other: Capture) -> bool {
        &&& self.layout == other.layout
        &&& self.lengths == other.lengths
        &&& self.flush_cpu_cache == other.flush_cpu_cache
        &&& self.stop == other.stop
    }

    /// `self` is what `before` becomes by counting one frame.
    pub open spec fn counted(self, before: Capture, frame: DequeuedFrame) -> bool {
        &&& self.same_stream(before)
        &&& self.last_sequence == Some(frame.sequence)
        &&& self.dequeued == (before.dequeued + 1) % 0x1_0000_0000_0000_0000
        &&& self.damaged == (before.damaged + if frame.error {
            1int
        } else {
            0
        }) % 0x1_0000_0000_0000_0000
        &&& self.dropped_by_driver == (before.dropped_by_driver + missing(
            before.last_sequence,
            frame.sequence,
        )) % 0x1_0000_0000_0000_0000
    }

    pub fn layout(&self) -> (r: FrameLayout)
        ensures
            r == self.layout,
    {
        self.layout
    }

    /// The byte lengths of the buffers.
    pub fn buffers(&self) -> (r: &[usize])
        ensures
            r@ == self.lengths@,
    {
        self.lengths.as_slice()
    }

    /// Frames dequeued so far.
    pub fn dequeued_count(&self) -> (r: u64)
        ensures
            r == self.dequeued,
    {
        self.dequeued
    }

    /// Frames the driver reported dropping (sequence gaps), usually from buffer starvation.
    pub fn driver_dropped_count(&self) -> (r: u64)
        ensures
            r == self.dropped_by_driver,
    {
        self.dropped_by_driver
    }

    /// Frames delivered damaged (error flag or short), usually USB packet loss.
    pub fn damaged_count(&self) -> (r: u64)
        ensures
            r == self.damaged,
    {
        self.damaged
    }

    /// Time the last CPU cache flush took, if enabled.
    pub fn last_flush_time(&self) -> (r: Duration)
        ensures
            r.nanos == self.flush_nanos,
    {
        Duration::from_nanos(self.flush_nanos)
    }

    /// Begins the shutdown: no buffer is given back any more, and the poll loop ends.
    pub fn shut_down(&mut self)
        ensures
            final(self).stop,
            *final(self) == (Capture { stop: true, ..*old(self) }),
    {
        self.stop = true;
    }

    /// Gives a buffer back to the driver: the index to queue, nothing once the stream shuts down.
    pub fn requeue(&self, index: u32) -> (r: Option<u32>)
        ensures
            r == if self.stop {
                None::<u32>
            } else {
                Some(index)
            },
    {
        if self.stop {
            None
        } else {
            Some(index)
        }
    }

    /// Take the newest of the frames that are waiting, in order of arrival, and the buffers of
    /// the older ones to queue again; once the stream shuts down no buffer is queued. Nothing is
    /// taken where no new frame has arrived.
    pub fn try_recv_latest(&self, waiting: &[DequeuedFrame]) -> (r: (
        Option<DequeuedFrame>,
        Vec<u32>,
    ))
        ensures
            r.0 == frame::kept(waiting@),
            r.1@ == if self.stop {
                Seq::<u32>::empty()
            } else {
                frame::given_back(waiting@)
            },
    {
        let (latest, back) = take_latest(waiting);
        if self.stop {
            (latest, Vec::new())
        } else {
            (latest, back)
        }
    }

    /// Counts a frame: that it came, whether it is damaged, and how many went missing before it.
    fn count(&mut self, frame: &DequeuedFrame)
        ensures
            final(self).counted(*old(self), *frame),
            final(self).flush_nanos == old(self).flush_nanos,
    {
        self.dequeued = self.dequeued.wrapping_add(1);
        if frame.error {
            self.damaged = self.damaged.wrapping_add(1);
        }
        if let Some(prev) = self.last_sequence {
            let lost: u32 = frame_gap(prev, frame.sequence);
            if lost > 0 {
                self.dropped_by_driver = self.dropped_by_driver.wrapping_add(lost as u64);
            }
        }
        self.last_sequence = Some(frame.sequence);
    }

    /// The top of the loop: wait for the device until the stream shuts down.
    pub fn next_poll(&self) -> (r: PollStep)
        ensures
            r == if self.stop {
                PollStep::Stop
            } else {
                PollStep::Poll
            },
    {
        if self.stop {
            PollStep::Stop
        } else {
            PollStep::Poll
        }
    }

    /// After `poll()` returned `n`. A wait that was interrupted or timed out is repeated; any
    /// other failure, and an error state of the device, end the loop.
    pub fn polled(&self, n: i32, interrupted: bool, revents: i16) -> (r: PollStep)
        ensures
            r == if (n < 0 && !interrupted) || (n > 0 && revents & POLLERR != 0) {
                PollStep::Stop
            } else if n > 0 {
                PollStep::Dequeue
            } else if self.stop {
                PollStep::Stop
            } else {
                PollStep::Poll
            },
    {
        if n < 0 {
            if interrupted {
                return self.next_poll();
            }
            return PollStep::Stop;
        }
        if n == 0 {
            return self.next_poll();
        }
        if revents & POLLERR != 0 {
            return PollStep::Stop;
        }
        PollStep::Dequeue
    }

    /// A buffer was dequeued: write back the CPU cache for it if that is asked for, or count it
    /// and hand it on.
    pub fn frame_dequeued(&mut self, frame: DequeuedFrame) -> (r: PollStep)
        requires
            old(self).flush_cpu_cache ==> frame.index < old(self).lengths.len(),
        ensures
            old(self).flush_cpu_cache ==> *final(self) == *old(self) && r == (PollStep::Flush {
                frame,
                len: flush_len(
                    frame.bytes_used,
                    old(self).lengths[frame.index as int],
                ) as usize,
            }),
            !old(self).flush_cpu_cache ==> r == PollStep::Send(frame) && final(self).counted(
                *old(self),
                frame,
            ) && final(self).flush_nanos == old(self).flush_nanos,
    {
        if self.flush_cpu_cache {
            let length: usize = self.lengths[frame.index as usize];
            let len: usize = filled(frame.bytes_used, length);
            return PollStep::Flush { frame, len };
        }
        self.count(&frame);
        PollStep::Send(frame)
    }

    /// The CPU cache was written back in `nanos` nanoseconds.
    pub fn flushed(&mut self, frame: DequeuedFrame, nanos: u64) -> (r: PollStep)
        ensures
            r == PollStep::Send(frame),
            final(self).counted(*old(self), frame),
            final(self).flush_nanos == nanos,
    {
        self.flush_nanos = nanos;
        self.count(&frame);
        PollStep::Send(frame)
    }

    /// No buffer was dequeued. When nothing more is ready, back to waiting.
    pub fn dequeue_failed(&self, why: DequeueFailure) -> (r: PollStep)
        ensures
            r == match why {
                DequeueFailure::WouldBlock => if self.stop {
                    PollStep::Stop
                } else {
                    PollStep::Poll
                },
                DequeueFailure::Interrupted => PollStep::Dequeue,
                DequeueFailure::Other => PollStep::Stop,
            },
    {
        match why {
            DequeueFailure::WouldBlock => self.next_poll(),
            DequeueFailure::Interrupted => PollStep::Dequeue,
            DequeueFailure::Other => PollStep::Stop,
        }
    }

    /// After handing a frame on. A stalled consumer's frame is recycled at once rather than
    /// starving the driver; without a consumer the loop ends.
    pub fn sent(&self, outcome: SendOutcome) -> (r: PollStep)
        ensures
            r == match outcome {
                SendOutcome::Sent => PollStep::Dequeue,
                SendOutcome::Full(f) => PollStep::Recycle(f.index),
                SendOutcome::Disconnected => PollStep::Stop,
            },
    {
        match outcome {
            SendOutcome::Sent => PollStep::Dequeue,
            SendOutcome::Full(f) => PollStep::Recycle(f.index),
            SendOutcome::Disconnected => PollStep::Stop,
        }
    }
}

/// Every sequence number is accounted for: where they rise, the frames received and the frames
/// missing between them make up the whole range.
pub proof fn received_and_missing_make_the_range(sequences: Seq<u32>)
    requires
        sequences.len() > 0,
        forall|i: int, j: int| 0 <= i < j < sequences.len() ==> sequences[i] < sequences[j],
    ensures
        sequences.len() + total_missing(sequences) == sequences.last() - sequences[0] + 1,
    decreases sequences.len(),
{
    if sequences.len() > 1 {
        let before = sequences.drop_last();
        assert forall|i: int, j: int| 0 <= i < j < before.len() implies before[i] < before[j] by {
            assert(before[i] == sequences[i] && before[j] == sequences[j]);
        }
        received_and_missing_make_the_range(before);
        assert(sequences[sequences.len() - 2] < sequences[sequences.len() - 1]);
    }
}

/// A counter that wraps loses nothing: from the last number to zero there is no gap.
pub proof fn no_gap_between_neighbours(prev: u32)
    ensures
        gap(prev, ((prev + 1) % 0x1_0000_0000) as u32) == 0,
{
}

/// Where `lost` frames went missing between two that came, so many are counted, whatever the
/// numbers were: they begin again at zero after the last one.
pub proof fn what_went_missing_is_counted(prev: u32, lost: u32)
    requires
        lost < u32::MAX,
    ensures
        gap(prev, ((prev + 1 + lost) % 0x1_0000_0000) as u32) == lost,
        gap(prev, prev) == 0,
{
}

/// A frame is counted once; once more if it is damaged; and with it the frames that went missing
/// since the last one. Nothing is missing before the first.
pub proof fn a_frame_is_counted_once(
    before: Capture,
    after: Capture,
    frame: DequeuedFrame,
    lost: u32,
)
    requires
        after.counted(before, frame),
        before.dequeued < u64::MAX,
        before.damaged < u64::MAX,
        before.dropped_by_driver + u32::MAX < u64::MAX,
    ensures
        after.dequeued == before.dequeued + 1,
        frame.error ==> after.damaged == before.damaged + 1,
        !frame.error ==> after.damaged == before.damaged,
        before.last_sequence is None ==> after.dropped_by_driver == before.dropped_by_driver,
        before.last_sequence matches Some(prev) ==> (lost < u32::MAX && frame.sequence == (prev + 1
            + lost) % 0x1_0000_0000 ==> after.dropped_by_driver == before.dropped_by_driver
            + lost),
        after.last_sequence == Some(frame.sequence),
        after.layout == before.layout,
        after.lengths == before.lengths,
        after.flush_cpu_cache == before.flush_cpu_cache,
        after.stop == before.stop,
{
    if let Some(prev) = before.last_sequence {
        if lost < u32::MAX {
            what_went_missing_is_counted(prev, lost);
        }
    }
}

/// What of a buffer holds a frame is what the driver wrote, and never more than there is.
pub proof fn a_frame_ends_with_its_buffer(bytes_used: u32, length: usize)
    ensures
        flush_len(bytes_used, length) <= bytes_used,
        flush_len(bytes_used, length) <= length,
        bytes_used <= length ==> flush_len(bytes_used, length) == bytes_used,
        bytes_used >= length ==> flush_len(bytes_used, length) == length,
{
}

} // verus!
