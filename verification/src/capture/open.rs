//! Opening a device: the questions that are put to it, in order, and what its answers lead to.
use vstd::prelude::*;
use vstd::string::*;

use crate::capture::config::{CaptureConfig, CaptureError, Ioctl};
use crate::capture::frame::FrameLayout;
use crate::capture::stream::Capture;
use crate::fourcc::{FourCC, FOURCC_MJPG};

verus! {

/// `V4L2_CAP_VIDEO_CAPTURE`.
pub const CAP_VIDEO_CAPTURE: u32 = 0x0000_0001;

/// `V4L2_CAP_STREAMING`.
pub const CAP_STREAMING: u32 = 0x0400_0000;

/// The format that the driver settled on.
#[derive(Debug, Clone, Copy, PartialEq, Eq, Structural)]
pub struct GrantedFormat {
    pub width: u32,
    pub height: u32,
    pub fourcc: FourCC,
    pub stride: u32,
    pub size: u32,
    pub full_range: bool,
}

/// How far the opening has got: the question that is waiting for its answer.
#[derive(Debug, Clone, Copy, PartialEq, Eq, Structural)]
pub enum Stage {
    Device,
    Capabilities,
    Format,
    Formats,
    Rate,
    Request,
    Query(u32),
    Export(u32),
    Mapping(u32),
    Queue(u32),
    Stream,
    Running,
    Failed,
}

/// What to do next.
#[derive(Debug, Clone)]
pub enum OpenStep {
    OpenDevice,
    QueryCapabilities,
    SetFormat { width: u32, height: u32, fourcc: FourCC },
    ListFormats,
    SetRate(u32),
    RequestBuffers(u32),
    QueryBuffer(u32),
    ExportBuffer(u32),
    MapBuffer(u32),
    QueueBuffer(u32),
    StreamOn,
    Running,
    Fail(CaptureError),
}

/// The answer to the question that is waiting. Failures come with the system's own words.
#[derive(Debug, Clone)]
pub enum Answer {
    /// Done, nothing to report.
    Done,
    Failed(String),
    Capabilities(u32),
    Format(GrantedFormat),
    /// The formats the driver offers, if it tells.
    Formats(Option<Vec<FourCC>>),
    /// How many buffers the driver granted.
    Granted(u32),
    /// The byte length of the buffer asked about.
    Length(u32),
}

/// An opening under way.
pub struct Opening {
    pub config: CaptureConfig,
    pub stage: Stage,
    pub layout: FrameLayout,
    pub count: u32,
    pub lengths: Vec<usize>,
}

/// What an opening holds: what was asked for, how far it has got, and what it has learned.
pub struct OpeningView {
    pub config: CaptureConfig,
    pub stage: Stage,
    pub layout: FrameLayout,
    pub count: u32,
    pub lengths: Seq<usize>,
}

/// At least two buffers are asked for.
pub open spec fn wanted_buffers(config: CaptureConfig) -> u32 {
    if config.buffer_count >= 2 {
        config.buffer_count
    } else {
        2
    }
}

/// The layout that a granted format means.
pub open spec fn layout_of(g: GrantedFormat) -> FrameLayout {
    FrameLayout {
        width: g.width,
        height: g.height,
        fourcc: g.fourcc,
        stride: g.stride,
        size: g.size,
        full_range: g.full_range,
        compressed: g.fourcc.code == FOURCC_MJPG,
    }
}

/// The names of the formats, separated by commas.
pub open spec fn format_list(formats: Seq<FourCC>) -> Seq<char>
    decreases formats.len(),
{
    if formats.len() == 0 {
        Seq::empty()
    } else if formats.len() == 1 {
        formats[0].text()
    } else {
        format_list(formats.drop_last()) + ", "@ + formats.last().text()
    }
}

/// An answer of the kind that the question calls for.
pub open spec fn answers(stage: Stage, answer: Answer) -> bool {
    match stage {
        Stage::Capabilities => answer is Capabilities || answer is Failed,
        Stage::Format => answer is Format || answer is Failed,
        Stage::Formats => answer is Formats,
        Stage::Request => answer is Granted || answer is Failed,
        Stage::Query(_) => answer is Length || answer is Failed,
        Stage::Running => false,
        Stage::Failed => false,
        _ => answer is Done || answer is Failed,
    }
}

impl OpeningView {
    pub open spec fn at(self, stage: Stage) -> OpeningView {
        OpeningView { stage, ..self }
    }

    /// `step` reports the failure of a request.
    pub open spec fn refused(self, step: OpenStep, op: Ioctl, source: Seq<char>) -> bool {
        step matches OpenStep::Fail(CaptureError::Ioctl { op: o, source: s }) && o == op && s@
            == source
    }

    /// Where an answer leads: the opening after it and what to do next.
    pub open spec fn leads(
        self,
        answer: Answer,
        after: OpeningView,
        step: OpenStep,
    ) -> bool {
        match (self.stage, answer) {
            (Stage::Device, Answer::Failed(e)) => {
                &&& after == self.at(Stage::Failed)
                &&& step matches OpenStep::Fail(CaptureError::Open { path, source }) && path@
                    == self.config.device@ && source@ == e@
            },
            (Stage::Device, _) => after == self.at(Stage::Capabilities) && step
                == OpenStep::QueryCapabilities,
            (Stage::Capabilities, Answer::Failed(e)) => after == self.at(Stage::Failed)
                && self.refused(step, Ioctl::QueryCapabilities, e@),
            (Stage::Capabilities, Answer::Capabilities(caps)) => if caps & CAP_VIDEO_CAPTURE == 0 {
                after == self.at(Stage::Failed) && step == OpenStep::Fail(CaptureError::NotCapture)
            } else if caps & CAP_STREAMING == 0 {
                after == self.at(Stage::Failed) && step == OpenStep::Fail(CaptureError::NoStreaming)
            } else {
                after == self.at(Stage::Format) && step == (OpenStep::SetFormat {
                    width: self.config.width,
                    height: self.config.height,
                    fourcc: self.config.fourcc,
                })
            },
            (Stage::Format, Answer::Failed(e)) => after == self.at(Stage::Failed) && self.refused(
                step,
                Ioctl::SetFormat,
                e@,
            ),
            (Stage::Format, Answer::Format(g)) => if g.fourcc != self.config.fourcc {
                after == self.at(Stage::Formats) && step == OpenStep::ListFormats
            } else {
                match self.config.fps {
                    Some(fps) => after == (OpeningView {
                        layout: layout_of(g),
                        ..self.at(Stage::Rate)
                    }) && step == OpenStep::SetRate(fps),
                    None => after == (OpeningView {
                        layout: layout_of(g),
                        ..self.at(Stage::Request)
                    }) && step == OpenStep::RequestBuffers(wanted_buffers(self.config)),
                }
            },
            (Stage::Formats, Answer::Formats(list)) => {
                &&& after == self.at(Stage::Failed)
                &&& step matches OpenStep::Fail(
                    CaptureError::Format { requested, available },
                ) && requested == self.config.fourcc && available@ == match list {
                    Some(formats) => format_list(formats@),
                    None => "<unknown>"@,
                }
            },
            // A device that cannot set the rate keeps its own.
            (Stage::Rate, _) => after == self.at(Stage::Request) && step
                == OpenStep::RequestBuffers(wanted_buffers(self.config)),
            (Stage::Request, Answer::Failed(e)) => after == self.at(Stage::Failed) && self.refused(
                step,
                Ioctl::RequestBuffers,
                e@,
            ),
            (Stage::Request, Answer::Granted(n)) => if n < 2 {
                after == self.at(Stage::Failed) && step == OpenStep::Fail(
                    CaptureError::TooFewBuffers(n),
                )
            } else {
                after == (OpeningView { count: n, ..self.at(Stage::Query(0)) }) && step
                    == OpenStep::QueryBuffer(0)
            },
            (Stage::Query(_), Answer::Failed(e)) => after == self.at(Stage::Failed)
                && self.refused(step, Ioctl::QueryBuffer, e@),
            (Stage::Query(i), Answer::Length(n)) => after == (OpeningView {
                lengths: self.lengths.push(n as usize),
                ..self.at(Stage::Export(i))
            }) && step == OpenStep::ExportBuffer(i),
            (Stage::Export(_), Answer::Failed(e)) => after == self.at(Stage::Failed)
                && self.refused(step, Ioctl::ExportBuffer, e@),
            (Stage::Export(i), _) => after == self.at(Stage::Mapping(i)) && step
                == OpenStep::MapBuffer(i),
            (Stage::Mapping(i), Answer::Failed(e)) => {
                &&& after == self.at(Stage::Failed)
                &&& step matches OpenStep::Fail(CaptureError::Mmap { index, source }) && index == i
                    && source@ == e@
            },
            (Stage::Mapping(i), _) => if i + 1 < self.count {
                after == self.at(Stage::Query((i + 1) as u32)) && step == OpenStep::QueryBuffer(
                    (i + 1) as u32,
                )
            } else {
                after == self.at(Stage::Queue(0)) && step == OpenStep::QueueBuffer(0)
            },
            (Stage::Queue(_), Answer::Failed(e)) => after == self.at(Stage::Failed)
                && self.refused(step, Ioctl::QueueBuffer, e@),
            (Stage::Queue(i), _) => if i + 1 < self.count {
                after == self.at(Stage::Queue((i + 1) as u32)) && step == OpenStep::QueueBuffer(
                    (i + 1) as u32,
                )
            } else {
                after == self.at(Stage::Stream) && step == OpenStep::StreamOn
            },
            (Stage::Stream, Answer::Failed(e)) => after == self.at(Stage::Failed) && self.refused(
                step,
                Ioctl::StreamOn,
                e@,
            ),
            (Stage::Stream, _) => after == self.at(Stage::Running) && step == OpenStep::Running,
            _ => false,
        }
    }

    /// Indices stay below the number of buffers, of which there are at least two, and one length
    /// is known of each buffer that has been asked about.
    pub open spec fn wf(self) -> bool {
        match self.stage {
            Stage::Query(i) => 2 <= self.count && i < self.count && self.lengths.len() == i,
            Stage::Export(i) => 2 <= self.count && i < self.count && self.lengths.len() == i + 1,
            Stage::Mapping(i) => 2 <= self.count && i < self.count && self.lengths.len() == i + 1,
            Stage::Queue(i) => 2 <= self.count && i < self.count && self.lengths.len()
                == self.count,
            Stage::Stream => 2 <= self.count && self.lengths.len() == self.count,
            Stage::Running => 2 <= self.count && self.lengths.len() == self.count,
            Stage::Failed => true,
            _ => self.lengths.len() == 0,
        }
    }
}

fn list_formats(formats: &Vec<FourCC>) -> (r: String)
    ensures
        r@ == format_list(formats@),
{
    let mut out = String::new();
    let mut i: usize = 0;
    proof {
        assert(formats@.take(0) =~= Seq::empty());
    }
    while i < formats.len()
        invariant
            i <= formats.len(),
            out@ == format_list(formats@.take(i as int)),
        decreases formats.len() - i,
    {
        proof {
            assert(formats@.take(i + 1).drop_last() =~= formats@.take(i as int));
        }
        if i > 0 {
            out.append(", ");
        }
        out.append(formats[i].to_string().as_str());
        proof {
            assert(formats@.take(i + 1).len() == i + 1);
            if i == 0 {
                assert(out@ =~= formats[0].text());
            }
        }
        i = i + 1;
    }
    proof {
        assert(formats@.take(formats.len() as int) =~= formats@);
    }
    out
}

fn ioctl_error(op: Ioctl, source: String) -> (r: OpenStep)
    ensures
        r == OpenStep::Fail(CaptureError::Ioctl { op, source }),
{
    OpenStep::Fail(CaptureError::Ioctl { op, source })
}

impl Opening {
    pub open spec fn view(&self) -> OpeningView {
        OpeningView {
            config: self.config,
            stage: self.stage,
            layout: self.layout,
            count: self.count,
            lengths: self.lengths@,
        }
    }

    /// Begins by opening the device.
    pub fn new(config: CaptureConfig) -> (r: (Opening, OpenStep))
        ensures
            r.0.config == config,
            r.0.stage == Stage::Device,
            r.0.view().wf(),
            r.1 == OpenStep::OpenDevice,
    {
        let layout = FrameLayout {
            width: 0,
            height: 0,
            fourcc: config.fourcc,
            stride: 0,
            size: 0,
            full_range: false,
            compressed: false,
        };
        let opening = Opening {
            config,
            stage: Stage::Device,
            layout,
            count: 0,
            lengths: Vec::new(),
        };
        (opening, OpenStep::OpenDevice)
    }

    fn request_buffers(&mut self) -> (r: OpenStep)
        ensures
            final(self).view() == old(self).view().at(Stage::Request),
            r == OpenStep::RequestBuffers(wanted_buffers(old(self).config)),
    {
        self.stage = Stage::Request;
        OpenStep::RequestBuffers(
            if self.config.buffer_count >= 2 {
                self.config.buffer_count
            } else {
                2
            },
        )
    }

    /// Takes the answer to the question that is waiting, and says what to do next.
    pub fn next(&mut self, answer: Answer) -> (r: OpenStep)
        requires
            old(self).view().wf(),
            answers(old(self).stage, answer),
        ensures
            final(self).view().wf(),
            old(self).view().leads(answer, final(self).view(), r),
    {
        match self.stage {
            Stage::Device => match answer {
                Answer::Failed(source) => {
                    self.stage = Stage::Failed;
                    OpenStep::Fail(CaptureError::Open { path: self.config.device.clone(), source })
                },
                _ => {
                    self.stage = Stage::Capabilities;
                    OpenStep::QueryCapabilities
                },
            },
            Stage::Capabilities => match answer {
                Answer::Capabilities(caps) => {
                    if caps & CAP_VIDEO_CAPTURE == 0 {
                        self.stage = Stage::Failed;
                        OpenStep::Fail(CaptureError::NotCapture)
                    } else if caps & CAP_STREAMING == 0 {
                        self.stage = Stage::Failed;
                        OpenStep::Fail(CaptureError::NoStreaming)
                    } else {
                        self.stage = Stage::Format;
                        OpenStep::SetFormat {
                            width: self.config.width,
                            height: self.config.height,
                            fourcc: self.config.fourcc,
                        }
                    }
                },
                Answer::Failed(source) => {
                    self.stage = Stage::Failed;
                    ioctl_error(Ioctl::QueryCapabilities, source)
                },
                _ => OpenStep::QueryCapabilities,
            },
            Stage::Format => match answer {
                Answer::Format(g) => {
                    if g.fourcc != self.config.fourcc {
                        self.stage = Stage::Formats;
                        return OpenStep::ListFormats;
                    }
                    self.layout = FrameLayout {
                        width: g.width,
                        height: g.height,
                        fourcc: g.fourcc,
                        stride: g.stride,
                        size: g.size,
                        full_range: g.full_range,
                        compressed: g.fourcc.code == FOURCC_MJPG,
                    };
                    match self.config.fps {
                        Some(fps) => {
                            self.stage = Stage::Rate;
                            OpenStep::SetRate(fps)
                        },
                        None => self.request_buffers(),
                    }
                },
                Answer::Failed(source) => {
                    self.stage = Stage::Failed;
                    ioctl_error(Ioctl::SetFormat, source)
                },
                _ => OpenStep::ListFormats,
            },
            Stage::Formats => {
                let available = match answer {
                    Answer::Formats(Some(formats)) => list_formats(&formats),
                    _ => "<unknown>".to_owned(),
                };
                self.stage = Stage::Failed;
                OpenStep::Fail(CaptureError::Format { requested: self.config.fourcc, available })
            },
            Stage::Rate => self.request_buffers(),
            Stage::Request => match answer {
                Answer::Granted(n) => {
                    if n < 2 {
                        self.stage = Stage::Failed;
                        OpenStep::Fail(CaptureError::TooFewBuffers(n))
                    } else {
                        self.count = n;
                        self.stage = Stage::Query(0);
                        OpenStep::QueryBuffer(0)
                    }
                },
                Answer::Failed(source) => {
                    self.stage = Stage::Failed;
                    ioctl_error(Ioctl::RequestBuffers, source)
                },
                _ => OpenStep::RequestBuffers(2),
            },
            Stage::Query(i) => match answer {
                Answer::Length(n) => {
                    self.lengths.push(n as usize);
                    self.stage = Stage::Export(i);
                    OpenStep::ExportBuffer(i)
                },
                Answer::Failed(source) => {
                    self.stage = Stage::Failed;
                    ioctl_error(Ioctl::QueryBuffer, source)
                },
                _ => OpenStep::QueryBuffer(i),
            },
            Stage::Export(i) => match answer {
                Answer::Failed(source) => {
                    self.stage = Stage::Failed;
                    ioctl_error(Ioctl::ExportBuffer, source)
                },
                _ => {
                    self.stage = Stage::Mapping(i);
                    OpenStep::MapBuffer(i)
                },
            },
            Stage::Mapping(i) => match answer {
                Answer::Failed(source) => {
                    self.stage = Stage::Failed;
                    OpenStep::Fail(CaptureError::Mmap { index: i, source })
                },
                _ => {
                    if i + 1 < self.count {
                        self.stage = Stage::Query(i + 1);
                        OpenStep::QueryBuffer(i + 1)
                    } else {
                        self.stage = Stage::Queue(0);
                        OpenStep::QueueBuffer(0)
                    }
                },
            },
            Stage::Queue(i) => match answer {
                Answer::Failed(source) => {
                    self.stage = Stage::Failed;
                    ioctl_error(Ioctl::QueueBuffer, source)
                },
                _ => {
                    if i + 1 < self.count {
                        self.stage = Stage::Queue(i + 1);
                        OpenStep::QueueBuffer(i + 1)
                    } else {
                        self.stage = Stage::Stream;
                        OpenStep::StreamOn
                    }
                },
            },
            Stage::Stream => match answer {
                Answer::Failed(source) => {
                    self.stage = Stage::Failed;
                    ioctl_error(Ioctl::StreamOn, source)
                },
                _ => {
                    self.stage = Stage::Running;
                    OpenStep::Running
                },
            },
            Stage::Running => OpenStep::Running,
            Stage::Failed => OpenStep::Running,
        }
    }

    /// The stream that an opening ends in: its counters at zero, one length for each buffer.
    pub fn finish(self) -> (r: Capture)
        requires
            self.view().wf(),
            self.stage == Stage::Running,
        ensures
            r.layout == self.layout,
            r.lengths@ == self.lengths@,
            r.lengths.len() == self.count,
            r.lengths.len() >= 2,
            r.flush_cpu_cache == self.config.flush_cpu_cache,
            !r.stop,
            r.last_sequence is None,
            r.dequeued == 0,
            r.dropped_by_driver == 0,
            r.damaged == 0,
            r.flush_nanos == 0,
    {
        Capture::new(self.layout, self.lengths, self.config.flush_cpu_cache)
    }
}

/// A whole opening: the states it goes through, the answers that lead from one to the next, and
/// what was done on the way.
pub open spec fn opening_run(
    config: CaptureConfig,
    replies: Seq<Answer>,
    states: Seq<OpeningView>,
    steps: Seq<OpenStep>,
) -> bool {
    &&& states.len() == replies.len() + 1
    &&& steps.len() == replies.len() + 1
    &&& states[0].config == config
    &&& states[0].stage == Stage::Device
    &&& states[0].wf()
    &&& steps[0] == OpenStep::OpenDevice
    &&& forall|k: int|
        0 <= k < replies.len() ==> {
            &&& answers(states[k].stage, #[trigger] replies[k])
            &&& states[k].leads(replies[k], states[k + 1], steps[k + 1])
        }
}

/// How often a step was taken.
pub open spec fn times(steps: Seq<OpenStep>, step: OpenStep) -> nat
    decreases steps.len(),
{
    if steps.len() == 0 {
        0
    } else if steps.last() == step {
        times(steps.drop_last(), step) + 1
    } else {
        times(steps.drop_last(), step)
    }
}

pub open spec fn once_if(b: bool) -> nat {
    if b {
        1
    } else {
        0
    }
}

/// So many buffers were queried, exported, mapped and queued: each of the first ones exactly once,
/// and no other.
pub open spec fn handled(
    steps: Seq<OpenStep>,
    queried: int,
    exported: int,
    mapped: int,
    queued: int,
) -> bool {
    forall|i: u32|
        #![trigger times(steps, OpenStep::QueryBuffer(i))]
        #![trigger times(steps, OpenStep::ExportBuffer(i))]
        #![trigger times(steps, OpenStep::MapBuffer(i))]
        #![trigger times(steps, OpenStep::QueueBuffer(i))]
        {
            &&& times(steps, OpenStep::QueryBuffer(i)) == once_if(i < queried)
            &&& times(steps, OpenStep::ExportBuffer(i)) == once_if(i < exported)
            &&& times(steps, OpenStep::MapBuffer(i)) == once_if(i < mapped)
            &&& times(steps, OpenStep::QueueBuffer(i)) == once_if(i < queued)
        }
}

spec fn progress(state: OpeningView, steps: Seq<OpenStep>) -> bool {
    let n = state.count as int;
    let granted = state.layout.fourcc == state.config.fourcc;
    match state.stage {
        Stage::Rate => granted && handled(steps, 0, 0, 0, 0),
        Stage::Request => granted && handled(steps, 0, 0, 0, 0),
        Stage::Query(i) => granted && handled(steps, i + 1, i as int, i as int, 0),
        Stage::Export(i) => granted && handled(steps, i + 1, i + 1, i as int, 0),
        Stage::Mapping(i) => granted && handled(steps, i + 1, i + 1, i + 1, 0),
        Stage::Queue(i) => granted && handled(steps, n, n, n, i + 1),
        Stage::Stream => granted && handled(steps, n, n, n, n),
        Stage::Running => granted && handled(steps, n, n, n, n),
        Stage::Failed => true,
        _ => handled(steps, 0, 0, 0, 0),
    }
}

proof fn lemma_step(
    state: OpeningView,
    answer: Answer,
    after: OpeningView,
    step: OpenStep,
    steps: Seq<OpenStep>,
)
    requires
        state.wf(),
        answers(state.stage, answer),
        state.leads(answer, after, step),
        progress(state, steps),
    ensures
        after.wf(),
        after.config == state.config,
        progress(after, steps.push(step)),
{
    let more = steps.push(step);
    assert(more.drop_last() =~= steps);
    assert forall|s: OpenStep| #[trigger]
        times(more, s) == times(steps, s) + once_if(s == step) by {}
}

proof fn lemma_run(
    config: CaptureConfig,
    replies: Seq<Answer>,
    states: Seq<OpeningView>,
    steps: Seq<OpenStep>,
    k: int,
)
    requires
        opening_run(config, replies, states, steps),
        0 <= k < states.len(),
    ensures
        states[k].wf(),
        states[k].config == config,
        progress(states[k], steps.take(k + 1)),
    decreases k,
{
    if k > 0 {
        lemma_run(config, replies, states, steps, k - 1);
        assert(answers(states[k - 1].stage, replies[k - 1]));
        assert(steps.take(k + 1) =~= steps.take(k).push(steps[k]));
        lemma_step(states[k - 1], replies[k - 1], states[k], steps[k], steps.take(k));
    } else {
        let first = steps.take(1);
        assert(first.last() == OpenStep::OpenDevice);
        assert(first.drop_last() =~= Seq::empty());
        assert forall|s: OpenStep| s != OpenStep::OpenDevice implies #[trigger] times(first, s)
            == 0 by {
            assert(times(first.drop_last(), s) == 0);
        }
    }
}

/// Streaming starts last: when it is switched on, at least two buffers were granted, each of them
/// was queried, exported, mapped and queued exactly once, and no other one was; and the format is
/// the one that was asked for.
pub proof fn streaming_starts_last(
    config: CaptureConfig,
    replies: Seq<Answer>,
    states: Seq<OpeningView>,
    steps: Seq<OpenStep>,
    k: int,
)
    requires
        opening_run(config, replies, states, steps),
        0 <= k < states.len(),
        steps[k] == OpenStep::StreamOn || states[k].stage == Stage::Running,
    ensures
        states[k].count >= 2,
        states[k].lengths.len() == states[k].count,
        ({
            let n = states[k].count as int;
            handled(steps.take(k + 1), n, n, n, n)
        }),
        states[k].layout.fourcc == config.fourcc,
{
    lemma_run(config, replies, states, steps, k);
    if k > 0 {
        assert(answers(states[k - 1].stage, replies[k - 1]));
    }
}

/// Buffers are queued only once all of them are mapped, one after another.
pub proof fn buffers_are_queued_once_all_are_mapped(
    config: CaptureConfig,
    replies: Seq<Answer>,
    states: Seq<OpeningView>,
    steps: Seq<OpenStep>,
    k: int,
    i: u32,
)
    requires
        opening_run(config, replies, states, steps),
        0 <= k < states.len(),
        steps[k] == OpenStep::QueueBuffer(i),
    ensures
        ({
            let n = states[k].count as int;
            i < n && handled(steps.take(k + 1), n, n, n, i + 1)
        }),
{
    lemma_run(config, replies, states, steps, k);
    if k > 0 {
        assert(answers(states[k - 1].stage, replies[k - 1]));
    }
}

/// Nothing follows a failure: an opening that has failed has no further step.
pub proof fn a_failure_is_final(
    config: CaptureConfig,
    replies: Seq<Answer>,
    states: Seq<OpeningView>,
    steps: Seq<OpenStep>,
    k: int,
)
    requires
        opening_run(config, replies, states, steps),
        0 <= k < states.len(),
        steps[k] is Fail,
    ensures
        k == states.len() - 1,
        states[k].stage == Stage::Failed,
{
    assert(answers(states[k - 1].stage, replies[k - 1]));
    if k < replies.len() {
        assert(answers(states[k].stage, replies[k]));
    }
}

/// What the driver is asked for is what was configured: its size, its format, its rate, and as many
/// buffers, but never fewer than two. What was configured does not change on the way.
pub proof fn the_driver_is_asked_for_what_was_configured(
    state: OpeningView,
    answer: Answer,
    after: OpeningView,
    step: OpenStep,
)
    requires
        answers(state.stage, answer),
        state.leads(answer, after, step),
    ensures
        after.config == state.config,
        step matches OpenStep::SetFormat { width, height, fourcc } ==> width == state.config.width
            && height == state.config.height && fourcc == state.config.fourcc,
        step matches OpenStep::SetRate(fps) ==> state.config.fps == Some(fps),
        step matches OpenStep::RequestBuffers(n) ==> n >= 2 && n >= state.config.buffer_count && (n
            == 2 || n == state.config.buffer_count),
{
}

/// A device must capture video and must stream: it is asked for a format if its capabilities have
/// both bits, and refused for the first that is missing.
pub proof fn a_device_must_capture_and_stream(
    state: OpeningView,
    caps: u32,
    after: OpeningView,
    step: OpenStep,
)
    requires
        state.stage == Stage::Capabilities,
        state.leads(Answer::Capabilities(caps), after, step),
    ensures
        caps & 0x0000_0001 == 0 ==> step == OpenStep::Fail(CaptureError::NotCapture),
        caps & 0x0000_0001 != 0 && caps & 0x0400_0000 == 0 ==> step == OpenStep::Fail(
            CaptureError::NoStreaming,
        ),
        caps & 0x0000_0001 != 0 && caps & 0x0400_0000 != 0 ==> step is SetFormat,
        step is Fail <==> after.stage == Stage::Failed,
        step is SetFormat <==> after.stage == Stage::Format,
{
}

/// The layout of a stream is what the driver granted, compressed if it is MJPEG. A format that was
/// not asked for ends the opening; one that was is followed by the rate, if one was asked for, and
/// by the buffers.
pub proof fn what_is_granted_is_the_layout(
    state: OpeningView,
    g: GrantedFormat,
    after: OpeningView,
    step: OpenStep,
)
    requires
        state.stage == Stage::Format,
        state.leads(Answer::Format(g), after, step),
    ensures
        g.fourcc.code != state.config.fourcc.code ==> step is ListFormats && after.stage
            == Stage::Formats,
        g.fourcc.code == state.config.fourcc.code ==> {
            &&& after.layout.width == g.width
            &&& after.layout.height == g.height
            &&& after.layout.fourcc == g.fourcc
            &&& after.layout.stride == g.stride
            &&& after.layout.size == g.size
            &&& after.layout.full_range == g.full_range
            &&& after.layout.compressed == (g.fourcc.code == FOURCC_MJPG)
            &&& state.config.fps is Some ==> step is SetRate && after.stage == Stage::Rate
            &&& state.config.fps is None ==> step is RequestBuffers && after.stage == Stage::Request
        },
{
}

/// A device that cannot set the rate is used all the same; every other failure ends the opening,
/// and so do fewer than two buffers.
pub proof fn only_the_rate_may_fail(
    state: OpeningView,
    answer: Answer,
    after: OpeningView,
    step: OpenStep,
)
    requires
        answers(state.stage, answer),
        state.leads(answer, after, step),
    ensures
        answer is Failed && state.stage != Stage::Rate ==> step is Fail && after.stage
            == Stage::Failed,
        state.stage == Stage::Rate ==> step is RequestBuffers && after.stage == Stage::Request,
        answer matches Answer::Granted(n) ==> {
            &&& n < 2 ==> step == OpenStep::Fail(CaptureError::TooFewBuffers(n))
            &&& n >= 2 ==> step == OpenStep::QueryBuffer(0) && after.count == n
        },
        step is Fail ==> answer is Failed || answer is Capabilities || answer is Formats || (
        answer matches Answer::Granted(n) && n < 2),
{
}

/// Buffer after buffer is queried, exported and mapped, each before the next; then buffer after
/// buffer is queued; then the stream is switched on.
pub proof fn buffer_after_buffer(
    state: OpeningView,
    answer: Answer,
    after: OpeningView,
    step: OpenStep,
    i: u32,
)
    requires
        answers(state.stage, answer),
        state.leads(answer, after, step),
        state.wf(),
        !(answer is Failed),
    ensures
        state.stage == Stage::Query(i) ==> step == OpenStep::ExportBuffer(i) && (
        answer matches Answer::Length(n) && after.lengths == state.lengths.push(n as usize)),
        state.stage == Stage::Export(i) ==> step == OpenStep::MapBuffer(i),
        state.stage == Stage::Mapping(i) && i < state.count - 1 ==> step == OpenStep::QueryBuffer(
            (i + 1) as u32,
        ),
        state.stage == Stage::Mapping(i) && i == state.count - 1 ==> step == OpenStep::QueueBuffer(
            0,
        ),
        state.stage == Stage::Queue(i) && i < state.count - 1 ==> step == OpenStep::QueueBuffer(
            (i + 1) as u32,
        ),
        state.stage == Stage::Queue(i) && i == state.count - 1 ==> step is StreamOn,
        state.stage == Stage::Stream ==> step is Running && after.stage == Stage::Running,
        state.stage == Stage::Device ==> step is QueryCapabilities && after.stage
            == Stage::Capabilities,
        after.wf(),
{
}

/// The formats that a driver offers are named in order, with commas between them.
pub proof fn formats_are_named_in_order(formats: Seq<FourCC>, next: FourCC)
    ensures
        format_list(Seq::<FourCC>::empty()) == Seq::<char>::empty(),
        format_list(seq![next]) == next.text(),
        formats.len() > 0 ==> format_list(formats.push(next)) == format_list(formats) + ", "@
            + next.text(),
{
    assert(formats.push(next).drop_last() =~= formats);
}

/// A failure says what failed, in the words of the system: the device that could not be opened, the
/// request that was refused, the buffer that could not be mapped. A format that was refused is named
/// with those that the driver offers instead.
pub proof fn a_failure_says_what_failed(
    state: OpeningView,
    words: String,
    after: OpeningView,
    step: OpenStep,
)
    requires
        answers(state.stage, Answer::Failed(words)),
        state.leads(Answer::Failed(words), after, step),
    ensures
        state.stage == Stage::Device ==> (step matches OpenStep::Fail(
            CaptureError::Open { path, source },
        ) && path@ == state.config.device@ && source@ == words@),
        step matches OpenStep::Fail(CaptureError::Ioctl { op, source }) ==> source@ == words@ && (
        match state.stage {
            Stage::Capabilities => op is QueryCapabilities,
            Stage::Format => op is SetFormat,
            Stage::Request => op is RequestBuffers,
            Stage::Query(_) => op is QueryBuffer,
            Stage::Export(_) => op is ExportBuffer,
            Stage::Queue(_) => op is QueueBuffer,
            Stage::Stream => op is StreamOn,
            _ => false,
        }),
        state.stage matches Stage::Mapping(i) ==> (step matches OpenStep::Fail(
            CaptureError::Mmap { index, source },
        ) && index == i && source@ == words@),
        state.stage == Stage::Rate || (step is Fail && after.stage == Stage::Failed),
{
}

/// A format that the driver did not grant is what was asked for, and those that it offers are listed
/// as far as they are known.
pub proof fn a_refused_format_is_named(
    state: OpeningView,
    list: Option<Vec<FourCC>>,
    after: OpeningView,
    step: OpenStep,
)
    requires
        state.stage == Stage::Formats,
        state.leads(Answer::Formats(list), after, step),
    ensures
        after.stage == Stage::Failed,
        step is Fail && step->Fail_0 is Format,
        step->Fail_0->requested == state.config.fourcc,
        list matches Some(formats) ==> step->Fail_0->available@ == format_list(formats@),
        list is None ==> step->Fail_0->available@ == "<unknown>"@,
{
}

} // verus!
