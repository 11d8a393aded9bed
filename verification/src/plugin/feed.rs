//! Opening a camera: what to capture with, and the texture that shows it.
use vstd::arithmetic::power2;
use vstd::prelude::*;
use vstd::string::*;

use crate::capture::config::CaptureConfig;
use crate::capture::frame::FrameLayout;
use crate::capture::modes::CaptureMode;
use crate::dmabuf::import::{DmabufImageDesc, DmabufPlane, DRM_FORMAT_MOD_LINEAR};
use crate::dmabuf::texture::{TextureFormat, COPY_SRC, TEXTURE_BINDING};
use crate::fourcc::{FourCC, FOURCC_MJPG, FOURCC_UYVY, FOURCC_YUYV};
use crate::plugin::webcam::Webcam;
use crate::request::{self, choose_format, RequestedFormat};
use crate::select::{self, Choice};
use crate::single::{self, F32};
use crate::text;

verus! {

pub const FLAG_MIRROR: u32 = 1;

pub const FLAG_UYVY: u32 = 2;

pub const FLAG_FULL_RANGE: u32 = 4;

/// Texture already holds RGBA; sample it directly.
pub const FLAG_RGBA: u32 = 8;

/// Uniform of the material that shows the frames.
#[derive(Debug, Clone, Copy, PartialEq, Eq, Structural)]
pub struct WebcamParams {
    pub width: u32,
    pub height: u32,
    pub flags: u32,
    pub _pad: u32,
}

/// Why a camera cannot be shown. What the system or the driver had to say is in its words.
#[derive(Debug, Clone)]
pub enum FeedError {
    Enumerate { device: String, source: String },
    /// Nothing that the device offers matches the request, here in words.
    NothingMatching { device: String, request: String },
    Unavailable(String),
    UnsupportedFormat(FourCC),
    OddWidth(u32),
}

impl FeedError {
    pub open spec fn message(self) -> Seq<char> {
        match self {
            FeedError::Enumerate { device, source } => "cannot enumerate "@ + device@ + ": "@
                + source@,
            FeedError::NothingMatching { device, request } => device@
                + " offers nothing matching "@ + request@,
            FeedError::Unavailable(source) => "webcam unavailable: "@ + source@,
            FeedError::UnsupportedFormat(fourcc) => "unsupported pixel format "@ + fourcc.text()
                + "; only YUYV, UYVY and MJPG are handled"@,
            FeedError::OddWidth(width) => "frame width "@ + text::decimal(width as nat)
                + " is odd; packed 4:2:2 needs an even width"@,
        }
    }

    /// The error in words.
    pub fn to_string(&self) -> (r: String)
        ensures
            r@ == self.message(),
    {
        let mut out = String::new();
        match self {
            FeedError::Enumerate { device, source } => {
                out.append("cannot enumerate ");
                out.append(device.as_str());
                out.append(": ");
                out.append(source.as_str());
            },
            FeedError::NothingMatching { device, request } => {
                out.append(device.as_str());
                out.append(" offers nothing matching ");
                out.append(request.as_str());
            },
            FeedError::Unavailable(source) => {
                out.append("webcam unavailable: ");
                out.append(source.as_str());
            },
            FeedError::UnsupportedFormat(fourcc) => {
                out.append("unsupported pixel format ");
                out.append(fourcc.to_string().as_str());
                out.append("; only YUYV, UYVY and MJPG are handled");
            },
            FeedError::OddWidth(width) => {
                out.append("frame width ");
                text::append_decimal(&mut out, *width as u64);
                out.append(" is odd; packed 4:2:2 needs an even width");
            },
        }
        proof {
            assert(out@ =~= self.message());
        }
        out
    }
}

/// `config` opens the camera in the chosen mode.
pub open spec fn opens(config: CaptureConfig, webcam: Webcam, choice: Choice) -> bool {
    &&& config.device@ == webcam.device@
    &&& config.width == choice.width
    &&& config.height == choice.height
    &&& config.fourcc == choice.fourcc
    &&& config.fps == Some(choice.fps.spec_rounded() as u32)
    &&& config.buffer_count == webcam.buffers
    &&& config.flush_cpu_cache == webcam.flush_cpu_cache
}

/// What to open the camera with, in the chosen mode.
pub fn capture_config(webcam: &Webcam, choice: &Choice) -> (r: CaptureConfig)
    ensures
        opens(r, *webcam, *choice),
{
    CaptureConfig {
        device: webcam.device.clone(),
        width: choice.width,
        height: choice.height,
        fourcc: choice.fourcc,
        fps: Some(choice.fps.rounded()),
        buffer_count: webcam.buffers,
        flush_cpu_cache: webcam.flush_cpu_cache,
    }
}

/// What to open the camera with, of the modes that it offers; nothing where none matches the
/// request.
pub fn open_request(webcam: &Webcam, modes: &[CaptureMode]) -> (r: Option<(Choice, CaptureConfig)>)
    ensures
        r is Some <==> request::matched(modes@, webcam.format),
        r matches Some((choice, config)) ==> request::chosen(modes@, webcam.format, choice)
            && opens(config, *webcam, choice),
{
    match choose_format(modes, webcam.format) {
        Some(choice) => {
            let config = capture_config(webcam, &choice);
            Some((choice, config))
        },
        None => None,
    }
}

/// The texture that the frames end up in, and how it is shown.
#[derive(Debug, Clone, Copy, PartialEq, Eq, Structural)]
pub struct FeedPlan {
    /// Frames are decoded on a thread.
    pub decode: bool,
    pub texture_width: u32,
    pub texture_height: u32,
    pub texture_format: TextureFormat,
    /// Sampled smoothly rather than texel by texel.
    pub smooth: bool,
    pub params: WebcamParams,
}

/// A frame of four-character code `code`.
pub open spec fn coded(layout: FrameLayout, code: u32) -> bool {
    layout.fourcc.code == code
}

pub open spec fn flag_if(b: bool, flag: u32) -> u32 {
    if b {
        flag
    } else {
        0
    }
}

/// What tells the shader how to read the texture.
pub open spec fn shader_flags(layout: FrameLayout, mirror: bool) -> u32 {
    flag_if(coded(layout, FOURCC_MJPG), FLAG_RGBA) | flag_if(mirror, FLAG_MIRROR) | flag_if(
        coded(layout, FOURCC_UYVY),
        FLAG_UYVY,
    ) | flag_if(layout.full_range, FLAG_FULL_RANGE)
}

/// Why a stream of this layout cannot be shown.
pub open spec fn cannot_show(layout: FrameLayout) -> Option<FeedError> {
    if coded(layout, FOURCC_MJPG) {
        None
    } else if !coded(layout, FOURCC_YUYV) && !coded(layout, FOURCC_UYVY) {
        Some(FeedError::UnsupportedFormat(layout.fourcc))
    } else if layout.width % 2 != 0 {
        Some(FeedError::OddWidth(layout.width))
    } else {
        None
    }
}

/// Raw 4:2:2 has one texel for a pair of pixels. MJPEG is decoded to sRGB at full width.
pub open spec fn plan_for(layout: FrameLayout, mirror: bool) -> FeedPlan {
    let mjpeg = coded(layout, FOURCC_MJPG);
    FeedPlan {
        decode: mjpeg,
        texture_width: if mjpeg {
            layout.width
        } else {
            (layout.width / 2) as u32
        },
        texture_height: layout.height,
        texture_format: if mjpeg {
            TextureFormat::Rgba8UnormSrgb
        } else {
            TextureFormat::Rgba8Unorm
        },
        smooth: mjpeg,
        params: WebcamParams {
            width: layout.width,
            height: layout.height,
            flags: shader_flags(layout, mirror),
            _pad: 0,
        },
    }
}

/// How to show a stream of this layout, or why it cannot be shown.
pub fn open_feed(webcam: &Webcam, layout: &FrameLayout) -> (r: Result<FeedPlan, FeedError>)
    ensures
        match cannot_show(*layout) {
            Some(error) => r == Err::<FeedPlan, FeedError>(error),
            None => r == Ok::<FeedPlan, FeedError>(plan_for(*layout, webcam.mirror)),
        },
        r matches Ok(plan) ==> 4 * plan.texture_width == if layout.fourcc.code == FOURCC_MJPG {
            4 * layout.width
        } else {
            2 * layout.width
        },
{
    let mjpeg = layout.fourcc.code == FOURCC_MJPG;
    let uyvy = layout.fourcc.code == FOURCC_UYVY;
    if !mjpeg && layout.fourcc.code != FOURCC_YUYV && !uyvy {
        return Err(FeedError::UnsupportedFormat(layout.fourcc));
    }
    if !mjpeg && layout.width % 2 != 0 {
        return Err(FeedError::OddWidth(layout.width));
    }
    let rgba: u32 = if mjpeg {
        FLAG_RGBA
    } else {
        0
    };
    let mirrored: u32 = if webcam.mirror {
        FLAG_MIRROR
    } else {
        0
    };
    let swapped: u32 = if uyvy {
        FLAG_UYVY
    } else {
        0
    };
    let full: u32 = if layout.full_range {
        FLAG_FULL_RANGE
    } else {
        0
    };
    Ok(
        FeedPlan {
            decode: mjpeg,
            texture_width: if mjpeg {
                layout.width
            } else {
                layout.width / 2
            },
            texture_height: layout.height,
            texture_format: if mjpeg {
                TextureFormat::Rgba8UnormSrgb
            } else {
                TextureFormat::Rgba8Unorm
            },
            smooth: mjpeg,
            params: WebcamParams {
                width: layout.width,
                height: layout.height,
                flags: rgba | mirrored | swapped | full,
                _pad: 0,
            },
        },
    )
}

/// The plane that shows the camera, width and height: as high as asked for, and as wide as the
/// aspect ratio of the frames makes it.
pub fn plane_size(webcam: &Webcam, layout: &FrameLayout) -> (r: (F32, F32))
    ensures
        r.0 == webcam.plane_height.spec_times(F32::of_nat(layout.width as nat)).spec_over(
            F32::of_nat(layout.height as nat),
        ),
        r.1 == webcam.plane_height,
{
    let width = webcam.plane_height.times(&F32::from_u64(layout.width as u64)).over(
        &F32::from_u64(layout.height as u64),
    );
    (width, webcam.plane_height)
}

/// The image that a buffer of raw frames is imported as: a texel for a pair of pixels.
pub fn import_desc(layout: &FrameLayout, offset: u64) -> (r: DmabufImageDesc)
    ensures
        r == (DmabufImageDesc {
            width: (layout.width / 2) as u32,
            height: layout.height,
            format: TextureFormat::Rgba8Unorm,
            modifier: DRM_FORMAT_MOD_LINEAR,
            plane: DmabufPlane { offset, stride: layout.stride },
            usage: COPY_SRC | TEXTURE_BINDING,
        }),
        r.modifier == 0 && r.plane.stride == layout.stride && r.usage & 0x01 != 0 && r.usage & 0x04
            != 0,
        layout.width % 2 == 0 ==> 4 * r.width == 2 * layout.width,
        layout.fourcc.code != FOURCC_MJPG ==> r.width == plan_for(*layout, false).texture_width
            && r.height == plan_for(*layout, false).texture_height && r.format == plan_for(
            *layout,
            false,
        ).texture_format,
{
    proof {
        assert((0x01u32 | 0x04u32) & 0x01 != 0 && (0x01u32 | 0x04u32) & 0x04 != 0) by (bit_vector);
    }
    DmabufImageDesc {
        width: layout.width / 2,
        height: layout.height,
        format: TextureFormat::Rgba8Unorm,
        modifier: DRM_FORMAT_MOD_LINEAR,
        plane: DmabufPlane { offset, stride: layout.stride },
        usage: COPY_SRC | TEXTURE_BINDING,
    }
}

/// The shader is told apart the four things that it needs to know.
pub proof fn flags_are_told_apart(layout: FrameLayout, mirror: bool)
    ensures
        shader_flags(layout, mirror) & FLAG_RGBA != 0 <==> coded(layout, FOURCC_MJPG),
        shader_flags(layout, mirror) & FLAG_MIRROR != 0 <==> mirror,
        shader_flags(layout, mirror) & FLAG_UYVY != 0 <==> coded(layout, FOURCC_UYVY),
        shader_flags(layout, mirror) & FLAG_FULL_RANGE != 0 <==> layout.full_range,
{
    lemma_flags(
        flag_if(coded(layout, FOURCC_MJPG), FLAG_RGBA),
        flag_if(mirror, FLAG_MIRROR),
        flag_if(coded(layout, FOURCC_UYVY), FLAG_UYVY),
        flag_if(layout.full_range, FLAG_FULL_RANGE),
    );
}

proof fn lemma_flags(a: u32, b: u32, c: u32, d: u32)
    by (bit_vector)
    requires
        a == 0 || a == 8,
        b == 0 || b == 1,
        c == 0 || c == 2,
        d == 0 || d == 4,
    ensures
        (a | b | c | d) & 8 == a,
        (a | b | c | d) & 1 == b,
        (a | b | c | d) & 2 == c,
        (a | b | c | d) & 4 == d,
        (a | b | c | d) < 16,
{
}

/// A mode that was chosen can be shown, if the driver grants its format and the width of the
/// frames is even.
pub proof fn a_chosen_mode_can_be_shown(
    modes: Seq<CaptureMode>,
    wanted: RequestedFormat,
    choice: Choice,
    layout: FrameLayout,
)
    requires
        request::chosen(modes, wanted, choice),
        layout.fourcc == choice.fourcc,
        layout.width % 2 == 0,
    ensures
        cannot_show(layout) is None,
{
    match wanted {
        RequestedFormat::Exact(f) => {
            let i = choose|i: int| #[trigger]
                f.picked_exactly(modes, i) && choice.fourcc == modes[i].fourcc;
            assert(select::usable(modes[i], f.as_want()));
        },
        RequestedFormat::HighestFrameRate => {
            let i = choose|i: int| #[trigger]
                request::picked_fastest(modes, wanted.as_want(), i) && choice == select::choice_of(
                    modes[i],
                    wanted.as_want(),
                );
            assert(select::usable(modes[i], wanted.as_want()));
        },
        _ => {
            let i = choose|i: int| #[trigger]
                select::picked(modes, wanted.as_want(), i) && choice == select::choice_of(
                    modes[i],
                    wanted.as_want(),
                );
            assert(select::usable(modes[i], wanted.as_want()));
        },
    }
}

/// A stream can be shown if it is MJPEG, or raw of an even width; what is said otherwise names the
/// format or the width that is in the way.
pub proof fn what_can_be_shown(layout: FrameLayout)
    ensures
        cannot_show(layout) is None <==> layout.fourcc.code == FOURCC_MJPG || ((
        layout.fourcc.code == FOURCC_YUYV || layout.fourcc.code == FOURCC_UYVY) && layout.width % 2
            == 0),
        cannot_show(layout) matches Some(FeedError::UnsupportedFormat(f)) ==> f == layout.fourcc
            && f.code != FOURCC_YUYV && f.code != FOURCC_UYVY && f.code != FOURCC_MJPG,
        cannot_show(layout) matches Some(FeedError::OddWidth(w)) ==> w == layout.width && w % 2
            == 1 && (layout.fourcc.code == FOURCC_YUYV || layout.fourcc.code == FOURCC_UYVY),
        cannot_show(layout) matches Some(e) ==> e is UnsupportedFormat || e is OddWidth,
{
}

/// A row of the texture holds the bytes of a row of pixels: two a pixel where they are raw, of
/// either order, and four where they are decoded. The texture has as many rows as the frame, is
/// read as colours only where it holds colours, and the shader is told the size of the frame.
pub proof fn the_texture_holds_the_frame(layout: FrameLayout, mirror: bool)
    requires
        cannot_show(layout) is None,
    ensures
        ({
            let plan = plan_for(layout, mirror);
            let raw = layout.fourcc.code == FOURCC_YUYV || layout.fourcc.code == FOURCC_UYVY;
            &&& raw || layout.fourcc.code == FOURCC_MJPG
            &&& 4 * plan.texture_width == if raw {
                2 * layout.width
            } else {
                4 * layout.width
            }
            &&& plan.texture_height == layout.height
            &&& plan.decode == !raw
            &&& plan.smooth == !raw
            &&& raw <==> plan.texture_format == TextureFormat::Rgba8Unorm
            &&& !raw <==> plan.texture_format == TextureFormat::Rgba8UnormSrgb
            &&& plan.params.width == layout.width
            &&& plan.params.height == layout.height
            &&& plan.params._pad == 0
        }),
{
}

/// The shader's flags: one for decoded colours, one for a mirrored picture, one for the order of
/// the bytes, one for the range, and no others.
pub proof fn each_flag_says_one_thing(layout: FrameLayout, mirror: bool)
    ensures
        ({
            let flags = plan_for(layout, mirror).params.flags;
            &&& flags & 1 != 0 <==> mirror
            &&& flags & 2 != 0 <==> layout.fourcc.code == FOURCC_UYVY
            &&& flags & 4 != 0 <==> layout.full_range
            &&& flags & 8 != 0 <==> layout.fourcc.code == FOURCC_MJPG
            &&& flags < 16
        }),
{
    lemma_flags(
        flag_if(coded(layout, FOURCC_MJPG), FLAG_RGBA),
        flag_if(mirror, FLAG_MIRROR),
        flag_if(coded(layout, FOURCC_UYVY), FLAG_UYVY),
        flag_if(layout.full_range, FLAG_FULL_RANGE),
    );
}

/// The words of an error hold what it is about.
pub proof fn an_error_says_what_it_is_about(device: String, words: String, width: u32)
    ensures
        words@.is_suffix_of((FeedError::Enumerate { device, source: words }).message()),
        words@.is_suffix_of((FeedError::NothingMatching { device, request: words }).message()),
        device@.is_prefix_of((FeedError::NothingMatching { device, request: words }).message()),
        words@.is_suffix_of(FeedError::Unavailable(words).message()),
{
    let a = (FeedError::Enumerate { device, source: words }).message();
    let b = (FeedError::NothingMatching { device, request: words }).message();
    let c = FeedError::Unavailable(words).message();
    assert(words@ =~= a.subrange(a.len() - words@.len(), a.len() as int));
    assert(words@ =~= b.subrange(b.len() - words@.len(), b.len() as int));
    assert(device@ =~= b.subrange(0, device@.len() as int));
    assert(words@ =~= c.subrange(c.len() - words@.len(), c.len() as int));
}

/// A camera is opened in the mode that was chosen, at the whole rate that is nearest to the chosen
/// one, with the buffers that were asked for.
pub proof fn a_camera_is_opened_in_the_chosen_mode(
    config: CaptureConfig,
    webcam: Webcam,
    choice: Choice,
    rate: nat,
)
    requires
        opens(config, webcam, choice),
    ensures
        config.device@ == webcam.device@,
        config.width == choice.width && config.height == choice.height,
        config.fourcc.code == choice.fourcc.code,
        config.buffer_count == webcam.buffers,
        config.flush_cpu_cache == webcam.flush_cpu_cache,
        choice.fps == F32::of_nat(rate) && rate < 0x100_0000 ==> config.fps == Some(rate as u32),
        choice.fps.bits <= 0x7f80_0000 && choice.fps.value() < 0xffff_ffff * power2::pow2(149) ==> (
        config.fps matches Some(f) && 2 * (f * power2::pow2(149)) <= 2 * choice.fps.value()
            + power2::pow2(149) && 2 * choice.fps.value() < 2 * (f * power2::pow2(149))
            + power2::pow2(149)),
{
    let w = power2::pow2(149);
    power2::lemma_pow2_pos(149);
    if choice.fps.bits <= 0x7f80_0000 && choice.fps.value() < 0xffff_ffff * w {
        single::rounding_is_off_by_half_at_most(choice.fps);
    }
    if choice.fps == F32::of_nat(rate) && rate < 0x100_0000 {
        single::whole_numbers_are_held(rate);
        assert(rate * w < 0xffff_ffff * w) by (nonlinear_arith)
            requires
                rate < 0x100_0000,
                w > 0,
        ;
        single::rounding_is_off_by_half_at_most(choice.fps);
        let r = choice.fps.spec_rounded();
        assert(r == rate) by (nonlinear_arith)
            requires
                2 * (r * w) <= 2 * (rate * w) + w,
                2 * (r * w) + w > 2 * (rate * w),
                w > 0,
        ;
    }
}

} // verus!
