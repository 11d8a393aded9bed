//! Common control ids, as V4L2 numbers them.
use vstd::prelude::*;

verus! {

pub const BRIGHTNESS: u32 = 0x0098_0900;

pub const CONTRAST: u32 = 0x0098_0901;

pub const SATURATION: u32 = 0x0098_0902;

pub const WHITE_BALANCE_AUTO: u32 = 0x0098_090c;

pub const GAIN: u32 = 0x0098_0913;

pub const POWER_LINE_FREQUENCY: u32 = 0x0098_0918;

pub const WHITE_BALANCE_TEMPERATURE: u32 = 0x0098_091a;

pub const SHARPNESS: u32 = 0x0098_091b;

pub const BACKLIGHT_COMPENSATION: u32 = 0x0098_091c;

pub const EXPOSURE_AUTO: u32 = 0x009a_0901;

pub const EXPOSURE_ABSOLUTE: u32 = 0x009a_0902;

pub const PAN_ABSOLUTE: u32 = 0x009a_0908;

pub const TILT_ABSOLUTE: u32 = 0x009a_0909;

/// 0 is infinity, the maximum is closest. Ignored by the driver while [`FOCUS_AUTO`] is on.
pub const FOCUS_ABSOLUTE: u32 = 0x009a_090a;

/// Continuous autofocus.
pub const FOCUS_AUTO: u32 = 0x009a_090c;

pub const ZOOM_ABSOLUTE: u32 = 0x009a_090d;

/// The controls of a picture and those of a camera are each numbered within their class.
pub proof fn controls_are_numbered_in_their_class()
    ensures
        BRIGHTNESS == 0x0098_0900,
        CONTRAST == BRIGHTNESS + 1,
        SATURATION == BRIGHTNESS + 2,
        WHITE_BALANCE_AUTO == BRIGHTNESS + 12,
        GAIN == BRIGHTNESS + 19,
        POWER_LINE_FREQUENCY == BRIGHTNESS + 24,
        WHITE_BALANCE_TEMPERATURE == BRIGHTNESS + 26,
        SHARPNESS == BRIGHTNESS + 27,
        BACKLIGHT_COMPENSATION == BRIGHTNESS + 28,
        EXPOSURE_AUTO == 0x009a_0900 + 1,
        EXPOSURE_ABSOLUTE == 0x009a_0900 + 2,
        PAN_ABSOLUTE == 0x009a_0900 + 8,
        TILT_ABSOLUTE == 0x009a_0900 + 9,
        FOCUS_ABSOLUTE == 0x009a_0900 + 10,
        FOCUS_AUTO == 0x009a_0900 + 12,
        ZOOM_ABSOLUTE == 0x009a_0900 + 13,
{
}

} // verus!
