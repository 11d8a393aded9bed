//! Camera enumeration and V4L2 controls (brightness, focus, zoom, ...).
pub mod cid;
pub mod device;
pub mod setting;

pub use device::{cstr, devices, probe, video_nodes, DeviceInfo, Node, NodeCapabilities};
pub use setting::{
    find_setting, get_setting, set_focus, set_setting, settings, ControlDescription, ControlError,
    ControlKind, ControlValue, ControlWrite, FocusPlan, MenuItem, Scalar, Setting,
};
