//! Zero-copy import of DMA-BUFs into Vulkan: which device extensions it needs, the steps of an
//! import and what is cleaned up when one fails, and the barriers around each read.
pub mod barrier;
pub mod extension;
pub mod import;
pub mod texture;

pub use barrier::{foreign_acquire, foreign_release, Barrier, Queue, Transfer};
pub use extension::{device_extensions, import_supported, missing_extension, Extension};
pub use import::{
    Cleanup, DmabufImageDesc, DmabufImportError, DmabufPlane, ImageInfo, Import, ImportAnswer,
    ImportStage, ImportStep, ModifierProperties, VulkanOp, DRM_FORMAT_MOD_LINEAR,
};
pub use texture::{hal_uses, vk_format, vk_usage, TextureFormat};
