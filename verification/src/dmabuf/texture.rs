//! Texture formats and usages, as wgpu and as Vulkan have them.
use vstd::prelude::*;

verus! {

/// The texture formats that a DMA-BUF can be imported as.
#[derive(Debug, Clone, Copy, PartialEq, Eq, Structural)]
pub enum TextureFormat {
    R8Unorm,
    Rg8Unorm,
    Rgba8Unorm,
    Rgba8UnormSrgb,
    Bgra8Unorm,
    Bgra8UnormSrgb,
    R16Unorm,
    Rg16Unorm,
    Rgba16Unorm,
    Rgb10a2Unorm,
    /// Any other.
    Other,
}

/// `wgpu::TextureUsages`, as bits.
pub const COPY_SRC: u32 = 0x01;

pub const COPY_DST: u32 = 0x02;

pub const TEXTURE_BINDING: u32 = 0x04;

pub const STORAGE_BINDING: u32 = 0x08;

pub const RENDER_ATTACHMENT: u32 = 0x10;

/// `VkImageUsageFlagBits`.
pub const USAGE_TRANSFER_SRC: u32 = 0x01;

pub const USAGE_TRANSFER_DST: u32 = 0x02;

pub const USAGE_SAMPLED: u32 = 0x04;

pub const USAGE_STORAGE: u32 = 0x08;

pub const USAGE_COLOR_ATTACHMENT: u32 = 0x10;

/// `wgpu::TextureUses`, as bits.
pub const USES_COPY_SRC: u32 = 0x0004;

pub const USES_COPY_DST: u32 = 0x0008;

pub const USES_RESOURCE: u32 = 0x0010;

pub const USES_COLOR_TARGET: u32 = 0x0020;

pub const USES_STORAGE_READ_WRITE: u32 = 0x0400;

/// The `VkFormat` of a texture format, as Vulkan numbers them.
pub open spec fn format_number(format: TextureFormat) -> Option<i32> {
    match format {
        TextureFormat::R8Unorm => Some(9),
        TextureFormat::Rg8Unorm => Some(16),
        TextureFormat::Rgba8Unorm => Some(37),
        TextureFormat::Rgba8UnormSrgb => Some(43),
        TextureFormat::Bgra8Unorm => Some(44),
        TextureFormat::Bgra8UnormSrgb => Some(50),
        TextureFormat::R16Unorm => Some(70),
        TextureFormat::Rg16Unorm => Some(77),
        TextureFormat::Rgba16Unorm => Some(91),
        TextureFormat::Rgb10a2Unorm => Some(64),
        TextureFormat::Other => None,
    }
}

/// The Vulkan format with the same layout, if there is one.
pub fn vk_format(format: TextureFormat) -> (r: Option<i32>)
    ensures
        r == format_number(format),
{
    match format {
        TextureFormat::R8Unorm => Some(9),
        TextureFormat::Rg8Unorm => Some(16),
        TextureFormat::Rgba8Unorm => Some(37),
        TextureFormat::Rgba8UnormSrgb => Some(43),
        TextureFormat::Bgra8Unorm => Some(44),
        TextureFormat::Bgra8UnormSrgb => Some(50),
        TextureFormat::R16Unorm => Some(70),
        TextureFormat::Rg16Unorm => Some(77),
        TextureFormat::Rgba16Unorm => Some(91),
        TextureFormat::Rgb10a2Unorm => Some(64),
        TextureFormat::Other => None,
    }
}

/// No two texture formats share a Vulkan format.
pub proof fn formats_are_told_apart(a: TextureFormat, b: TextureFormat)
    requires
        format_number(a) == format_number(b),
    ensures
        a == b,
{
}

/// `bit` where `usage` has `flag`, else nothing.
pub open spec fn carried(usage: u32, flag: u32, bit: u32) -> u32 {
    if usage & flag == flag {
        bit
    } else {
        0
    }
}

fn carry(usage: u32, flag: u32, bit: u32) -> (r: u32)
    ensures
        r == carried(usage, flag, bit),
{
    if usage & flag == flag {
        bit
    } else {
        0
    }
}

pub open spec fn image_usage(usage: u32) -> u32 {
    carried(usage, COPY_SRC, USAGE_TRANSFER_SRC) | carried(usage, COPY_DST, USAGE_TRANSFER_DST)
        | carried(usage, TEXTURE_BINDING, USAGE_SAMPLED) | carried(
        usage,
        STORAGE_BINDING,
        USAGE_STORAGE,
    ) | carried(usage, RENDER_ATTACHMENT, USAGE_COLOR_ATTACHMENT)
}

pub open spec fn texture_uses(usage: u32) -> u32 {
    carried(usage, COPY_SRC, USES_COPY_SRC) | carried(usage, COPY_DST, USES_COPY_DST) | carried(
        usage,
        TEXTURE_BINDING,
        USES_RESOURCE,
    ) | carried(usage, STORAGE_BINDING, USES_STORAGE_READ_WRITE) | carried(
        usage,
        RENDER_ATTACHMENT,
        USES_COLOR_TARGET,
    )
}

/// The Vulkan image usages for a texture's usages.
pub fn vk_usage(usage: u32) -> (r: u32)
    ensures
        r == image_usage(usage),
{
    carry(usage, COPY_SRC, USAGE_TRANSFER_SRC) | carry(usage, COPY_DST, USAGE_TRANSFER_DST) | carry(
        usage,
        TEXTURE_BINDING,
        USAGE_SAMPLED,
    ) | carry(usage, STORAGE_BINDING, USAGE_STORAGE) | carry(
        usage,
        RENDER_ATTACHMENT,
        USAGE_COLOR_ATTACHMENT,
    )
}

/// The states that wgpu tracks for a texture's usages.
pub fn hal_uses(usage: u32) -> (r: u32)
    ensures
        r == texture_uses(usage),
{
    carry(usage, COPY_SRC, USES_COPY_SRC) | carry(usage, COPY_DST, USES_COPY_DST) | carry(
        usage,
        TEXTURE_BINDING,
        USES_RESOURCE,
    ) | carry(usage, STORAGE_BINDING, USES_STORAGE_READ_WRITE) | carry(
        usage,
        RENDER_ATTACHMENT,
        USES_COLOR_TARGET,
    )
}

/// Usages are carried over one by one: an image can be used for what the texture is used for, and
/// for nothing else.
pub proof fn usages_are_carried_over(usage: u32)
    ensures
        image_usage(usage) & USAGE_TRANSFER_SRC != 0 <==> usage & COPY_SRC != 0,
        image_usage(usage) & USAGE_TRANSFER_DST != 0 <==> usage & COPY_DST != 0,
        image_usage(usage) & USAGE_SAMPLED != 0 <==> usage & TEXTURE_BINDING != 0,
        image_usage(usage) & USAGE_STORAGE != 0 <==> usage & STORAGE_BINDING != 0,
        image_usage(usage) & USAGE_COLOR_ATTACHMENT != 0 <==> usage & RENDER_ATTACHMENT != 0,
        image_usage(usage) & 0xffff_ffe0 == 0,
        texture_uses(usage) & USES_COPY_SRC != 0 <==> usage & COPY_SRC != 0,
        texture_uses(usage) & USES_COPY_DST != 0 <==> usage & COPY_DST != 0,
        texture_uses(usage) & USES_RESOURCE != 0 <==> usage & TEXTURE_BINDING != 0,
        texture_uses(usage) & USES_STORAGE_READ_WRITE != 0 <==> usage & STORAGE_BINDING != 0,
        texture_uses(usage) & USES_COLOR_TARGET != 0 <==> usage & RENDER_ATTACHMENT != 0,
        texture_uses(usage) & 0xffff_fbc3 == 0,
{
    let (a, b, c, d, e) = (
        usage & 0x01,
        usage & 0x02,
        usage & 0x04,
        usage & 0x08,
        usage & 0x10,
    );
    assert((usage & 0x01 == 0 || usage & 0x01 == 0x01) && (usage & 0x02 == 0 || usage & 0x02 == 0x02)
        && (usage & 0x04 == 0 || usage & 0x04 == 0x04) && (usage & 0x08 == 0 || usage & 0x08
        == 0x08) && (usage & 0x10 == 0 || usage & 0x10 == 0x10)) by (bit_vector);
    lemma_union(
        carried(usage, COPY_SRC, USAGE_TRANSFER_SRC),
        carried(usage, COPY_DST, USAGE_TRANSFER_DST),
        carried(usage, TEXTURE_BINDING, USAGE_SAMPLED),
        carried(usage, STORAGE_BINDING, USAGE_STORAGE),
        carried(usage, RENDER_ATTACHMENT, USAGE_COLOR_ATTACHMENT),
    );
    lemma_uses_union(
        carried(usage, COPY_SRC, USES_COPY_SRC),
        carried(usage, COPY_DST, USES_COPY_DST),
        carried(usage, TEXTURE_BINDING, USES_RESOURCE),
        carried(usage, STORAGE_BINDING, USES_STORAGE_READ_WRITE),
        carried(usage, RENDER_ATTACHMENT, USES_COLOR_TARGET),
    );
}

proof fn lemma_union(a: u32, b: u32, c: u32, d: u32, e: u32)
    by (bit_vector)
    requires
        a == 0 || a == 0x01,
        b == 0 || b == 0x02,
        c == 0 || c == 0x04,
        d == 0 || d == 0x08,
        e == 0 || e == 0x10,
    ensures
        (a | b | c | d | e) & 0x01 == a,
        (a | b | c | d | e) & 0x02 == b,
        (a | b | c | d | e) & 0x04 == c,
        (a | b | c | d | e) & 0x08 == d,
        (a | b | c | d | e) & 0x10 == e,
        (a | b | c | d | e) & 0xffff_ffe0 == 0,
{
}

proof fn lemma_uses_union(a: u32, b: u32, c: u32, d: u32, e: u32)
    by (bit_vector)
    requires
        a == 0 || a == 0x0004,
        b == 0 || b == 0x0008,
        c == 0 || c == 0x0010,
        d == 0 || d == 0x0400,
        e == 0 || e == 0x0020,
    ensures
        (a | b | c | d | e) & 0x0004 == a,
        (a | b | c | d | e) & 0x0008 == b,
        (a | b | c | d | e) & 0x0010 == c,
        (a | b | c | d | e) & 0x0400 == d,
        (a | b | c | d | e) & 0x0020 == e,
        (a | b | c | d | e) & 0xffff_fbc3 == 0,
{
}

/// Vulkan numbers the seven variants of a layout one after the other, from nine on; the layouts of
/// one to four bytes come first, those of 16 bits to the channel later. The sRGB variant is the last
/// of its seven.
pub proof fn formats_are_numbered_by_layout()
    ensures
        format_number(TextureFormat::R8Unorm) == Some(9i32),
        format_number(TextureFormat::Rg8Unorm) == Some((9 + 7) as i32),
        format_number(TextureFormat::Rgba8Unorm) == Some((9 + 4 * 7) as i32),
        format_number(TextureFormat::Bgra8Unorm) == Some((9 + 5 * 7) as i32),
        format_number(TextureFormat::Rgba8UnormSrgb) == Some(
            (format_number(TextureFormat::Rgba8Unorm)->0 + 6) as i32,
        ),
        format_number(TextureFormat::Bgra8UnormSrgb) == Some(
            (format_number(TextureFormat::Bgra8Unorm)->0 + 6) as i32,
        ),
        format_number(TextureFormat::R16Unorm) == Some(70i32),
        format_number(TextureFormat::Rg16Unorm) == Some((70 + 7) as i32),
        format_number(TextureFormat::Rgba16Unorm) == Some((70 + 3 * 7) as i32),
        format_number(TextureFormat::Rgb10a2Unorm) == Some(64i32),
        format_number(TextureFormat::Other) is None,
{
}

} // verus!
