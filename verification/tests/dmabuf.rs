use ash::vk;
use bevy_v4l2::dmabuf::barrier::{
    ACCESS_HOST_WRITE, ACCESS_READ, QUEUE_FAMILY_FOREIGN, STAGE_BOTTOM, STAGE_HOST, STAGE_READ,
    STAGE_TOP,
};
use bevy_v4l2::dmabuf::extension::API_VERSION_1_2;
use bevy_v4l2::dmabuf::import::{
    check_importable, check_modifier_supported, FEATURE_IMPORTABLE, FEATURE_TRANSFER_SRC,
};
use bevy_v4l2::dmabuf::texture::{
    COPY_DST, COPY_SRC, RENDER_ATTACHMENT, STORAGE_BINDING, TEXTURE_BINDING,
};
use bevy_v4l2::dmabuf::{
    device_extensions, foreign_acquire, foreign_release, hal_uses, import_supported,
    missing_extension, vk_format, vk_usage, Cleanup, DmabufImageDesc, DmabufImportError,
    DmabufPlane, Extension, Import, ImportAnswer, ImportStage, ImportStep, ModifierProperties,
    Queue, TextureFormat, VulkanOp, DRM_FORMAT_MOD_LINEAR,
};

const REQUIRED: [Extension; 3] = [
    Extension::ExternalMemoryFd,
    Extension::ExternalMemoryDmaBuf,
    Extension::ImageDrmFormatModifier,
];

#[test]
fn formats_have_the_numbers_of_vulkan() {
    for (format, number) in [
        (TextureFormat::R8Unorm, vk::Format::R8_UNORM),
        (TextureFormat::Rg8Unorm, vk::Format::R8G8_UNORM),
        (TextureFormat::Rgba8Unorm, vk::Format::R8G8B8A8_UNORM),
        (TextureFormat::Rgba8UnormSrgb, vk::Format::R8G8B8A8_SRGB),
        (TextureFormat::Bgra8Unorm, vk::Format::B8G8R8A8_UNORM),
        (TextureFormat::Bgra8UnormSrgb, vk::Format::B8G8R8A8_SRGB),
        (TextureFormat::R16Unorm, vk::Format::R16_UNORM),
        (TextureFormat::Rg16Unorm, vk::Format::R16G16_UNORM),
        (TextureFormat::Rgba16Unorm, vk::Format::R16G16B16A16_UNORM),
        (TextureFormat::Rgb10a2Unorm, vk::Format::A2B10G10R10_UNORM_PACK32),
    ] {
        assert_eq!(vk_format(format), Some(number.as_raw()));
    }
    assert_eq!(vk_format(TextureFormat::Other), None);
}

#[test]
fn usages_are_those_of_wgpu_and_vulkan() {
    let table = [
        (
            wgpu::TextureUsages::COPY_SRC,
            COPY_SRC,
            vk::ImageUsageFlags::TRANSFER_SRC,
            wgpu::TextureUses::COPY_SRC,
        ),
        (
            wgpu::TextureUsages::COPY_DST,
            COPY_DST,
            vk::ImageUsageFlags::TRANSFER_DST,
            wgpu::TextureUses::COPY_DST,
        ),
        (
            wgpu::TextureUsages::TEXTURE_BINDING,
            TEXTURE_BINDING,
            vk::ImageUsageFlags::SAMPLED,
            wgpu::TextureUses::RESOURCE,
        ),
        (
            wgpu::TextureUsages::STORAGE_BINDING,
            STORAGE_BINDING,
            vk::ImageUsageFlags::STORAGE,
            wgpu::TextureUses::STORAGE_READ_WRITE,
        ),
        (
            wgpu::TextureUsages::RENDER_ATTACHMENT,
            RENDER_ATTACHMENT,
            vk::ImageUsageFlags::COLOR_ATTACHMENT,
            wgpu::TextureUses::COLOR_TARGET,
        ),
    ];
    for (usage, bit, image, uses) in table {
        assert_eq!(usage.bits(), bit);
        assert_eq!(vk_usage(usage.bits()), image.as_raw());
        assert_eq!(hal_uses(usage.bits()), uses.bits() as u32);
    }
    for set in 0..32u32 {
        let mut image = vk::ImageUsageFlags::empty();
        let mut uses = wgpu::TextureUses::empty();
        for (usage, _, i, u) in table {
            if set & usage.bits() != 0 {
                image |= i;
                uses |= u;
            }
        }
        // Bits that mean nothing here are not carried over.
        assert_eq!(vk_usage(set | 0x10000), image.as_raw());
        assert_eq!(hal_uses(set | 0x10000), uses.bits() as u32);
    }
}

#[test]
fn numbers_are_those_of_vulkan() {
    assert_eq!(API_VERSION_1_2, vk::API_VERSION_1_2);
    assert_eq!(FEATURE_TRANSFER_SRC, vk::FormatFeatureFlags::TRANSFER_SRC.as_raw());
    assert_eq!(FEATURE_IMPORTABLE, vk::ExternalMemoryFeatureFlags::IMPORTABLE.as_raw());
    assert_eq!(QUEUE_FAMILY_FOREIGN, vk::QUEUE_FAMILY_FOREIGN_EXT);
    assert_eq!(ACCESS_HOST_WRITE, vk::AccessFlags::HOST_WRITE.as_raw());
    let read = vk::AccessFlags::TRANSFER_READ | vk::AccessFlags::SHADER_READ;
    assert_eq!(ACCESS_READ, read.as_raw());
    assert_eq!(STAGE_HOST, vk::PipelineStageFlags::HOST.as_raw());
    assert_eq!(STAGE_TOP, vk::PipelineStageFlags::TOP_OF_PIPE.as_raw());
    assert_eq!(STAGE_BOTTOM, vk::PipelineStageFlags::BOTTOM_OF_PIPE.as_raw());
    let stages = vk::PipelineStageFlags::TRANSFER
        | vk::PipelineStageFlags::FRAGMENT_SHADER
        | vk::PipelineStageFlags::COMPUTE_SHADER;
    assert_eq!(STAGE_READ, stages.as_raw());
}

#[test]
fn extensions_have_the_names_of_vulkan() {
    for (extension, name) in [
        (Extension::ExternalMemoryFd, ash::khr::external_memory_fd::NAME),
        (Extension::ExternalMemoryDmaBuf, ash::ext::external_memory_dma_buf::NAME),
        (Extension::ImageDrmFormatModifier, ash::ext::image_drm_format_modifier::NAME),
        (Extension::QueueFamilyForeign, ash::ext::queue_family_foreign::NAME),
        (Extension::ImageFormatList, ash::khr::image_format_list::NAME),
        (Extension::BindMemory2, ash::khr::bind_memory2::NAME),
        (Extension::SamplerYcbcrConversion, ash::khr::sampler_ycbcr_conversion::NAME),
        (Extension::Maintenance1, ash::khr::maintenance1::NAME),
        (Extension::GetMemoryRequirements2, ash::khr::get_memory_requirements2::NAME),
    ] {
        assert_eq!(extension.name(), name.to_str().unwrap());
    }
}

#[test]
fn a_device_gets_what_it_has_of_the_extensions() {
    let mut supported = REQUIRED.to_vec();
    supported.push(Extension::Maintenance1);
    supported.push(Extension::QueueFamilyForeign);
    supported.push(Extension::BindMemory2);
    let more = device_extensions(&supported, vk::API_VERSION_1_3, &vec![]).unwrap();
    let mut want = REQUIRED.to_vec();
    want.push(Extension::QueueFamilyForeign);
    assert_eq!(more, want);
    // Older Vulkan needs the dependencies; what is enabled already is not asked for again.
    let enabled = vec![Extension::ExternalMemoryDmaBuf, Extension::Maintenance1];
    let more = device_extensions(&supported, vk::API_VERSION_1_1, &enabled).unwrap();
    assert_eq!(
        more,
        [
            Extension::ExternalMemoryFd,
            Extension::ImageDrmFormatModifier,
            Extension::QueueFamilyForeign,
            Extension::BindMemory2,
        ]
    );
    let missing = device_extensions(&vec![Extension::ExternalMemoryDmaBuf], 0, &vec![]);
    assert_eq!(
        missing.unwrap_err(),
        [Extension::ExternalMemoryFd, Extension::ImageDrmFormatModifier]
    );
}

#[test]
fn import_needs_every_required_extension() {
    assert!(import_supported(true, &None));
    assert!(!import_supported(false, &None));
    assert!(import_supported(false, &Some(REQUIRED.to_vec())));
    assert!(!import_supported(false, &Some(REQUIRED[..2].to_vec())));
    assert_eq!(missing_extension(&REQUIRED[1..].to_vec()), Some(REQUIRED[0]));
    assert_eq!(missing_extension(&vec![REQUIRED[0], REQUIRED[2]]), Some(REQUIRED[1]));
    assert_eq!(missing_extension(&REQUIRED.to_vec()), None);
}

fn desc() -> DmabufImageDesc {
    DmabufImageDesc {
        width: 960,
        height: 1080,
        format: TextureFormat::Rgba8Unorm,
        modifier: DRM_FORMAT_MOD_LINEAR,
        plane: DmabufPlane { offset: 64, stride: 3840 },
        usage: COPY_SRC | TEXTURE_BINDING,
    }
}

fn linear() -> ModifierProperties {
    ModifierProperties {
        modifier: DRM_FORMAT_MOD_LINEAR,
        plane_count: 1,
        tiling_features: 0x4001,
    }
}

/// An import that has had so many answers, all of them good.
fn import_after(n: usize) -> (Import, ImportStep) {
    let answers = vec![
        ImportAnswer::Extensions(Some(REQUIRED.to_vec())),
        ImportAnswer::Modifiers(vec![linear()]),
        ImportAnswer::ImageFormat(Some(0x4)),
        ImportAnswer::Done,
        ImportAnswer::Requirements { size: 4096, type_bits: 0b1110 },
        ImportAnswer::FdProperties { type_bits: 0b1100 },
        ImportAnswer::Done,
        ImportAnswer::Done,
        ImportAnswer::Done,
    ];
    let (mut import, mut step) = Import::new(desc()).unwrap();
    for answer in answers.into_iter().take(n) {
        step = import.next(answer);
    }
    (import, step)
}

fn fails(n: usize, answer: ImportAnswer) -> (DmabufImportError, Cleanup) {
    let (mut import, _) = import_after(n);
    let step = import.next(answer);
    assert_eq!(import.stage, ImportStage::Failed);
    match step {
        ImportStep::Fail(error, cleanup) => (error, cleanup),
        other => panic!("{other:?}"),
    }
}

#[test]
fn an_import_goes_step_by_step() {
    assert!(matches!(import_after(0).1, ImportStep::ListExtensions));
    assert!(matches!(import_after(1).1, ImportStep::ListModifiers { format: 37 }));
    assert!(matches!(
        import_after(2).1,
        ImportStep::QueryImageFormat { format: 37, modifier: 0, usage: 5 }
    ));
    match import_after(3).1 {
        ImportStep::CreateImage(info) => {
            assert_eq!((info.width, info.height, info.format), (960, 1080, 37));
            assert_eq!((info.offset, info.row_pitch, info.usage), (64, 3840, 5));
        }
        other => panic!("{other:?}"),
    }
    assert!(matches!(import_after(4).1, ImportStep::GetMemoryRequirements));
    assert!(matches!(import_after(5).1, ImportStep::GetFdProperties));
    assert!(matches!(import_after(6).1, ImportStep::DuplicateFd));
    // The lowest memory type that both allow.
    assert!(matches!(
        import_after(7).1,
        ImportStep::AllocateMemory { size: 4096, type_index: 2 }
    ));
    assert!(matches!(import_after(8).1, ImportStep::BindMemory));
    let (import, step) = import_after(9);
    assert!(matches!(step, ImportStep::Wrap { uses: 0x14 }));
    assert_eq!(import.stage, ImportStage::Imported);
}

#[test]
fn a_failed_import_cleans_up_what_it_holds() {
    let unsupported = DmabufImageDesc { format: TextureFormat::Other, ..desc() };
    assert!(matches!(
        Import::new(unsupported),
        Err(DmabufImportError::UnsupportedFormat(TextureFormat::Other))
    ));
    let (e, c) = fails(0, ImportAnswer::Extensions(None));
    assert!(matches!(e, DmabufImportError::NotVulkan));
    assert_eq!(c, Cleanup::Nothing);
    let (e, c) = fails(0, ImportAnswer::Extensions(Some(REQUIRED[..1].to_vec())));
    assert!(matches!(
        e,
        DmabufImportError::MissingExtension(Extension::ExternalMemoryDmaBuf)
    ));
    assert_eq!(c, Cleanup::Nothing);
    let (e, c) = fails(1, ImportAnswer::Modifiers(vec![]));
    assert!(matches!(e, DmabufImportError::ModifierUnsupported { modifier: 0, .. }));
    assert_eq!(c, Cleanup::Nothing);
    let (e, c) = fails(2, ImportAnswer::ImageFormat(None));
    assert!(matches!(e, DmabufImportError::NotImportable { .. }));
    assert_eq!(c, Cleanup::Nothing);
    let (e, c) = fails(3, ImportAnswer::Refused(-2));
    assert!(matches!(
        e,
        DmabufImportError::Vulkan { op: VulkanOp::CreateImage, result: -2 }
    ));
    assert_eq!(c, Cleanup::Nothing);
    let (e, c) = fails(5, ImportAnswer::Refused(-1));
    assert!(matches!(
        e,
        DmabufImportError::Vulkan { op: VulkanOp::GetMemoryFdProperties, result: -1 }
    ));
    assert_eq!(c, Cleanup::DestroyImage);
    let (e, c) = fails(5, ImportAnswer::FdProperties { type_bits: 0b0001 });
    assert!(matches!(e, DmabufImportError::NoMemoryType));
    assert_eq!(c, Cleanup::DestroyImage);
    let (e, c) = fails(6, ImportAnswer::DupFailed("EMFILE".to_string()));
    assert!(matches!(e, DmabufImportError::Dup(words) if words == "EMFILE"));
    assert_eq!(c, Cleanup::DestroyImage);
    let (e, c) = fails(7, ImportAnswer::Refused(-3));
    assert!(matches!(e, DmabufImportError::Vulkan { op: VulkanOp::AllocateMemory, .. }));
    assert_eq!(c, Cleanup::CloseFdThenDestroyImage);
    let (e, c) = fails(8, ImportAnswer::Refused(-3));
    assert!(matches!(e, DmabufImportError::Vulkan { op: VulkanOp::BindImageMemory, .. }));
    assert_eq!(c, Cleanup::FreeMemoryThenDestroyImage);
    assert_eq!(VulkanOp::AllocateMemory.name(), "vkAllocateMemory (import)");
    assert_eq!(VulkanOp::BindImageMemory.name(), "vkBindImageMemory");
    assert_eq!(VulkanOp::CreateImage.name(), "vkCreateImage");
    assert_eq!(VulkanOp::GetMemoryFdProperties.name(), "vkGetMemoryFdPropertiesKHR");
}

#[test]
fn a_modifier_needs_one_plane_that_can_be_copied() {
    let two_planes = ModifierProperties { plane_count: 2, ..linear() };
    let no_copy = ModifierProperties { tiling_features: 0x3fff, ..linear() };
    let other = ModifierProperties { modifier: 7, ..linear() };
    assert!(!check_modifier_supported(&vec![two_planes, no_copy, other], 0));
    assert!(check_modifier_supported(&vec![two_planes, linear()], 0));
    assert!(check_modifier_supported(&vec![other], 7));
    assert!(check_importable(Some(0b111)));
    assert!(!check_importable(Some(0b011)));
    assert!(!check_importable(None));
}

#[test]
fn ownership_is_taken_and_given_back() {
    let layout = vk::ImageLayout::TRANSFER_SRC_OPTIMAL.as_raw();
    let queue = Queue { family: 3, has_foreign: true };
    let acquire = foreign_acquire(Some(queue), layout).unwrap();
    assert_eq!(acquire.len(), 2);
    assert_eq!((acquire[0].src_stages, acquire[0].dst_stages), (STAGE_HOST, STAGE_READ));
    assert_eq!((acquire[0].src_access, acquire[0].dst_access), (ACCESS_HOST_WRITE, ACCESS_READ));
    assert!(acquire[0].transfer.is_none());
    let take = acquire[1].transfer.unwrap();
    assert_eq!((take.src_family, take.dst_family), (QUEUE_FAMILY_FOREIGN, 3));
    assert_eq!((acquire[1].src_stages, acquire[1].src_access), (STAGE_TOP, 0));
    let release = foreign_release(Some(queue), layout).unwrap();
    assert_eq!(release.len(), 1);
    let give = release[0].transfer.unwrap();
    assert_eq!((give.src_family, give.dst_family), (3, QUEUE_FAMILY_FOREIGN));
    assert_eq!((release[0].dst_stages, release[0].dst_access), (STAGE_BOTTOM, 0));
    assert_eq!((take.layout, give.layout), (layout, layout));
    let plain = Queue { family: 3, has_foreign: false };
    assert_eq!(foreign_acquire(Some(plain), layout).unwrap().len(), 1);
    assert!(foreign_release(Some(plain), layout).unwrap().is_empty());
    assert!(foreign_acquire(None, layout).is_none());
    assert!(foreign_release(None, layout).is_none());
}
