//! Importing a DMA-BUF as a texture: the calls that are made of Vulkan, in order, what each
//! answer leads to, and what is undone when one fails.
use vstd::prelude::*;
use vstd::std_specs::bits;

use crate::dmabuf::extension::{self, missing_extension, Extension};
use crate::dmabuf::texture::{self, hal_uses, vk_format, vk_usage, TextureFormat};

verus! {

/// `DRM_FORMAT_MOD_LINEAR`: rows laid out top to bottom with an explicit pitch.
pub const DRM_FORMAT_MOD_LINEAR: u64 = 0;

/// `VK_FORMAT_FEATURE_TRANSFER_SRC_BIT`.
pub const FEATURE_TRANSFER_SRC: u32 = 0x4000;

/// `VK_EXTERNAL_MEMORY_FEATURE_IMPORTABLE_BIT`.
pub const FEATURE_IMPORTABLE: u32 = 0x4;

/// The image that a DMA-BUF holds. There is one plane.
#[derive(Debug, Clone, Copy, PartialEq, Eq, Structural)]
pub struct DmabufImageDesc {
    pub width: u32,
    pub height: u32,
    pub format: TextureFormat,
    /// DRM format modifier describing the memory layout. Use [`DRM_FORMAT_MOD_LINEAR`] for
    /// plain row-major buffers such as V4L2 frames.
    pub modifier: u64,
    pub plane: DmabufPlane,
    /// Usages the texture will be used with, as bits.
    pub usage: u32,
}

/// One plane of a DMA-BUF image.
#[derive(Debug, Clone, Copy, PartialEq, Eq, Structural)]
pub struct DmabufPlane {
    /// Byte offset of the first row inside the buffer.
    pub offset: u64,
    /// Bytes per row.
    pub stride: u32,
}

/// The calls of Vulkan that can fail.
#[derive(Debug, Clone, Copy, PartialEq, Eq, Structural)]
pub enum VulkanOp {
    CreateImage,
    GetMemoryFdProperties,
    AllocateMemory,
    BindImageMemory,
}

impl VulkanOp {
    pub open spec fn spec_name(self) -> Seq<char> {
        match self {
            VulkanOp::CreateImage => "vkCreateImage"@,
            VulkanOp::GetMemoryFdProperties => "vkGetMemoryFdPropertiesKHR"@,
            VulkanOp::AllocateMemory => "vkAllocateMemory (import)"@,
            VulkanOp::BindImageMemory => "vkBindImageMemory"@,
        }
    }

    /// The call as Vulkan names it.
    pub fn name(&self) -> (r: &'static str)
        ensures
            r@ == self.spec_name(),
    {
        match self {
            VulkanOp::CreateImage => "vkCreateImage",
            VulkanOp::GetMemoryFdProperties => "vkGetMemoryFdPropertiesKHR",
            VulkanOp::AllocateMemory => "vkAllocateMemory (import)",
            VulkanOp::BindImageMemory => "vkBindImageMemory",
        }
    }
}

/// Why a DMA-BUF could not be imported.
#[derive(Debug)]
pub enum DmabufImportError {
    NotVulkan,
    MissingExtension(Extension),
    UnsupportedFormat(TextureFormat),
    ModifierUnsupported { format: TextureFormat, modifier: u64 },
    NotImportable { format: TextureFormat, modifier: u64 },
    NoMemoryType,
    /// The descriptor could not be duplicated, in the system's own words.
    Dup(String),
    /// The code is that of `VkResult`.
    Vulkan { op: VulkanOp, result: i32 },
}

/// What a driver says of one modifier of a format.
#[derive(Debug, Clone, Copy, PartialEq, Eq, Structural)]
pub struct ModifierProperties {
    pub modifier: u64,
    pub plane_count: u32,
    pub tiling_features: u32,
}

/// What an image is created with.
#[derive(Debug, Clone, Copy, PartialEq, Eq, Structural)]
pub struct ImageInfo {
    pub format: i32,
    pub width: u32,
    pub height: u32,
    pub usage: u32,
    pub modifier: u64,
    pub offset: u64,
    pub row_pitch: u64,
}

/// What to do next.
#[derive(Debug)]
pub enum ImportStep {
    /// List the enabled extensions of the device, if it is a Vulkan device.
    ListExtensions,
    /// List the modifiers that the driver has for this format.
    ListModifiers { format: i32 },
    /// Ask what external memory an image of this kind allows.
    QueryImageFormat { format: i32, modifier: u64, usage: u32 },
    CreateImage(ImageInfo),
    GetMemoryRequirements,
    GetFdProperties,
    /// Vulkan takes ownership of the descriptor when it imports it, so import a duplicate.
    DuplicateFd,
    /// Import the duplicate as memory dedicated to the image.
    AllocateMemory { size: u64, type_index: u32 },
    BindMemory,
    /// Wrap the image as a texture that is tracked with these uses.
    Wrap { uses: u32 },
    /// Clean up, and give up.
    Fail(DmabufImportError, Cleanup),
}

/// What to undo, in order.
#[derive(Debug, Clone, Copy, PartialEq, Eq, Structural)]
pub enum Cleanup {
    Nothing,
    DestroyImage,
    CloseFdThenDestroyImage,
    FreeMemoryThenDestroyImage,
}

/// The answer to the call that is waiting.
#[derive(Debug)]
pub enum ImportAnswer {
    /// The enabled extensions; none where the device is not a Vulkan device.
    Extensions(Option<Vec<Extension>>),
    Modifiers(Vec<ModifierProperties>),
    /// The external memory features; none where the query failed.
    ImageFormat(Option<u32>),
    Requirements { size: u64, type_bits: u32 },
    FdProperties { type_bits: u32 },
    Done,
    /// The call failed with this `VkResult`.
    Refused(i32),
    /// The descriptor could not be duplicated.
    DupFailed(String),
}

/// How far an import has got: the call that is waiting for its answer.
#[derive(Debug, Clone, Copy, PartialEq, Eq, Structural)]
pub enum ImportStage {
    Extensions,
    Modifiers,
    ImageFormat,
    CreateImage,
    Requirements,
    FdProperties,
    Duplicate,
    Allocate,
    Bind,
    Imported,
    Failed,
}

/// An import under way.
#[derive(Debug, Clone, Copy, PartialEq, Eq, Structural)]
pub struct Import {
    pub desc: DmabufImageDesc,
    /// The Vulkan format of the image.
    pub format: i32,
    pub stage: ImportStage,
    /// What the image requires of its memory.
    pub size: u64,
    pub type_bits: u32,
}

/// A modifier of one plane that can be copied from.
pub open spec fn offers(p: ModifierProperties, modifier: u64) -> bool {
    &&& p.modifier == modifier
    &&& p.plane_count == 1
    &&& p.tiling_features & FEATURE_TRANSFER_SRC == FEATURE_TRANSFER_SRC
}

pub open spec fn any_offers(list: Seq<ModifierProperties>, modifier: u64) -> bool {
    exists|i: int| 0 <= i < list.len() && #[trigger] offers(list[i], modifier)
}

/// Whether the driver lists the modifier with a single plane that can be copied from.
pub fn check_modifier_supported(list: &Vec<ModifierProperties>, modifier: u64) -> (r: bool)
    ensures
        r == any_offers(list@, modifier),
{
    let mut i: usize = 0;
    while i < list.len()
        invariant
            i <= list.len(),
            forall|j: int| 0 <= j < i ==> !#[trigger] offers(list[j], modifier),
        decreases list.len() - i,
    {
        let p = list[i];
        if p.modifier == modifier && p.plane_count == 1 && p.tiling_features & FEATURE_TRANSFER_SRC
            == FEATURE_TRANSFER_SRC {
            proof {
                assert(offers(list@[i as int], modifier));
            }
            return true;
        }
        i = i + 1;
    }
    false
}

/// The query succeeded, and its answer allows an import.
pub open spec fn importable(features: Option<u32>) -> bool {
    features matches Some(f) && f & FEATURE_IMPORTABLE == FEATURE_IMPORTABLE
}

/// Whether an image may be made of external memory.
pub fn check_importable(features: Option<u32>) -> (r: bool)
    ensures
        r == importable(features),
{
    match features {
        Some(f) => f & FEATURE_IMPORTABLE == FEATURE_IMPORTABLE,
        None => false,
    }
}

/// The memory type to use: the lowest that both the image and the DMA-BUF allow.
pub open spec fn lowest_type(bits: u32) -> u32 {
    bits::u32_trailing_zeros(bits)
}

/// The memory type is allowed, and none below it is.
pub proof fn lowest_type_is_allowed(bits: u32)
    requires
        bits != 0,
    ensures
        lowest_type(bits) < 32,
        (bits >> lowest_type(bits)) & 1 == 1,
        forall|j: u32| j < lowest_type(bits) ==> #[trigger] (bits >> j) & 1 == 0,
{
    bits::axiom_u32_trailing_zeros(bits);
}

/// An answer to the call that the stage waits for.
pub open spec fn answers(stage: ImportStage, answer: ImportAnswer) -> bool {
    match stage {
        ImportStage::Extensions => answer is Extensions,
        ImportStage::Modifiers => answer is Modifiers,
        ImportStage::ImageFormat => answer is ImageFormat,
        ImportStage::CreateImage => answer is Done || answer is Refused,
        ImportStage::Requirements => answer is Requirements,
        ImportStage::FdProperties => answer is FdProperties || answer is Refused,
        ImportStage::Duplicate => answer is Done || answer is DupFailed,
        ImportStage::Allocate => answer is Done || answer is Refused,
        ImportStage::Bind => answer is Done || answer is Refused,
        ImportStage::Imported => false,
        ImportStage::Failed => false,
    }
}

impl DmabufImageDesc {
    pub open spec fn image_info(self, format: i32) -> ImageInfo {
        ImageInfo {
            format,
            width: self.width,
            height: self.height,
            usage: texture::image_usage(self.usage),
            modifier: self.modifier,
            offset: self.plane.offset,
            row_pitch: self.plane.stride as u64,
        }
    }
}

impl Import {
    pub open spec fn at(self, stage: ImportStage) -> Import {
        Import { stage, ..self }
    }

    pub open spec fn failed(self, error: DmabufImportError, cleanup: Cleanup) -> (
        Import,
        ImportStep,
    ) {
        (self.at(ImportStage::Failed), ImportStep::Fail(error, cleanup))
    }

    pub open spec fn refused(self, op: VulkanOp, result: i32, cleanup: Cleanup) -> (
        Import,
        ImportStep,
    ) {
        self.failed(DmabufImportError::Vulkan { op, result }, cleanup)
    }

    /// Where an answer leads: the import after it and what to do next.
    pub open spec fn spec_next(self, answer: ImportAnswer) -> (Import, ImportStep) {
        match (self.stage, answer) {
            (ImportStage::Extensions, ImportAnswer::Extensions(enabled)) => match enabled {
                None => self.failed(DmabufImportError::NotVulkan, Cleanup::Nothing),
                Some(list) => match extension::first_missing(list@) {
                    Some(e) => self.failed(
                        DmabufImportError::MissingExtension(e),
                        Cleanup::Nothing,
                    ),
                    None => (
                        self.at(ImportStage::Modifiers),
                        ImportStep::ListModifiers { format: self.format },
                    ),
                },
            },
            (ImportStage::Modifiers, ImportAnswer::Modifiers(list)) => if any_offers(
                list@,
                self.desc.modifier,
            ) {
                (
                    self.at(ImportStage::ImageFormat),
                    ImportStep::QueryImageFormat {
                        format: self.format,
                        modifier: self.desc.modifier,
                        usage: texture::image_usage(self.desc.usage),
                    },
                )
            } else {
                self.failed(
                    DmabufImportError::ModifierUnsupported {
                        format: self.desc.format,
                        modifier: self.desc.modifier,
                    },
                    Cleanup::Nothing,
                )
            },
            (ImportStage::ImageFormat, ImportAnswer::ImageFormat(features)) => if importable(
                features,
            ) {
                (
                    self.at(ImportStage::CreateImage),
                    ImportStep::CreateImage(self.desc.image_info(self.format)),
                )
            } else {
                self.failed(
                    DmabufImportError::NotImportable {
                        format: self.desc.format,
                        modifier: self.desc.modifier,
                    },
                    Cleanup::Nothing,
                )
            },
            (ImportStage::CreateImage, ImportAnswer::Refused(result)) => self.refused(
                VulkanOp::CreateImage,
                result,
                Cleanup::Nothing,
            ),
            (ImportStage::CreateImage, _) => (
                self.at(ImportStage::Requirements),
                ImportStep::GetMemoryRequirements,
            ),
            (ImportStage::Requirements, ImportAnswer::Requirements { size, type_bits }) => (
                Import { size, type_bits, ..self.at(ImportStage::FdProperties) },
                ImportStep::GetFdProperties,
            ),
            (ImportStage::FdProperties, ImportAnswer::Refused(result)) => self.refused(
                VulkanOp::GetMemoryFdProperties,
                result,
                Cleanup::DestroyImage,
            ),
            (ImportStage::FdProperties, ImportAnswer::FdProperties { type_bits }) => if self.type_bits
                & type_bits == 0 {
                self.failed(DmabufImportError::NoMemoryType, Cleanup::DestroyImage)
            } else {
                (
                    Import {
                        type_bits: self.type_bits & type_bits,
                        ..self.at(ImportStage::Duplicate)
                    },
                    ImportStep::DuplicateFd,
                )
            },
            (ImportStage::Duplicate, ImportAnswer::DupFailed(words)) => self.failed(
                DmabufImportError::Dup(words),
                Cleanup::DestroyImage,
            ),
            (ImportStage::Duplicate, _) => (
                self.at(ImportStage::Allocate),
                ImportStep::AllocateMemory {
                    size: self.size,
                    type_index: lowest_type(self.type_bits),
                },
            ),
            (ImportStage::Allocate, ImportAnswer::Refused(result)) => self.refused(
                VulkanOp::AllocateMemory,
                result,
                Cleanup::CloseFdThenDestroyImage,
            ),
            (ImportStage::Allocate, _) => (self.at(ImportStage::Bind), ImportStep::BindMemory),
            (ImportStage::Bind, ImportAnswer::Refused(result)) => self.refused(
                VulkanOp::BindImageMemory,
                result,
                Cleanup::FreeMemoryThenDestroyImage,
            ),
            (ImportStage::Bind, _) => (
                self.at(ImportStage::Imported),
                ImportStep::Wrap { uses: texture::texture_uses(self.desc.usage) },
            ),
            _ => (self, ImportStep::ListExtensions),
        }
    }

    /// Begins an import. A format without a Vulkan counterpart is refused at once.
    pub fn new(desc: DmabufImageDesc) -> (r: Result<(Import, ImportStep), DmabufImportError>)
        ensures
            match texture::format_number(desc.format) {
                Some(format) => r matches Ok((import, step)) && step == ImportStep::ListExtensions
                    && import.desc == desc && import.format == format && import.stage
                    == ImportStage::Extensions,
                None => r == Err::<(Import, ImportStep), DmabufImportError>(
                    DmabufImportError::UnsupportedFormat(desc.format),
                ),
            },
    {
        match vk_format(desc.format) {
            Some(format) => Ok(
                (
                    Import { desc, format, stage: ImportStage::Extensions, size: 0, type_bits: 0 },
                    ImportStep::ListExtensions,
                ),
            ),
            None => Err(DmabufImportError::UnsupportedFormat(desc.format)),
        }
    }

    fn fail(&mut self, error: DmabufImportError, cleanup: Cleanup) -> (r: ImportStep)
        ensures
            (*final(self), r) == old(self).failed(error, cleanup),
    {
        self.stage = ImportStage::Failed;
        ImportStep::Fail(error, cleanup)
    }

    fn refuse(&mut self, op: VulkanOp, result: i32, cleanup: Cleanup) -> (r: ImportStep)
        ensures
            (*final(self), r) == old(self).refused(op, result, cleanup),
    {
        self.fail(DmabufImportError::Vulkan { op, result }, cleanup)
    }

    /// Takes the answer to the call that is waiting, and says what to do next.
    pub fn next(&mut self, answer: ImportAnswer) -> (r: ImportStep)
        requires
            answers(old(self).stage, answer),
        ensures
            (*final(self), r) == old(self).spec_next(answer),
    {
        match self.stage {
            ImportStage::Extensions => match answer {
                ImportAnswer::Extensions(Some(list)) => match missing_extension(&list) {
                    Some(e) => self.fail(DmabufImportError::MissingExtension(e), Cleanup::Nothing),
                    None => {
                        self.stage = ImportStage::Modifiers;
                        ImportStep::ListModifiers { format: self.format }
                    },
                },
                _ => self.fail(DmabufImportError::NotVulkan, Cleanup::Nothing),
            },
            ImportStage::Modifiers => {
                let found = match answer {
                    ImportAnswer::Modifiers(list) => check_modifier_supported(
                        &list,
                        self.desc.modifier,
                    ),
                    _ => false,
                };
                if found {
                    self.stage = ImportStage::ImageFormat;
                    ImportStep::QueryImageFormat {
                        format: self.format,
                        modifier: self.desc.modifier,
                        usage: vk_usage(self.desc.usage),
                    }
                } else {
                    let error = DmabufImportError::ModifierUnsupported {
                        format: self.desc.format,
                        modifier: self.desc.modifier,
                    };
                    self.fail(error, Cleanup::Nothing)
                }
            },
            ImportStage::ImageFormat => {
                let allowed = match answer {
                    ImportAnswer::ImageFormat(features) => check_importable(features),
                    _ => false,
                };
                if allowed {
                    self.stage = ImportStage::CreateImage;
                    ImportStep::CreateImage(
                        ImageInfo {
                            format: self.format,
                            width: self.desc.width,
                            height: self.desc.height,
                            usage: vk_usage(self.desc.usage),
                            modifier: self.desc.modifier,
                            offset: self.desc.plane.offset,
                            row_pitch: self.desc.plane.stride as u64,
                        },
                    )
                } else {
                    let error = DmabufImportError::NotImportable {
                        format: self.desc.format,
                        modifier: self.desc.modifier,
                    };
                    self.fail(error, Cleanup::Nothing)
                }
            },
            ImportStage::CreateImage => match answer {
                ImportAnswer::Refused(result) => self.refuse(
                    VulkanOp::CreateImage,
                    result,
                    Cleanup::Nothing,
                ),
                _ => {
                    self.stage = ImportStage::Requirements;
                    ImportStep::GetMemoryRequirements
                },
            },
            ImportStage::Requirements => {
                if let ImportAnswer::Requirements { size, type_bits } = answer {
                    self.size = size;
                    self.type_bits = type_bits;
                }
                self.stage = ImportStage::FdProperties;
                ImportStep::GetFdProperties
            },
            ImportStage::FdProperties => match answer {
                ImportAnswer::FdProperties { type_bits } => {
                    let both: u32 = self.type_bits & type_bits;
                    if both == 0 {
                        return self.fail(DmabufImportError::NoMemoryType, Cleanup::DestroyImage);
                    }
                    self.type_bits = both;
                    self.stage = ImportStage::Duplicate;
                    ImportStep::DuplicateFd
                },
                ImportAnswer::Refused(result) => self.refuse(
                    VulkanOp::GetMemoryFdProperties,
                    result,
                    Cleanup::DestroyImage,
                ),
                _ => ImportStep::ListExtensions,
            },
            ImportStage::Duplicate => match answer {
                ImportAnswer::DupFailed(words) => self.fail(
                    DmabufImportError::Dup(words),
                    Cleanup::DestroyImage,
                ),
                _ => {
                    self.stage = ImportStage::Allocate;
                    ImportStep::AllocateMemory {
                        size: self.size,
                        type_index: self.type_bits.trailing_zeros(),
                    }
                },
            },
            ImportStage::Allocate => match answer {
                ImportAnswer::Refused(result) => self.refuse(
                    VulkanOp::AllocateMemory,
                    result,
                    Cleanup::CloseFdThenDestroyImage,
                ),
                _ => {
                    self.stage = ImportStage::Bind;
                    ImportStep::BindMemory
                },
            },
            ImportStage::Bind => match answer {
                ImportAnswer::Refused(result) => self.refuse(
                    VulkanOp::BindImageMemory,
                    result,
                    Cleanup::FreeMemoryThenDestroyImage,
                ),
                _ => {
                    self.stage = ImportStage::Imported;
                    ImportStep::Wrap { uses: hal_uses(self.desc.usage) }
                },
            },
            ImportStage::Imported => ImportStep::ListExtensions,
            ImportStage::Failed => ImportStep::ListExtensions,
        }
    }
}

/// What an import holds.
pub struct Held {
    pub image: bool,
    /// The duplicate of the descriptor.
    pub fd: bool,
    pub memory: bool,
}

pub open spec fn nothing_held() -> Held {
    Held { image: false, fd: false, memory: false }
}

/// What a call that succeeded makes an import hold. Importing the memory takes over the
/// descriptor.
pub open spec fn gained(held: Held, stage: ImportStage, answer: ImportAnswer) -> Held {
    match (stage, answer) {
        (ImportStage::CreateImage, ImportAnswer::Done) => Held { image: true, ..held },
        (ImportStage::Duplicate, ImportAnswer::Done) => Held { fd: true, ..held },
        (ImportStage::Allocate, ImportAnswer::Done) => Held { fd: false, memory: true, ..held },
        _ => held,
    }
}

/// What a cleanup releases.
pub open spec fn released(cleanup: Cleanup) -> Held {
    match cleanup {
        Cleanup::Nothing => nothing_held(),
        Cleanup::DestroyImage => Held { image: true, ..nothing_held() },
        Cleanup::CloseFdThenDestroyImage => Held { image: true, fd: true, memory: false },
        Cleanup::FreeMemoryThenDestroyImage => Held { image: true, fd: false, memory: true },
    }
}

/// A whole import: the states it goes through, the answers between them, and what it holds.
pub open spec fn import_run(
    replies: Seq<ImportAnswer>,
    states: Seq<Import>,
    steps: Seq<ImportStep>,
    held: Seq<Held>,
) -> bool {
    &&& states.len() == replies.len() + 1
    &&& steps.len() == replies.len() + 1
    &&& held.len() == replies.len() + 1
    &&& states[0].stage == ImportStage::Extensions
    &&& steps[0] == ImportStep::ListExtensions
    &&& held[0] == nothing_held()
    &&& forall|k: int|
        0 <= k < replies.len() ==> {
            &&& answers(states[k].stage, #[trigger] replies[k])
            &&& (states[k + 1], steps[k + 1]) == states[k].spec_next(replies[k])
            &&& held[k + 1] == gained(held[k], states[k].stage, replies[k])
        }
}

spec fn holds(stage: ImportStage) -> Held {
    match stage {
        ImportStage::Requirements => Held { image: true, ..nothing_held() },
        ImportStage::FdProperties => Held { image: true, ..nothing_held() },
        ImportStage::Duplicate => Held { image: true, ..nothing_held() },
        ImportStage::Allocate => Held { image: true, fd: true, memory: false },
        ImportStage::Bind => Held { image: true, fd: false, memory: true },
        ImportStage::Imported => Held { image: true, fd: false, memory: true },
        _ => nothing_held(),
    }
}

proof fn lemma_holds(
    replies: Seq<ImportAnswer>,
    states: Seq<Import>,
    steps: Seq<ImportStep>,
    held: Seq<Held>,
    k: int,
)
    requires
        import_run(replies, states, steps, held),
        0 <= k < states.len(),
    ensures
        states[k].stage != ImportStage::Failed ==> held[k] == holds(states[k].stage),
        k > 0 && states[k].stage == ImportStage::Failed ==> held[k] == holds(
            states[k - 1].stage,
        ),
        k > 0 ==> states[k - 1].stage != ImportStage::Failed,
    decreases k,
{
    if k > 0 {
        lemma_holds(replies, states, steps, held, k - 1);
        assert(answers(states[k - 1].stage, replies[k - 1]));
    }
}

/// Nothing leaks: an import that fails undoes exactly what it holds, and holds nothing then.
pub proof fn a_failed_import_holds_nothing(
    replies: Seq<ImportAnswer>,
    states: Seq<Import>,
    steps: Seq<ImportStep>,
    held: Seq<Held>,
    k: int,
)
    requires
        import_run(replies, states, steps, held),
        0 <= k < states.len(),
        steps[k] is Fail,
    ensures
        k == states.len() - 1,
        held[k] == released(steps[k]->Fail_1),
{
    lemma_holds(replies, states, steps, held, k);
    assert(answers(states[k - 1].stage, replies[k - 1]));
    if k < replies.len() {
        assert(answers(states[k].stage, replies[k]));
    }
}

/// A texture owns its image and its memory, and the descriptor is Vulkan's by then.
pub proof fn a_texture_owns_image_and_memory(
    replies: Seq<ImportAnswer>,
    states: Seq<Import>,
    steps: Seq<ImportStep>,
    held: Seq<Held>,
    k: int,
)
    requires
        import_run(replies, states, steps, held),
        0 <= k < states.len(),
        steps[k] is Wrap,
    ensures
        k == states.len() - 1,
        held[k] == (Held { image: true, fd: false, memory: true }),
{
    lemma_holds(replies, states, steps, held, k);
    assert(answers(states[k - 1].stage, replies[k - 1]));
    if k < replies.len() {
        assert(answers(states[k].stage, replies[k]));
    }
}

/// A modifier is taken where the driver lists it for one plane and can copy from it, and an image
/// where the driver can import it.
pub proof fn what_a_driver_must_offer(
    list: Seq<ModifierProperties>,
    modifier: u64,
    p: ModifierProperties,
    features: u32,
)
    ensures
        any_offers(list.push(p), modifier) <==> any_offers(list, modifier) || (p.modifier == modifier
            && p.plane_count == 1 && p.tiling_features & 0x4000 != 0),
        !any_offers(Seq::<ModifierProperties>::empty(), modifier),
        !importable(None),
        importable(Some(features)) <==> features & 0x4 != 0,
{
    let t = p.tiling_features;
    assert((t & 0x4000 == 0x4000 <==> t & 0x4000 != 0) && (features & 0x4 == 0x4 <==> features
        & 0x4 != 0)) by (bit_vector);
    let more = list.push(p);
    if any_offers(list, modifier) {
        let i = choose|i: int| 0 <= i < list.len() && #[trigger] offers(list[i], modifier);
        assert(offers(more[i], modifier));
    }
    if offers(p, modifier) {
        assert(offers(more[list.len() as int], modifier));
    }
    if any_offers(more, modifier) {
        let i = choose|i: int| 0 <= i < more.len() && #[trigger] offers(more[i], modifier);
        if i < list.len() {
            assert(offers(list[i], modifier));
        }
    }
}

/// The image is made of what was described: its size, its modifier, where its rows lie, and the
/// format that the import began with. Nothing of that changes on the way.
pub proof fn the_image_is_what_was_described(import: Import, answer: ImportAnswer)
    requires
        answers(import.stage, answer),
    ensures
        ({
            let (after, step) = import.spec_next(answer);
            &&& after.desc == import.desc && after.format == import.format
            &&& step matches ImportStep::ListModifiers { format } ==> format == import.format
            &&& step matches ImportStep::QueryImageFormat { format, modifier, usage } ==> format
                == import.format && modifier == import.desc.modifier && usage
                == texture::image_usage(import.desc.usage)
            &&& step matches ImportStep::CreateImage(info) ==> {
                &&& info.format == import.format
                &&& info.width == import.desc.width
                &&& info.height == import.desc.height
                &&& info.modifier == import.desc.modifier
                &&& info.offset == import.desc.plane.offset
                &&& info.row_pitch == import.desc.plane.stride
                &&& info.usage == texture::image_usage(import.desc.usage)
            }
            &&& step matches ImportStep::Wrap { uses } ==> uses == texture::texture_uses(
                import.desc.usage,
            )
        }),
{
}

/// The memory is as large as the image requires, and of a type that both the image and the
/// descriptor allow, the lowest such; an import without one fails.
pub proof fn memory_suits_image_and_descriptor(
    import: Import,
    size: u64,
    image_bits: u32,
    fd_bits: u32,
)
    requires
        import.stage == ImportStage::Requirements,
    ensures
        ({
            let a = import.spec_next(ImportAnswer::Requirements { size, type_bits: image_bits });
            let b = a.0.spec_next(ImportAnswer::FdProperties { type_bits: fd_bits });
            let c = b.0.spec_next(ImportAnswer::Done);
            &&& a.1 is GetFdProperties
            &&& image_bits & fd_bits == 0 ==> b.1 == ImportStep::Fail(
                DmabufImportError::NoMemoryType,
                Cleanup::DestroyImage,
            )
            &&& image_bits & fd_bits != 0 ==> {
                &&& b.1 is DuplicateFd
                &&& c.1 is AllocateMemory
                &&& c.1->size == size
                &&& c.1->type_index < 32
                &&& ((image_bits & fd_bits) >> c.1->type_index) & 1 == 1
                &&& forall|j: u32|
                    j < c.1->type_index ==> #[trigger] ((image_bits & fd_bits) >> j) & 1 == 0
            }
        }),
{
    if image_bits & fd_bits != 0 {
        lowest_type_is_allowed(image_bits & fd_bits);
    }
}

/// An import goes on exactly where its answer lets it: past the extensions where none is missing,
/// past the modifiers where the wanted one is offered, past the format where it can be imported, and
/// past every call that succeeds. Where it does not, it fails for that reason.
pub proof fn an_import_fails_for_what_is_missing(import: Import, answer: ImportAnswer)
    requires
        answers(import.stage, answer),
    ensures
        ({
            let (after, step) = import.spec_next(answer);
            &&& step is Fail <==> after.stage == ImportStage::Failed
            &&& answer is Done || answer is Requirements ==> !(step is Fail)
            &&& answer == ImportAnswer::Extensions(None) ==> step == ImportStep::Fail(
                DmabufImportError::NotVulkan,
                Cleanup::Nothing,
            )
            &&& answer matches ImportAnswer::Extensions(Some(list)) ==> (step is Fail
                <==> extension::first_missing(list@) is Some)
            &&& answer matches ImportAnswer::Modifiers(list) ==> (step is Fail <==> !any_offers(
                list@,
                import.desc.modifier,
            ))
            &&& answer matches ImportAnswer::ImageFormat(features) ==> (step is Fail
                <==> !importable(features))
            &&& answer matches ImportAnswer::Refused(code) ==> (step is Fail && (step->Fail_0
                matches DmabufImportError::Vulkan { op, result } && result == code && (import.stage
                == ImportStage::CreateImage <==> op == VulkanOp::CreateImage) && (import.stage
                == ImportStage::FdProperties <==> op == VulkanOp::GetMemoryFdProperties) && (
            import.stage == ImportStage::Allocate <==> op == VulkanOp::AllocateMemory) && (
            import.stage == ImportStage::Bind <==> op == VulkanOp::BindImageMemory)))
        }),
{
}

/// What an import failed for is said: the extension that is missing, the modifier that the driver
/// does not have, the format that it cannot import, the words of the system.
pub proof fn an_import_says_what_it_failed_for(import: Import, answer: ImportAnswer)
    requires
        answers(import.stage, answer),
        import.spec_next(answer).1 is Fail,
    ensures
        ({
            let error = import.spec_next(answer).1->Fail_0;
            &&& answer matches ImportAnswer::Extensions(Some(list)) ==> error
                == DmabufImportError::MissingExtension(extension::first_missing(list@)->0)
            &&& answer is Modifiers ==> error == (DmabufImportError::ModifierUnsupported {
                format: import.desc.format,
                modifier: import.desc.modifier,
            })
            &&& answer is ImageFormat ==> error == (DmabufImportError::NotImportable {
                format: import.desc.format,
                modifier: import.desc.modifier,
            })
            &&& answer matches ImportAnswer::DupFailed(words) ==> error == DmabufImportError::Dup(
                words,
            )
            &&& answer is FdProperties ==> error == DmabufImportError::NoMemoryType
        }),
{
}

} // verus!
