//! The Vulkan device extensions that an import needs.
use vstd::prelude::*;

verus! {

/// `VK_API_VERSION_1_2`.
pub const API_VERSION_1_2: u32 = 0x0040_2000;

/// The extensions that matter here.
#[derive(Debug, Clone, Copy, PartialEq, Eq, Structural)]
pub enum Extension {
    ExternalMemoryFd,
    ExternalMemoryDmaBuf,
    ImageDrmFormatModifier,
    QueueFamilyForeign,
    ImageFormatList,
    BindMemory2,
    SamplerYcbcrConversion,
    Maintenance1,
    GetMemoryRequirements2,
}

impl Extension {
    pub open spec fn spec_name(self) -> Seq<char> {
        match self {
            Extension::ExternalMemoryFd => "VK_KHR_external_memory_fd"@,
            Extension::ExternalMemoryDmaBuf => "VK_EXT_external_memory_dma_buf"@,
            Extension::ImageDrmFormatModifier => "VK_EXT_image_drm_format_modifier"@,
            Extension::QueueFamilyForeign => "VK_EXT_queue_family_foreign"@,
            Extension::ImageFormatList => "VK_KHR_image_format_list"@,
            Extension::BindMemory2 => "VK_KHR_bind_memory2"@,
            Extension::SamplerYcbcrConversion => "VK_KHR_sampler_ycbcr_conversion"@,
            Extension::Maintenance1 => "VK_KHR_maintenance1"@,
            Extension::GetMemoryRequirements2 => "VK_KHR_get_memory_requirements2"@,
        }
    }

    /// The extension as Vulkan names it.
    pub fn name(&self) -> (r: &'static str)
        ensures
            r@ == self.spec_name(),
    {
        match self {
            Extension::ExternalMemoryFd => "VK_KHR_external_memory_fd",
            Extension::ExternalMemoryDmaBuf => "VK_EXT_external_memory_dma_buf",
            Extension::ImageDrmFormatModifier => "VK_EXT_image_drm_format_modifier",
            Extension::QueueFamilyForeign => "VK_EXT_queue_family_foreign",
            Extension::ImageFormatList => "VK_KHR_image_format_list",
            Extension::BindMemory2 => "VK_KHR_bind_memory2",
            Extension::SamplerYcbcrConversion => "VK_KHR_sampler_ycbcr_conversion",
            Extension::Maintenance1 => "VK_KHR_maintenance1",
            Extension::GetMemoryRequirements2 => "VK_KHR_get_memory_requirements2",
        }
    }
}

/// Without these there is no import.
pub open spec fn required() -> Seq<Extension> {
    seq![
        Extension::ExternalMemoryFd,
        Extension::ExternalMemoryDmaBuf,
        Extension::ImageDrmFormatModifier,
    ]
}

/// What the required ones depend on; all of it is part of Vulkan from version 1.2 on.
pub open spec fn dependencies() -> Seq<Extension> {
    seq![
        Extension::ImageFormatList,
        Extension::BindMemory2,
        Extension::SamplerYcbcrConversion,
        Extension::Maintenance1,
        Extension::GetMemoryRequirements2,
    ]
}

/// Those of `list` that are in `set`, in order.
pub open spec fn among(list: Seq<Extension>, set: Seq<Extension>) -> Seq<Extension> {
    list.filter(|e: Extension| set.contains(e))
}

/// Those of `list` that are not in `set`, in order.
pub open spec fn absent(list: Seq<Extension>, set: Seq<Extension>) -> Seq<Extension> {
    list.filter(|e: Extension| !set.contains(e))
}

/// What a device is to be created with: the required extensions, the foreign queue family if the
/// device has it, and on older Vulkan what they depend on, as far as the device has it.
pub open spec fn wanted(supported: Seq<Extension>, api_version: u32) -> Seq<Extension> {
    required() + among(seq![Extension::QueueFamilyForeign], supported) + if api_version
        < API_VERSION_1_2 {
        among(dependencies(), supported)
    } else {
        Seq::empty()
    }
}

fn is_in(set: &Vec<Extension>, e: Extension) -> (r: bool)
    ensures
        r == set@.contains(e),
{
    let mut i: usize = 0;
    while i < set.len()
        invariant
            i <= set.len(),
            forall|j: int| 0 <= j < i ==> set[j] != e,
        decreases set.len() - i,
    {
        if set[i] == e {
            return true;
        }
        i = i + 1;
    }
    false
}

/// Appends those of `list` whose being in `set` is as `present` says.
fn append_where(out: &mut Vec<Extension>, list: &Vec<Extension>, set: &Vec<Extension>, present: bool)
    ensures
        final(out)@ == old(out)@ + if present {
            among(list@, set@)
        } else {
            absent(list@, set@)
        },
{
    let ghost start = out@;
    let mut i: usize = 0;
    proof {
        reveal(Seq::filter);
        assert(among(list@.take(0), set@) =~= Seq::empty());
        assert(absent(list@.take(0), set@) =~= Seq::empty());
    }
    while i < list.len()
        invariant
            i <= list.len(),
            out@ == start + if present {
                among(list@.take(i as int), set@)
            } else {
                absent(list@.take(i as int), set@)
            },
        decreases list.len() - i,
    {
        proof {
            reveal(Seq::filter);
            assert(list@.take(i + 1).drop_last() =~= list@.take(i as int));
        }
        let e = list[i];
        if is_in(set, e) == present {
            out.push(e);
        }
        i = i + 1;
    }
    proof {
        assert(list@.take(list.len() as int) =~= list@);
    }
}

fn required_list() -> (r: Vec<Extension>)
    ensures
        r@ == required(),
{
    let mut r: Vec<Extension> = Vec::new();
    r.push(Extension::ExternalMemoryFd);
    r.push(Extension::ExternalMemoryDmaBuf);
    r.push(Extension::ImageDrmFormatModifier);
    proof {
        assert(r@ =~= required());
    }
    r
}

fn dependency_list() -> (r: Vec<Extension>)
    ensures
        r@ == dependencies(),
{
    let mut r: Vec<Extension> = Vec::new();
    r.push(Extension::ImageFormatList);
    r.push(Extension::BindMemory2);
    r.push(Extension::SamplerYcbcrConversion);
    r.push(Extension::Maintenance1);
    r.push(Extension::GetMemoryRequirements2);
    proof {
        assert(r@ =~= dependencies());
    }
    r
}

/// The extensions to append to those that a device is about to be created with (`enabled`), or
/// the required ones that the device lacks.
pub fn device_extensions(
    supported: &Vec<Extension>,
    api_version: u32,
    enabled: &Vec<Extension>,
) -> (r: Result<Vec<Extension>, Vec<Extension>>)
    ensures
        r is Err <==> absent(required(), supported@).len() > 0,
        r matches Err(missing) ==> missing@ == absent(required(), supported@),
        r matches Ok(more) ==> more@ == absent(wanted(supported@, api_version), enabled@),
{
    let mut missing: Vec<Extension> = Vec::new();
    let needed = required_list();
    append_where(&mut missing, &needed, supported, false);
    proof {
        assert(missing@ =~= absent(required(), supported@));
    }
    if missing.len() > 0 {
        return Err(missing);
    }
    let mut list = required_list();
    let mut optional: Vec<Extension> = Vec::new();
    optional.push(Extension::QueueFamilyForeign);
    proof {
        assert(optional@ =~= seq![Extension::QueueFamilyForeign]);
    }
    append_where(&mut list, &optional, supported, true);
    if api_version < API_VERSION_1_2 {
        let deps = dependency_list();
        append_where(&mut list, &deps, supported, true);
    }
    proof {
        assert(list@ =~= wanted(supported@, api_version));
    }
    let mut more: Vec<Extension> = Vec::new();
    append_where(&mut more, &list, enabled, false);
    proof {
        assert(more@ =~= absent(wanted(supported@, api_version), enabled@));
    }
    Ok(more)
}

/// Every required extension is enabled.
pub open spec fn all_required(enabled: Seq<Extension>) -> bool {
    forall|e: Extension| required().contains(e) ==> #[trigger] enabled.contains(e)
}

/// The first required extension that is not enabled is this one.
pub open spec fn first_missing(enabled: Seq<Extension>) -> Option<Extension> {
    if !enabled.contains(Extension::ExternalMemoryFd) {
        Some(Extension::ExternalMemoryFd)
    } else if !enabled.contains(Extension::ExternalMemoryDmaBuf) {
        Some(Extension::ExternalMemoryDmaBuf)
    } else if !enabled.contains(Extension::ImageDrmFormatModifier) {
        Some(Extension::ImageDrmFormatModifier)
    } else {
        None
    }
}

/// The first required extension that is not enabled, if any.
pub fn missing_extension(enabled: &Vec<Extension>) -> (r: Option<Extension>)
    ensures
        r == first_missing(enabled@),
        r is None <==> all_required(enabled@),
{
    proof {
        assert(required()[0] == Extension::ExternalMemoryFd);
        assert(required()[1] == Extension::ExternalMemoryDmaBuf);
        assert(required()[2] == Extension::ImageDrmFormatModifier);
        assert(required().contains(Extension::ExternalMemoryFd));
        assert(required().contains(Extension::ExternalMemoryDmaBuf));
        assert(required().contains(Extension::ImageDrmFormatModifier));
    }
    if !is_in(enabled, Extension::ExternalMemoryFd) {
        return Some(Extension::ExternalMemoryFd);
    }
    if !is_in(enabled, Extension::ExternalMemoryDmaBuf) {
        return Some(Extension::ExternalMemoryDmaBuf);
    }
    if !is_in(enabled, Extension::ImageDrmFormatModifier) {
        return Some(Extension::ImageDrmFormatModifier);
    }
    None
}

/// Whether the render device can import DMA-BUFs: it was created for it (`marked`), or it is a
/// Vulkan device with every required extension.
pub fn import_supported(marked: bool, enabled: &Option<Vec<Extension>>) -> (r: bool)
    ensures
        r == (marked || (enabled matches Some(list) && all_required(list@))),
{
    if marked {
        return true;
    }
    match enabled {
        Some(list) => missing_extension(list).is_none(),
        None => false,
    }
}

/// A device that is created with what [`device_extensions`] asks for can import: every required
/// extension is then enabled. And nothing is asked for that the device does not have.
pub proof fn created_device_can_import(
    supported: Seq<Extension>,
    api_version: u32,
    enabled: Seq<Extension>,
)
    requires
        absent(required(), supported).len() == 0,
    ensures
        all_required(enabled + absent(wanted(supported, api_version), enabled)),
        forall|e: Extension| #[trigger]
            absent(wanted(supported, api_version), enabled).contains(e) ==> supported.contains(e)
                && !enabled.contains(e),
{
    let list = wanted(supported, api_version);
    let more = absent(list, enabled);
    let (a, b) = (required(), among(seq![Extension::QueueFamilyForeign], supported));
    let c = among(dependencies(), supported);
    assert forall|e: Extension| required().contains(e) implies #[trigger] (enabled
        + more).contains(e) by {
        let i = choose|i: int| 0 <= i < a.len() && a[i] == e;
        assert(list[i] == e);
        lemma_filter_member(list, |e: Extension| !enabled.contains(e), e);
        if enabled.contains(e) {
            let j = choose|j: int| 0 <= j < enabled.len() && enabled[j] == e;
            assert((enabled + more)[j] == e);
        } else {
            let j = choose|j: int| 0 <= j < more.len() && more[j] == e;
            assert((enabled + more)[enabled.len() + j] == e);
        }
    }
    assert forall|e: Extension| #[trigger] more.contains(e) implies supported.contains(e)
        && !enabled.contains(e) by {
        lemma_filter_member(list, |e: Extension| !enabled.contains(e), e);
        lemma_filter_member(a, |e: Extension| !supported.contains(e), e);
        lemma_filter_member(
            seq![Extension::QueueFamilyForeign],
            |e: Extension| supported.contains(e),
            e,
        );
        lemma_filter_member(dependencies(), |e: Extension| supported.contains(e), e);
        let i = choose|i: int| 0 <= i < list.len() && list[i] == e;
        if i < a.len() {
            assert(a[i] == e);
        } else if i < a.len() + b.len() {
            assert(b[i - a.len()] == e);
        } else {
            assert(c[i - a.len() - b.len()] == e);
        }
    }
}

/// What a filter keeps.
proof fn lemma_filter_member(s: Seq<Extension>, keep: spec_fn(Extension) -> bool, e: Extension)
    ensures
        s.filter(keep).contains(e) <==> s.contains(e) && keep(e),
    decreases s.len(),
{
    reveal(Seq::filter);
    if s.len() > 0 {
        let rest = s.drop_last();
        lemma_filter_member(rest, keep, e);
        assert(s =~= rest.push(s.last()));
        if rest.contains(e) {
            let i = choose|i: int| 0 <= i < rest.len() && rest[i] == e;
            assert(s[i] == e);
        }
        if rest.filter(keep).contains(e) {
            let i = choose|i: int| 0 <= i < rest.filter(keep).len() && rest.filter(keep)[i] == e;
            assert(s.filter(keep)[i] == e);
        }
        if e == s.last() && keep(e) {
            assert(s.filter(keep)[s.filter(keep).len() - 1] == e);
        }
    }
}

/// What a device is asked for, extension by extension: the three required ones always; the foreign
/// queue family where the device has it; what they depend on where the device has it and its Vulkan
/// is older than 1.2. Nothing that is enabled already is asked for again.
pub proof fn what_a_device_is_asked_for(
    supported: Seq<Extension>,
    api_version: u32,
    enabled: Seq<Extension>,
    e: Extension,
)
    ensures
        absent(wanted(supported, api_version), enabled).contains(e) <==> !enabled.contains(e) && (
        match e {
            Extension::ExternalMemoryFd => true,
            Extension::ExternalMemoryDmaBuf => true,
            Extension::ImageDrmFormatModifier => true,
            Extension::QueueFamilyForeign => supported.contains(e),
            _ => supported.contains(e) && api_version < 0x0040_2000,
        }),
{
    let list = wanted(supported, api_version);
    let (a, b) = (required(), among(seq![Extension::QueueFamilyForeign], supported));
    let c = among(dependencies(), supported);
    lemma_filter_member(list, |e: Extension| !enabled.contains(e), e);
    lemma_filter_member(
        seq![Extension::QueueFamilyForeign],
        |e: Extension| supported.contains(e),
        e,
    );
    lemma_filter_member(dependencies(), |e: Extension| supported.contains(e), e);
    assert(seq![Extension::QueueFamilyForeign][0] == Extension::QueueFamilyForeign);
    let d = dependencies();
    assert(d[0] == Extension::ImageFormatList && d[1] == Extension::BindMemory2 && d[2]
        == Extension::SamplerYcbcrConversion && d[3] == Extension::Maintenance1 && d[4]
        == Extension::GetMemoryRequirements2);
    assert(a[0] == Extension::ExternalMemoryFd && a[1] == Extension::ExternalMemoryDmaBuf && a[2]
        == Extension::ImageDrmFormatModifier);
    if list.contains(e) {
        let i = choose|i: int| 0 <= i < list.len() && list[i] == e;
        if i < a.len() {
            assert(a[i] == e);
        } else if i < a.len() + b.len() {
            assert(b[i - a.len()] == e);
        } else {
            assert(c[i - a.len() - b.len()] == e);
        }
    }
    if a.contains(e) {
        let i = choose|i: int| 0 <= i < a.len() && a[i] == e;
        assert(list[i] == e);
    }
    if b.contains(e) {
        let i = choose|i: int| 0 <= i < b.len() && b[i] == e;
        assert(list[a.len() + i] == e);
    }
    if api_version < 0x0040_2000 && c.contains(e) {
        let i = choose|i: int| 0 <= i < c.len() && c[i] == e;
        assert(list[a.len() + b.len() + i] == e);
    }
}

/// A device is refused for the required extensions that it lacks, and for nothing else.
pub proof fn a_device_is_refused_for_what_it_lacks(supported: Seq<Extension>, e: Extension)
    ensures
        absent(required(), supported).contains(e) <==> !supported.contains(e) && (e
            is ExternalMemoryFd || e is ExternalMemoryDmaBuf || e is ImageDrmFormatModifier),
        absent(required(), supported).len() == 0 <==> supported.contains(
            Extension::ExternalMemoryFd,
        ) && supported.contains(Extension::ExternalMemoryDmaBuf) && supported.contains(
            Extension::ImageDrmFormatModifier,
        ),
{
    let a = required();
    let missing = absent(a, supported);
    assert(a[0] == Extension::ExternalMemoryFd && a[1] == Extension::ExternalMemoryDmaBuf && a[2]
        == Extension::ImageDrmFormatModifier);
    lemma_filter_member(a, |e: Extension| !supported.contains(e), e);
    lemma_filter_member(a, |e: Extension| !supported.contains(e), a[0]);
    lemma_filter_member(a, |e: Extension| !supported.contains(e), a[1]);
    lemma_filter_member(a, |e: Extension| !supported.contains(e), a[2]);
    if missing.len() > 0 {
        lemma_filter_member(a, |e: Extension| !supported.contains(e), missing[0]);
        assert(missing.contains(missing[0]));
    }
}

/// An import asks for the required extensions, and for no other ones.
pub proof fn what_an_import_misses(enabled: Seq<Extension>)
    ensures
        first_missing(enabled) is None <==> absent(required(), enabled).len() == 0,
        first_missing(enabled) matches Some(e) ==> absent(required(), enabled).len() > 0 && e
            == absent(required(), enabled)[0],
{
    reveal(Seq::filter);
    let a = required();
    let keep = |e: Extension| !enabled.contains(e);
    assert(a.drop_last() =~= seq![
        Extension::ExternalMemoryFd,
        Extension::ExternalMemoryDmaBuf,
    ]);
    assert(a.drop_last().drop_last() =~= seq![Extension::ExternalMemoryFd]);
    assert(a.drop_last().drop_last().drop_last() =~= Seq::empty());
    let none = Seq::<Extension>::empty();
    assert(none.filter(keep) =~= none);
    let f1 = a.drop_last().drop_last().filter(keep);
    let f2 = a.drop_last().filter(keep);
    assert(f1 =~= if keep(a[0]) {
        seq![a[0]]
    } else {
        Seq::empty()
    });
    assert(f2 =~= if keep(a[1]) {
        f1.push(a[1])
    } else {
        f1
    });
    assert(a.filter(keep) =~= if keep(a[2]) {
        f2.push(a[2])
    } else {
        f2
    });
}

} // verus!
