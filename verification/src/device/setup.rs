//! What is decided when the instance and the device are set up: whether
//! the version of the GPU API will do, which extensions and layers are
//! asked for, and which queue family is used.

use crate::device::extensions::{
    DeviceExtensionFlags, InstanceExtensionFlags, DEVICE_KHR_SWAPCHAIN, INSTANCE_EXT_DEBUG_UTILS,
    INSTANCE_KHR_DISPLAY, INSTANCE_KHR_SURFACE, INSTANCE_KHR_WAYLAND_SURFACE,
    INSTANCE_KHR_XCB_SURFACE, INSTANCE_KHR_XLIB_SURFACE,
};
use vstd::prelude::*;

verus! {

/// The name of the validation layer.
pub const LAYER_NAME_VALIDATION: &'static str = "VK_LAYER_KHRONOS_validation";

/// The lowest version of the GPU API that will do: 1.3.0.
pub const API_VERSION_1_3: u32 = 0x0040_3000;

/// The flags of a queue family that can draw.
pub const QUEUE_GRAPHICS: u32 = 0x1;

/// The flags of a queue family that can compute.
pub const QUEUE_COMPUTE: u32 = 0x2;

/// The flags of a queue family that can transfer.
pub const QUEUE_TRANSFER: u32 = 0x4;

/// A version of the GPU API in its parts.
#[derive(Copy, Clone, Debug, PartialEq, Eq, Structural)]
pub struct ApiVersion {
    pub major: u32,
    pub minor: u32,
    pub patch: u32,
}

/// The parts of a packed version: the patch in the low 12 bits, the minor
/// version in the 10 bits above, the major version in the 7 bits above
/// those.
pub open spec fn version_parts(version: u32) -> ApiVersion {
    ApiVersion {
        major: (version >> 22) & 0x7f,
        minor: (version >> 12) & 0x3ff,
        patch: version & 0xfff,
    }
}

/// `ash::vk::api_version_major`: the major version of a packed version, its
/// bits 22 to 28.
pub assume_specification[ ash::vk::api_version_major ](version: u32) -> (major: u32)
    ensures
        major == (version >> 22) & 0x7f,
;

/// `ash::vk::api_version_minor`: the minor version of a packed version, its
/// bits 12 to 21.
pub assume_specification[ ash::vk::api_version_minor ](version: u32) -> (minor: u32)
    ensures
        minor == (version >> 12) & 0x3ff,
;

/// `ash::vk::api_version_patch`: the patch of a packed version, its low 12
/// bits.
pub assume_specification[ ash::vk::api_version_patch ](version: u32) -> (patch: u32)
    ensures
        patch == version & 0xfff,
;

/// The parts of a packed version.
pub fn api_version(version: u32) -> (parts: ApiVersion)
    ensures
        parts == version_parts(version),
{
    ApiVersion {
        major: ash::vk::api_version_major(version),
        minor: ash::vk::api_version_minor(version),
        patch: ash::vk::api_version_patch(version),
    }
}

/// Will this version of the GPU API do? It must be 1.3.0 at least.
pub fn version_supported(version: u32) -> (supported: bool)
    ensures
        supported == (version >= API_VERSION_1_3),
{
    version >= API_VERSION_1_3
}

/// The instance extensions that the framework asks for: display, surface
/// and debug utils, and the surfaces of the window systems.
pub fn wanted_instance_extensions() -> (wanted: InstanceExtensionFlags)
    ensures
        wanted.spec_bits() == INSTANCE_EXT_DEBUG_UTILS | INSTANCE_KHR_DISPLAY | INSTANCE_KHR_SURFACE
            | INSTANCE_KHR_WAYLAND_SURFACE | INSTANCE_KHR_XCB_SURFACE | INSTANCE_KHR_XLIB_SURFACE,
{
    let wanted = InstanceExtensionFlags::from_bits_truncate(
        INSTANCE_EXT_DEBUG_UTILS | INSTANCE_KHR_DISPLAY | INSTANCE_KHR_SURFACE
            | INSTANCE_KHR_WAYLAND_SURFACE | INSTANCE_KHR_XCB_SURFACE | INSTANCE_KHR_XLIB_SURFACE,
    );
    assert((0x1u64 | 0x2 | 0x4 | 0x8 | 0x10 | 0x20) & 0x3f == (0x1u64 | 0x2 | 0x4 | 0x8 | 0x10 | 0x20))
        by (bit_vector);
    wanted
}

/// The instance extensions that the framework asks for, and those among
/// them that are not there.
pub fn required_extensions(available: InstanceExtensionFlags) -> (result: (
    InstanceExtensionFlags,
    InstanceExtensionFlags,
))
    ensures
        result.0.spec_bits() == INSTANCE_EXT_DEBUG_UTILS | INSTANCE_KHR_DISPLAY | INSTANCE_KHR_SURFACE
            | INSTANCE_KHR_WAYLAND_SURFACE | INSTANCE_KHR_XCB_SURFACE | INSTANCE_KHR_XLIB_SURFACE,
        result.1.spec_bits() == result.0.spec_bits() & !available.spec_bits(),
{
    let wanted = wanted_instance_extensions();
    (wanted, wanted.difference(available))
}

/// Is the name `name` among `names`?
pub fn has_name(names: &Vec<&str>, name: &str) -> (found: bool)
    ensures
        found == exists|i: int| 0 <= i < names@.len() && (#[trigger] names@[i])@ == name@,
{
    let mut i: usize = 0;
    while i < names.len()
        invariant
            i <= names@.len(),
            forall|j: int| 0 <= j < i ==> (#[trigger] names@[j])@ != name@,
        decreases names@.len() - i,
    {
        match crate::device::extensions::compare_names(names[i], name) {
            crate::device::extensions::NameOrder::Same => {
                return true;
            },
            _ => {},
        }
        i += 1;
    }
    false
}

/// The layers among the first `upto` of `wanted` that are available, in the
/// order of `wanted`.
pub open spec fn available_layers(wanted: Seq<&'static str>, available: Seq<&str>, upto: nat) -> Seq<
    &'static str,
>
    decreases upto,
{
    if upto == 0 {
        Seq::empty()
    } else {
        let before = available_layers(wanted, available, (upto - 1) as nat);
        let layer = wanted[upto - 1];
        if exists|i: int| 0 <= i < available.len() && (#[trigger] available[i])@ == layer@ {
            before.push(layer)
        } else {
            before
        }
    }
}

/// The layers that are enabled: those of `wanted` that are available.
pub fn required_layers(wanted: &Vec<&'static str>, available: &Vec<&str>) -> (layers: Vec<&'static str>)
    ensures
        layers@ == available_layers(wanted@, available@, wanted@.len()),
{
    let mut layers: Vec<&'static str> = Vec::new();
    let mut i: usize = 0;
    while i < wanted.len()
        invariant
            i <= wanted@.len(),
            layers@ == available_layers(wanted@, available@, i as nat),
        decreases wanted@.len() - i,
    {
        if has_name(available, wanted[i]) {
            layers.push(wanted[i]);
        }
        i += 1;
    }
    layers
}

/// The first queue family that can draw, compute and transfer.
pub fn select_queue_family(queue_flags: &Vec<u32>) -> (family: Option<u32>)
    ensures
        family matches Some(index) ==> {
            &&& index < queue_flags@.len()
            &&& can_do_all(queue_flags@[index as int])
            &&& forall|i: int| 0 <= i < index ==> !can_do_all(queue_flags@[i])
        },
        family is None <==> forall|i: int|
            0 <= i < queue_flags@.len() && i <= u32::MAX ==> !can_do_all(queue_flags@[i]),
{
    let mut i: usize = 0;
    while i < queue_flags.len() && i <= 0xffff_ffff
        invariant
            i <= queue_flags@.len(),
            i <= 0x1_0000_0000,
            forall|j: int| 0 <= j < i ==> !can_do_all(queue_flags@[j]),
        decreases queue_flags@.len() - i,
    {
        let all = QUEUE_GRAPHICS | QUEUE_COMPUTE | QUEUE_TRANSFER;
        if queue_flags[i] & all == all {
            return Some(i as u32);
        }
        i += 1;
    }
    None
}

/// Can a queue family with these flags draw, compute and transfer?
pub open spec fn can_do_all(flags: u32) -> bool {
    flags & (QUEUE_GRAPHICS | QUEUE_COMPUTE | QUEUE_TRANSFER) == (QUEUE_GRAPHICS | QUEUE_COMPUTE
        | QUEUE_TRANSFER)
}

/// The device extensions that are enabled, and those that are required and
/// not there. The swapchain extension is required; an extension is enabled
/// if it is required and there.
pub fn device_extensions(available: DeviceExtensionFlags) -> (result: (
    DeviceExtensionFlags,
    DeviceExtensionFlags,
))
    ensures
        result.0.spec_bits() == DEVICE_KHR_SWAPCHAIN & available.spec_bits(),
        result.1.spec_bits() == DEVICE_KHR_SWAPCHAIN & !available.spec_bits(),
{
    let required = DeviceExtensionFlags::from_bits_truncate(DEVICE_KHR_SWAPCHAIN);
    assert(0x2u64 & 0x3 == 0x2) by (bit_vector);
    (required.intersection(available), required.difference(available))
}

} // verus!
