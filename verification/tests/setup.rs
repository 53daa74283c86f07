use reify::device::extensions::{
    DeviceExtensionFlags, InstanceExtensionFlags, DEVICE_KHR_DEDICATED_ALLOCATION,
    DEVICE_KHR_SWAPCHAIN, INSTANCE_KHR_DISPLAY, INSTANCE_KHR_WAYLAND_SURFACE,
};
use reify::device::features::{
    PhysicalDeviceFeaturesFlags, FEATURE_COUNT, FEATURE_GEOMETRY_SHADER, FEATURE_INHERITED_QUERIES,
    FEATURE_ROBUST_BUFFER_ACCESS, FEATURE_SHADER_INT64,
};
use reify::device::setup::{
    api_version, device_extensions, has_name, required_extensions, required_layers,
    select_queue_family, version_supported, wanted_instance_extensions, ApiVersion,
    API_VERSION_1_3, LAYER_NAME_VALIDATION, QUEUE_COMPUTE, QUEUE_GRAPHICS, QUEUE_TRANSFER,
};
use reify::device::QueueFamily;

#[test]
fn versions_are_unpacked_like_the_api_does() {
    assert_eq!(API_VERSION_1_3, ash::vk::API_VERSION_1_3);
    for version in [0, ash::vk::API_VERSION_1_0, ash::vk::API_VERSION_1_2, ash::vk::make_api_version(0, 1, 3, 281), u32::MAX] {
        assert_eq!(
            api_version(version),
            ApiVersion {
                major: ash::vk::api_version_major(version),
                minor: ash::vk::api_version_minor(version),
                patch: ash::vk::api_version_patch(version),
            }
        );
    }
    assert_eq!(api_version(ash::vk::make_api_version(0, 1, 3, 281)), ApiVersion { major: 1, minor: 3, patch: 281 });
    assert!(!version_supported(ash::vk::API_VERSION_1_2));
    assert!(version_supported(ash::vk::API_VERSION_1_3));
    assert!(version_supported(ash::vk::make_api_version(0, 1, 4, 0)));
}

#[test]
fn missing_instance_extensions_are_told() {
    let all = wanted_instance_extensions();
    assert_eq!(all.bits(), 0x3f);
    let available = InstanceExtensionFlags::from_bits_truncate(0x3f & !(INSTANCE_KHR_DISPLAY | INSTANCE_KHR_WAYLAND_SURFACE));
    let (wanted, missing) = required_extensions(available);
    assert_eq!(wanted, all);
    assert_eq!(missing.bits(), INSTANCE_KHR_DISPLAY | INSTANCE_KHR_WAYLAND_SURFACE);
    assert_eq!(missing.iter_ext_names(), vec!["VK_KHR_display", "VK_KHR_wayland_surface"]);
    assert!(required_extensions(all).1.is_empty());
    assert_eq!(all.union(available), all);
    assert_eq!(all.intersection(available), available);
    assert_eq!(InstanceExtensionFlags::from_bits_truncate(u64::MAX), all);
}

#[test]
fn device_extensions_are_enabled_if_there() {
    let none = DeviceExtensionFlags::empty();
    let (enabled, missing) = device_extensions(none);
    assert!(enabled.is_empty());
    assert_eq!(missing.bits(), DEVICE_KHR_SWAPCHAIN);
    let both = DeviceExtensionFlags::from_bits_truncate(DEVICE_KHR_SWAPCHAIN | DEVICE_KHR_DEDICATED_ALLOCATION);
    let (enabled, missing) = device_extensions(both);
    assert_eq!(enabled.bits(), DEVICE_KHR_SWAPCHAIN);
    assert!(missing.is_empty());
}

#[test]
fn layers_are_kept_if_available() {
    let wanted = vec![LAYER_NAME_VALIDATION, "VK_LAYER_other"];
    let available = vec!["VK_LAYER_a", "VK_LAYER_KHRONOS_validation"];
    assert_eq!(required_layers(&wanted, &available), vec!["VK_LAYER_KHRONOS_validation"]);
    assert!(required_layers(&wanted, &vec![]).is_empty());
    assert!(required_layers(&vec![], &available).is_empty());
    assert!(has_name(&available, "VK_LAYER_a"));
    assert!(!has_name(&available, "VK_LAYER_"));
}

#[test]
fn first_queue_family_that_can_do_everything_is_chosen() {
    assert_eq!(QUEUE_GRAPHICS, ash::vk::QueueFlags::GRAPHICS.as_raw());
    assert_eq!(QUEUE_COMPUTE, ash::vk::QueueFlags::COMPUTE.as_raw());
    assert_eq!(QUEUE_TRANSFER, ash::vk::QueueFlags::TRANSFER.as_raw());
    assert_eq!(select_queue_family(&vec![]), None);
    assert_eq!(select_queue_family(&vec![0x4, 0x6, 0x3]), None);
    assert_eq!(select_queue_family(&vec![0x4, 0xf, 0x7]), Some(1));
    assert_eq!(select_queue_family(&vec![0x7]), Some(0));
    assert_eq!(QueueFamily::new(3).as_u32(), 3);
}

#[test]
fn feature_flags_follow_the_reported_features() {
    assert_eq!(FEATURE_COUNT, 55);
    let mut reported = [0u32; 55];
    assert_eq!(PhysicalDeviceFeaturesFlags::from_features(&reported), PhysicalDeviceFeaturesFlags::empty());
    reported[0] = 1;
    reported[4] = 1;
    reported[40] = 1;
    reported[54] = 1;
    // Only "true" counts.
    reported[7] = 2;
    let flags = PhysicalDeviceFeaturesFlags::from_features(&reported);
    assert_eq!(
        flags.bits(),
        FEATURE_ROBUST_BUFFER_ACCESS | FEATURE_GEOMETRY_SHADER | FEATURE_SHADER_INT64 | FEATURE_INHERITED_QUERIES
    );
    assert_eq!(flags.bits(), 1 | 1 << 4 | 1 << 40 | 1 << 54);
    assert!(flags.contains(FEATURE_SHADER_INT64 | FEATURE_GEOMETRY_SHADER));
    assert!(!flags.contains(FEATURE_SHADER_INT64 | 1 << 7));
    let all = PhysicalDeviceFeaturesFlags::from_features(&[1u32; 55]);
    assert_eq!(all.bits(), (1 << 55) - 1);
}
