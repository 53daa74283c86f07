use reify::device::extensions::{
    compare_names, DeviceExtensionFlags, InstanceExtensionFlags, NameOrder, DEVICE_KHR_SWAPCHAIN,
    INSTANCE_KHR_SURFACE, INSTANCE_KHR_XCB_SURFACE,
};

#[test]
fn extensions_sorted() {
    assert!(DeviceExtensionFlags::names().is_sorted());
    assert!(InstanceExtensionFlags::names().is_sorted());
}

#[test]
fn extension_names_are_those_of_the_api() {
    let instance = InstanceExtensionFlags::names();
    assert_eq!(instance[0], ash::ext::debug_utils::NAME.to_str().unwrap());
    assert_eq!(instance[1], ash::khr::display::NAME.to_str().unwrap());
    assert_eq!(instance[2], ash::khr::surface::NAME.to_str().unwrap());
    assert_eq!(instance[3], ash::khr::wayland_surface::NAME.to_str().unwrap());
    assert_eq!(instance[4], ash::khr::xcb_surface::NAME.to_str().unwrap());
    assert_eq!(instance[5], ash::khr::xlib_surface::NAME.to_str().unwrap());
    let device = DeviceExtensionFlags::names();
    assert_eq!(device[0], ash::khr::dedicated_allocation::NAME.to_str().unwrap());
    assert_eq!(device[1], ash::khr::swapchain::NAME.to_str().unwrap());
}

#[test]
fn names_compare_like_strings() {
    assert_eq!(compare_names("VK_KHR_display", "VK_KHR_surface"), NameOrder::Before);
    assert_eq!(compare_names("VK_KHR_surface", "VK_KHR_display"), NameOrder::After);
    assert_eq!(compare_names("VK_KHR_surface", "VK_KHR_surface"), NameOrder::Same);
    assert_eq!(compare_names("VK_KHR", "VK_KHR_surface"), NameOrder::Before);
    assert_eq!(compare_names("", ""), NameOrder::Same);
}

#[test]
fn detect_finds_reported_extensions() {
    let reported = vec!["VK_KHR_xcb_surface", "VK_NV_unknown", "VK_KHR_surface", "VK_KHR_surface"];
    let flags = InstanceExtensionFlags::detect(&reported);
    assert_eq!(flags.bits(), INSTANCE_KHR_SURFACE | INSTANCE_KHR_XCB_SURFACE);
    assert_eq!(flags.iter_ext_names(), vec!["VK_KHR_surface", "VK_KHR_xcb_surface"]);
    assert_eq!(InstanceExtensionFlags::detect(&vec![]).bits(), 0);
}

#[test]
fn from_ext_name_finds_the_flag() {
    let flag = DeviceExtensionFlags::from_ext_name("VK_KHR_swapchain").unwrap();
    assert_eq!(flag.bits(), DEVICE_KHR_SWAPCHAIN);
    assert!(DeviceExtensionFlags::from_ext_name("VK_KHR_swapchains").is_none());
    assert!(DeviceExtensionFlags::from_ext_name("").is_none());
    assert!(DeviceExtensionFlags::from_bits_truncate(0xff).contains(flag));
    assert!(!DeviceExtensionFlags::empty().contains(flag));
}
