use reify::Error;
use reify::misc::{checked_timeout_u64, timeout_from_nanos, timeout_u64};
use std::time::Duration;

#[test]
fn timeout_is_told_in_nanoseconds() {
    assert_eq!(timeout_u64(None), u64::MAX);
    assert_eq!(timeout_u64(Some(Duration::from_nanos(0))), 0);
    assert_eq!(timeout_u64(Some(Duration::from_millis(16))), 16_000_000);
    assert_eq!(timeout_u64(Some(Duration::new(2, 5))), 2_000_000_005);
    assert_eq!(timeout_u64(Some(Duration::from_nanos(u64::MAX))), u64::MAX);
}

#[test]
fn timeout_that_does_not_fit_is_none() {
    assert_eq!(checked_timeout_u64(None), Some(u64::MAX));
    assert_eq!(checked_timeout_u64(Some(Duration::from_secs(1))), Some(1_000_000_000));
    assert_eq!(checked_timeout_u64(Some(Duration::from_secs(u64::MAX))), None);
    assert_eq!(checked_timeout_u64(Some(Duration::new(18_446_744_073, 709_551_615))), Some(u64::MAX));
    assert_eq!(checked_timeout_u64(Some(Duration::new(18_446_744_073, 709_551_616))), None);
    assert_eq!(timeout_from_nanos(Some(7)), Some(7));
    assert_eq!(timeout_from_nanos(Some(u64::MAX as u128 + 1)), None);
    assert_eq!(timeout_from_nanos(None), Some(u64::MAX));
}

#[test]
fn errors_tell_what_went_wrong() {
    let all = [
        Error::Bug,
        Error::Capacity,
        Error::DeviceLost,
        Error::TimedOut,
        Error::Vulkan(ash::vk::Result::ERROR_OUT_OF_DEVICE_MEMORY.as_raw()),
    ];
    for (i, a) in all.iter().enumerate() {
        for (j, b) in all.iter().enumerate() {
            assert_eq!(a == b, i == j);
        }
    }
    assert_eq!(Error::Vulkan(-2), all[4]);
    assert_ne!(Error::Vulkan(-2), Error::Vulkan(-4));
}
