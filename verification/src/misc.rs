//! Odds and ends.

use crate::resource::image::ImageSubresourceRange;
use crate::vk::{IMAGE_ASPECT_COLOR, REMAINING_ARRAY_LAYERS, REMAINING_MIP_LEVELS};
use core::time::Duration;
use vstd::prelude::*;

verus! {

/// All mip levels and array layers of the color aspect of an image.
pub open spec fn full_color_range() -> ImageSubresourceRange {
    ImageSubresourceRange {
        aspect_mask: IMAGE_ASPECT_COLOR,
        base_mip_level: 0,
        level_count: REMAINING_MIP_LEVELS,
        base_array_layer: 0,
        layer_count: REMAINING_ARRAY_LAYERS,
    }
}

/// All mip levels and array layers of the color aspect of an image.
pub fn image_subresource_range_full_color() -> (range: ImageSubresourceRange)
    ensures
        range == full_color_range(),
{
    ImageSubresourceRange {
        aspect_mask: IMAGE_ASPECT_COLOR,
        base_mip_level: 0,
        level_count: REMAINING_MIP_LEVELS,
        base_array_layer: 0,
        layer_count: REMAINING_ARRAY_LAYERS,
    }
}

/// The length of a duration in nanoseconds.
pub uninterp spec fn nanos_of(duration: Duration) -> u128;

/// The length of `duration` in nanoseconds.
///
/// Calls `Duration::as_nanos` of std, which returns the total number of
/// nanoseconds that the duration holds; the contract gives that number the
/// name `nanos_of`.
#[verifier::external_body]
fn duration_as_nanos(duration: &Duration) -> (nanos: u128)
    ensures
        nanos == nanos_of(*duration),
{
    duration.as_nanos()
}

/// The timeout that the GPU API takes for a wait of `nanos` nanoseconds,
/// or for a wait without limit where no length is given: the number of
/// nanoseconds, and 2^64 - 1 for "no limit". A length that does not fit
/// has no timeout.
pub fn timeout_from_nanos(nanos: Option<u128>) -> (timeout: Option<u64>)
    ensures
        timeout == match nanos {
            None => Some(u64::MAX),
            Some(n) => if n <= u64::MAX {
                Some(n as u64)
            } else {
                None
            },
        },
{
    match nanos {
        None => Some(u64::MAX),
        Some(n) => {
            if n <= 0xffff_ffff_ffff_ffff {
                Some(n as u64)
            } else {
                None
            }
        },
    }
}

/// The timeout that the GPU API takes for a wait of `duration`, or for a
/// wait without limit where no duration is given; none where the duration
/// is too long to be told in nanoseconds.
pub fn checked_timeout_u64(duration: Option<Duration>) -> (timeout: Option<u64>)
    ensures
        timeout == match duration {
            None => Some(u64::MAX),
            Some(d) => if nanos_of(d) <= u64::MAX {
                Some(nanos_of(d) as u64)
            } else {
                None
            },
        },
{
    match duration {
        None => timeout_from_nanos(None),
        Some(d) => timeout_from_nanos(Some(duration_as_nanos(&d))),
    }
}

/// The timeout that the GPU API takes for a wait of `duration`, or for a
/// wait without limit where no duration is given. The duration must be
/// short enough to be told in nanoseconds.
pub fn timeout_u64(duration: Option<Duration>) -> (timeout: u64)
    requires
        duration matches Some(d) ==> nanos_of(d) <= u64::MAX,
    ensures
        timeout == match duration {
            None => u64::MAX,
            Some(d) => nanos_of(d) as u64,
        },
{
    checked_timeout_u64(duration).unwrap()
}

} // verus!
