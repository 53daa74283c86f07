//! The features of a physical device, as a set of flags.
//!
//! The GPU API reports the features as a list of 32-bit booleans in a fixed
//! order. The flag of a feature is the bit at the place of the feature in
//! that list.

use crate::device::extensions::has_bit;
use crate::vk::TRUE;
use vstd::prelude::*;

verus! {

/// The number of features.
pub const FEATURE_COUNT: usize = 55;

/// The flag of the feature `robust_buffer_access`.
pub const FEATURE_ROBUST_BUFFER_ACCESS: u64 = 0x1;

/// The flag of the feature `full_draw_index_uint32`.
pub const FEATURE_FULL_DRAW_INDEX_UINT32: u64 = 0x2;

/// The flag of the feature `image_cube_array`.
pub const FEATURE_IMAGE_CUBE_ARRAY: u64 = 0x4;

/// The flag of the feature `independent_blend`.
pub const FEATURE_INDEPENDENT_BLEND: u64 = 0x8;

/// The flag of the feature `geometry_shader`.
pub const FEATURE_GEOMETRY_SHADER: u64 = 0x10;

/// The flag of the feature `tessellation_shader`.
pub const FEATURE_TESSELLATION_SHADER: u64 = 0x20;

/// The flag of the feature `sample_rate_shading`.
pub const FEATURE_SAMPLE_RATE_SHADING: u64 = 0x40;

/// The flag of the feature `dual_src_blend`.
pub const FEATURE_DUAL_SRC_BLEND: u64 = 0x80;

/// The flag of the feature `logic_op`.
pub const FEATURE_LOGIC_OP: u64 = 0x100;

/// The flag of the feature `multi_draw_indirect`.
pub const FEATURE_MULTI_DRAW_INDIRECT: u64 = 0x200;

/// The flag of the feature `draw_indirect_first_instance`.
pub const FEATURE_DRAW_INDIRECT_FIRST_INSTANCE: u64 = 0x400;

/// The flag of the feature `depth_clamp`.
pub const FEATURE_DEPTH_CLAMP: u64 = 0x800;

/// The flag of the feature `depth_bias_clamp`.
pub const FEATURE_DEPTH_BIAS_CLAMP: u64 = 0x1000;

/// The flag of the feature `fill_mode_non_solid`.
pub const FEATURE_FILL_MODE_NON_SOLID: u64 = 0x2000;

/// The flag of the feature `depth_bounds`.
pub const FEATURE_DEPTH_BOUNDS: u64 = 0x4000;

/// The flag of the feature `wide_lines`.
pub const FEATURE_WIDE_LINES: u64 = 0x8000;

/// The flag of the feature `large_points`.
pub const FEATURE_LARGE_POINTS: u64 = 0x10000;

/// The flag of the feature `alpha_to_one`.
pub const FEATURE_ALPHA_TO_ONE: u64 = 0x20000;

/// The flag of the feature `multi_viewport`.
pub const FEATURE_MULTI_VIEWPORT: u64 = 0x40000;

/// The flag of the feature `sampler_anisotropy`.
pub const FEATURE_SAMPLER_ANISOTROPY: u64 = 0x80000;

/// The flag of the feature `texture_compression_etc2`.
pub const FEATURE_TEXTURE_COMPRESSION_ETC2: u64 = 0x100000;

/// The flag of the feature `texture_compression_astc_ldr`.
pub const FEATURE_TEXTURE_COMPRESSION_ASTC_LDR: u64 = 0x200000;

/// The flag of the feature `texture_compression_bc`.
pub const FEATURE_TEXTURE_COMPRESSION_BC: u64 = 0x400000;

/// The flag of the feature `occlusion_query_precise`.
pub const FEATURE_OCCLUSION_QUERY_PRECISE: u64 = 0x800000;

/// The flag of the feature `pipeline_statistics_query`.
pub const FEATURE_PIPELINE_STATISTICS_QUERY: u64 = 0x1000000;

/// The flag of the feature `vertex_pipeline_stores_and_atomics`.
pub const FEATURE_VERTEX_PIPELINE_STORES_AND_ATOMICS: u64 = 0x2000000;

/// The flag of the feature `fragment_stores_and_atomics`.
pub const FEATURE_FRAGMENT_STORES_AND_ATOMICS: u64 = 0x4000000;

/// The flag of the feature `shader_tessellation_and_geometry_point_size`.
pub const FEATURE_SHADER_TESSELLATION_AND_GEOMETRY_POINT_SIZE: u64 = 0x8000000;

/// The flag of the feature `shader_image_gather_extended`.
pub const FEATURE_SHADER_IMAGE_GATHER_EXTENDED: u64 = 0x10000000;

/// The flag of the feature `shader_storage_image_extended_formats`.
pub const FEATURE_SHADER_STORAGE_IMAGE_EXTENDED_FORMATS: u64 = 0x20000000;

/// The flag of the feature `shader_storage_image_multisample`.
pub const FEATURE_SHADER_STORAGE_IMAGE_MULTISAMPLE: u64 = 0x40000000;

/// The flag of the feature `shader_storage_image_read_without_format`.
pub const FEATURE_SHADER_STORAGE_IMAGE_READ_WITHOUT_FORMAT: u64 = 0x80000000;

/// The flag of the feature `shader_storage_image_write_without_format`.
pub const FEATURE_SHADER_STORAGE_IMAGE_WRITE_WITHOUT_FORMAT: u64 = 0x100000000;

/// The flag of the feature `shader_uniform_buffer_array_dynamic_indexing`.
pub const FEATURE_SHADER_UNIFORM_BUFFER_ARRAY_DYNAMIC_INDEXING: u64 = 0x200000000;

/// The flag of the feature `shader_sampled_image_array_dynamic_indexing`.
pub const FEATURE_SHADER_SAMPLED_IMAGE_ARRAY_DYNAMIC_INDEXING: u64 = 0x400000000;

/// The flag of the feature `shader_storage_buffer_array_dynamic_indexing`.
pub const FEATURE_SHADER_STORAGE_BUFFER_ARRAY_DYNAMIC_INDEXING: u64 = 0x800000000;

/// The flag of the feature `shader_storage_image_array_dynamic_indexing`.
pub const FEATURE_SHADER_STORAGE_IMAGE_ARRAY_DYNAMIC_INDEXING: u64 = 0x1000000000;

/// The flag of the feature `shader_clip_distance`.
pub const FEATURE_SHADER_CLIP_DISTANCE: u64 = 0x2000000000;

/// The flag of the feature `shader_cull_distance`.
pub const FEATURE_SHADER_CULL_DISTANCE: u64 = 0x4000000000;

/// The flag of the feature `shader_float64`.
pub const FEATURE_SHADER_FLOAT64: u64 = 0x8000000000;

/// The flag of the feature `shader_int64`.
pub const FEATURE_SHADER_INT64: u64 = 0x10000000000;

/// The flag of the feature `shader_int16`.
pub const FEATURE_SHADER_INT16: u64 = 0x20000000000;

/// The flag of the feature `shader_resource_residency`.
pub const FEATURE_SHADER_RESOURCE_RESIDENCY: u64 = 0x40000000000;

/// The flag of the feature `shader_resource_min_lod`.
pub const FEATURE_SHADER_RESOURCE_MIN_LOD: u64 = 0x80000000000;

/// The flag of the feature `sparse_binding`.
pub const FEATURE_SPARSE_BINDING: u64 = 0x100000000000;

/// The flag of the feature `sparse_residency_buffer`.
pub const FEATURE_SPARSE_RESIDENCY_BUFFER: u64 = 0x200000000000;

/// The flag of the feature `sparse_residency_image2_d`.
pub const FEATURE_SPARSE_RESIDENCY_IMAGE_2D: u64 = 0x400000000000;

/// The flag of the feature `sparse_residency_image3_d`.
pub const FEATURE_SPARSE_RESIDENCY_IMAGE_3D: u64 = 0x800000000000;

/// The flag of the feature `sparse_residency2_samples`.
pub const FEATURE_SPARSE_RESIDENCY_2_SAMPLES: u64 = 0x1000000000000;

/// The flag of the feature `sparse_residency4_samples`.
pub const FEATURE_SPARSE_RESIDENCY_4_SAMPLES: u64 = 0x2000000000000;

/// The flag of the feature `sparse_residency8_samples`.
pub const FEATURE_SPARSE_RESIDENCY_8_SAMPLES: u64 = 0x4000000000000;

/// The flag of the feature `sparse_residency16_samples`.
pub const FEATURE_SPARSE_RESIDENCY_16_SAMPLES: u64 = 0x8000000000000;

/// The flag of the feature `sparse_residency_aliased`.
pub const FEATURE_SPARSE_RESIDENCY_ALIASED: u64 = 0x10000000000000;

/// The flag of the feature `variable_multisample_rate`.
pub const FEATURE_VARIABLE_MULTISAMPLE_RATE: u64 = 0x20000000000000;

/// The flag of the feature `inherited_queries`.
pub const FEATURE_INHERITED_QUERIES: u64 = 0x40000000000000;

/// A set of features of a physical device.
#[derive(Copy, Clone, Debug, PartialEq, Eq, Structural)]
pub struct PhysicalDeviceFeaturesFlags {
    bits: u64,
}

/// Setting bit `i` sets that bit and leaves the others.
proof fn lemma_set_bit(bits: u64, i: u64, j: u64)
    requires
        i < 64,
        j < 64,
    ensures
        (((bits | (1u64 << i)) >> j) & 1 == 1) <==> (i == j || (bits >> j) & 1 == 1),
{
    assert((((bits | (1u64 << i)) >> j) & 1 == 1) <==> (i == j || (bits >> j) & 1 == 1)) by (bit_vector)
        requires
            i < 64,
            j < 64,
    ;
}

impl PhysicalDeviceFeaturesFlags {
    /// The flags as bits.
    pub closed spec fn spec_bits(self) -> u64 {
        self.bits
    }

    /// The empty set.
    pub fn empty() -> (flags: PhysicalDeviceFeaturesFlags)
        ensures
            flags.spec_bits() == 0,
    {
        PhysicalDeviceFeaturesFlags { bits: 0 }
    }

    pub fn bits(self) -> (bits: u64)
        ensures
            bits == self.spec_bits(),
    {
        self.bits
    }

    /// Are all features of `other` in this set?
    pub fn contains(self, other: u64) -> (all: bool)
        ensures
            all == (self.spec_bits() & other == other),
    {
        self.bits & other == other
    }

    /// The set of the features that the device has: the flag of a feature
    /// is set exactly where the device reports the feature as true.
    pub fn from_features(features: &[u32; 55]) -> (flags: PhysicalDeviceFeaturesFlags)
        ensures
            forall|i: nat|
                #[trigger] has_bit(flags.spec_bits(), i) <==> i < FEATURE_COUNT && features@[i as int]
                    == TRUE,
    {
        let mut bits: u64 = 0;
        let mut n: usize = 0;
        proof {
            assert forall|i: nat| !#[trigger] has_bit(0u64, i) by {
                if i < 64 {
                    let s = i as u64;
                    assert((0u64 >> s) & 1 == 0) by (bit_vector);
                }
            }
        }
        while n < FEATURE_COUNT
            invariant
                n <= FEATURE_COUNT,
                forall|i: nat| #[trigger] has_bit(bits, i) <==> i < n && features@[i as int] == TRUE,
            decreases FEATURE_COUNT - n,
        {
            let ghost before = bits;
            if features[n] == TRUE {
                bits = bits | (1u64 << (n as u64));
                proof {
                    assert forall|i: nat|
                        #[trigger] has_bit(bits, i) <==> i < n + 1 && features@[i as int] == TRUE by {
                        assert(has_bit(before, i) <==> i < n && features@[i as int] == TRUE);
                        if i < 64 {
                            lemma_set_bit(before, n as u64, i as u64);
                        }
                    }
                }
            } else {
                proof {
                    assert forall|i: nat|
                        #[trigger] has_bit(bits, i) <==> i < n + 1 && features@[i as int] == TRUE by {
                        assert(has_bit(before, i) <==> i < n && features@[i as int] == TRUE);
                    }
                }
            }
            n += 1;
        }
        PhysicalDeviceFeaturesFlags { bits }
    }
}

} // verus!
