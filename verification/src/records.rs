//! Plain-value records that mirror the GPU-resident data.
//!
//! Matrix and factor fields hold the raw bit patterns of 32-bit IEEE floats
//! (the layout the GPU consumes is bit-exact); the shading math that fills
//! them lives outside this core.

use vstd::prelude::*;

verus! {

/// Bit pattern of the 32-bit float 1.0.
pub const FLOAT_ONE_BITS: u32 = 0x3f80_0000;

/// A transform uniform: 4x4 float matrix, column major, 64 bytes, stored as
/// the bit patterns of its entries.
#[derive(Clone, Copy, Debug, PartialEq)]
pub struct TransformRecord {
    pub cols: [u32; 16],
}

impl TransformRecord {
    /// The identity matrix.
    pub fn identity() -> (r: Self)
        ensures
            r.cols@ =~= spec_identity_cols(),
    {
        let r = TransformRecord {
            cols: [
                FLOAT_ONE_BITS, 0, 0, 0,
                0, FLOAT_ONE_BITS, 0, 0,
                0, 0, FLOAT_ONE_BITS, 0,
                0, 0, 0, FLOAT_ONE_BITS,
            ],
        };
        proof {
            assert(r.cols@ =~= spec_identity_cols());
        }
        r
    }
}

/// Column-major bit pattern of the identity matrix.
pub open spec fn spec_identity_cols() -> Seq<u32> {
    Seq::new(16, |i: int| if i == 0 || i == 5 || i == 10 || i == 15 { FLOAT_ONE_BITS } else { 0u32 })
}

/// A normal-matrix uniform: the inverse-transpose of a node's transform,
/// stored as bit patterns; recomputed whole, never incrementally updated.
#[derive(Clone, Copy, Debug, PartialEq)]
pub struct NormalRecord {
    pub cols: [u32; 16],
}

/// Light kind: light rays with one direction and no position.
pub const LIGHT_DIRECTIONAL: u32 = 0;

/// Light kind: a point source; these get a debug cube in the batches.
pub const LIGHT_POINT: u32 = 1;

/// Light kind: a spot source with a cutoff angle.
pub const LIGHT_SPOT: u32 = 2;

/// A light uniform: color, cutoff and intensity as float bit patterns, and
/// the kind tag.
#[derive(Clone, Copy, Debug, PartialEq)]
pub struct LightRecord {
    pub color: [u32; 3],
    pub cutoff: u32,
    pub intensity: u32,
    pub kind: u32,
}

/// Slot index of a light inside the light store.
#[derive(Clone, Copy, Debug, PartialEq)]
pub struct LightId(pub usize);

/// One texture reference inside a material: which texture, which UV set,
/// which sampler.
#[derive(Clone, Copy, Debug, PartialEq)]
pub struct TextureSlot {
    pub texture_index: u32,
    pub uv_index: u32,
    pub sampler_index: u32,
}

impl Default for TextureSlot {
    /// The default slot points at texture 0, UV set 0, sampler 0.
    fn default() -> (r: Self)
        ensures
            r.texture_index == 0,
            r.uv_index == 0,
            r.sampler_index == 0,
    {
        TextureSlot { texture_index: 0, uv_index: 0, sampler_index: 0 }
    }
}

/// The five texture stages a material binds, in binding order.
#[derive(Clone, Copy, Debug, PartialEq)]
pub enum TextureInstanceSlot {
    BaseColor,
    MetallicRoughness,
    Normal,
    Occlusion,
    Emissive,
}

/// Number of texture stages a material binds.
pub const TEXTURE_SLOT_COUNT: u32 = 5;

/// Pixel layout of a stored texture.
#[derive(Clone, Copy, Debug, PartialEq)]
pub struct TextureFormat(pub usize);

impl TextureFormat {
    /// Four 8-bit channels.
    pub fn rgba8() -> (r: Self)
        ensures
            r.0 == 0,
    {
        TextureFormat(0)
    }

    /// Three 8-bit channels.
    pub fn rgb8() -> (r: Self)
        ensures
            r.0 == 1,
    {
        TextureFormat(1)
    }

    /// Two 8-bit channels.
    pub fn rg8() -> (r: Self)
        ensures
            r.0 == 2,
    {
        TextureFormat(2)
    }

    /// One 8-bit channel.
    pub fn r8() -> (r: Self)
        ensures
            r.0 == 3,
    {
        TextureFormat(3)
    }
}

/// Sampler settings: filter and address modes as small tags.
#[derive(Clone, Copy, Debug, PartialEq)]
pub struct Sampler {
    pub mag_filter: u8,
    pub min_filter: u8,
    pub mipmap_filter: u8,
    pub address_mode_u: u8,
    pub address_mode_v: u8,
}

impl Default for Sampler {
    /// Linear filtering, repeat addressing.
    fn default() -> (r: Self)
        ensures
            r.mag_filter == 1,
            r.min_filter == 1,
            r.mipmap_filter == 1,
            r.address_mode_u == 2,
            r.address_mode_v == 2,
    {
        Sampler {
            mag_filter: 1,
            min_filter: 1,
            mipmap_filter: 1,
            address_mode_u: 2,
            address_mode_v: 2,
        }
    }
}

/// A material as stored in an asset buffer: five optional texture slots and
/// the scalar factors as float bit patterns.
#[derive(Clone, Copy, Debug, PartialEq)]
pub struct MaterialRecord {
    pub base_color: Option<TextureSlot>,
    pub metallic_roughness: Option<TextureSlot>,
    pub normal: Option<TextureSlot>,
    pub occlusion: Option<TextureSlot>,
    pub emissive: Option<TextureSlot>,
    pub base_color_factor: [u32; 4],
    pub emissive_factor: [u32; 3],
    pub metallic_factor: u32,
    pub roughness_factor: u32,
    pub occlusion_strength: u32,
    pub normal_scale: u32,
    pub alpha_cutoff: u32,
    pub alpha_mode: u8,
    pub double_sided: u8,
}

/// A decoded high-dynamic-range image: RGBA pixel bytes and dimensions,
/// ready for upload as an environment map.
#[derive(Debug, PartialEq)]
pub struct HdrBuffer {
    pub pixels: Vec<u8>,
    pub width: u32,
    pub height: u32,
}

/// One resolved texture of a material: the byte range of its pixels inside
/// an asset buffer's texture payload, its format and dimensions, which UV
/// set it samples with, and how it is sampled.
#[derive(Clone, Copy, Debug, PartialEq)]
pub struct TextureView {
    pub texture_offset: usize,
    pub texture_size: usize,
    pub format: TextureFormat,
    pub width: u32,
    pub height: u32,
    pub uv_index: u32,
    pub sampler: Sampler,
    pub is_srgb: bool,
}

/// The environment cube map built from an HDR buffer, as the scene tracks
/// it: the side length of the cube faces.
#[derive(Clone, Copy, Debug, PartialEq)]
pub struct EnvironmentMap {
    pub size: u32,
}

/// The camera state the render side holds: position and the view and
/// projection matrices, as float bit patterns.
#[derive(Clone, Copy, Debug, PartialEq)]
pub struct CameraRecord {
    pub position: [u32; 3],
    pub view: [u32; 16],
    pub projection: [u32; 16],
}

/// A surface configuration: the size the swap chain is built at.
#[derive(Clone, Copy, Debug, PartialEq)]
pub struct SurfaceConfig {
    pub width: u32,
    pub height: u32,
}

} // verus!
