//! Assembly of a packed glTF scene from level and model geometry that has
//! already been parsed into plain values.
//!
//! Coordinates, texture coordinates and other real numbers are carried as the
//! IEEE-754 single-precision bit patterns of their values (`u32`), so the
//! assembly logic never computes with floating point: it orders, permutes and
//! serialises those patterns.
pub mod arena;
pub mod bsp;
pub mod convert;
pub mod coords;
pub mod document;
pub mod error;
pub mod gltf_builder;
pub mod materials;
pub mod names;
pub mod prop;
pub mod server;

use vstd::prelude::*;
use core::hash::{BuildHasher, Hash, Hasher};

verus! {

/// The bit pattern of 1.0.
pub const ONE: u32 = 0x3f80_0000;

/// Options of a conversion.
#[derive(Clone, Copy, Debug, PartialEq, Eq, Structural)]
pub struct ConvertOptions {
    /// Whether material textures are packed into the scene.
    pub textures: bool,
    /// Bit pattern of the factor by which textures are scaled before they are
    /// packed, in `(0, 1]`.
    pub texture_scale: u32,
}

/// Relies on `ahash::RandomState::with_seeds(1, 2, 3, 4)` hashing the flag and
/// the little-endian bytes of the scale. Nothing is stated of the value: the
/// hash that ahash computes depends on the CPU features it is built for.
#[verifier::external_body]
fn options_hash(textures: bool, texture_scale: u32) -> (r: u64) {
    let mut hasher = ahash::RandomState::with_seeds(1, 2, 3, 4).build_hasher();
    textures.hash(&mut hasher);
    texture_scale.to_le_bytes().hash(&mut hasher);
    hasher.finish()
}

impl ConvertOptions {
    /// A key that tells apart the outputs of different options, for caching.
    pub fn key(&self) -> u64 {
        options_hash(self.textures, self.texture_scale)
    }
}

impl Default for ConvertOptions {
    fn default() -> (r: ConvertOptions)
        ensures
            r.textures,
            r.texture_scale == ONE,
    {
        ConvertOptions { textures: default_enable(), texture_scale: default_scale() }
    }
}

/// Textures are packed unless asked otherwise.
pub fn default_enable() -> (r: bool)
    ensures
        r,
{
    true
}

/// Textures keep their size unless asked otherwise: the bit pattern of 1.0.
pub fn default_scale() -> (r: u32)
    ensures
        r == ONE,
{
    ONE
}

} // verus!
