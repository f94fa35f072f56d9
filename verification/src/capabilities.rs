//! What the shaders of a device may use, by what the device offers.
use vstd::prelude::*;

verus! {

/// The feature bit of a device that offers push constants.
pub const FEATURE_PUSH_CONSTANTS: u64 = 0x8_0000_0000;

/// The feature bit of a device that offers 64-bit floats in shaders.
pub const FEATURE_SHADER_F64: u64 = 0x4_0000_0000_0000;

/// The feature bit of a device that offers the primitive index in shaders.
pub const FEATURE_SHADER_PRIMITIVE_INDEX: u64 = 0x10_0000_0000_0000;

/// The feature bit of a device that offers non-uniform indexing of arrays
/// of sampled textures and storage buffers.
pub const FEATURE_SAMPLED_TEXTURE_AND_STORAGE_BUFFER_ARRAY_NON_UNIFORM_INDEXING: u64 = 0x4000_0000;

/// The feature bit of a device that offers non-uniform indexing of arrays
/// of uniform buffers and storage textures.
pub const FEATURE_UNIFORM_BUFFER_AND_STORAGE_TEXTURE_ARRAY_NON_UNIFORM_INDEXING: u64 = 0x8000_0000;

/// The capability bit of a shader that may use push constants.
pub const PUSH_CONSTANT: u32 = 0x1;

/// The capability bit of a shader that may use 64-bit floats.
pub const FLOAT64: u32 = 0x2;

/// The capability bit of a shader that may use the primitive index.
pub const PRIMITIVE_INDEX: u32 = 0x4;

/// The capability bit of a shader that may index arrays of sampled
/// textures and storage buffers non-uniformly.
pub const SAMPLED_TEXTURE_AND_STORAGE_BUFFER_ARRAY_NON_UNIFORM_INDEXING: u32 = 0x8;

/// The capability bit of a shader that may index arrays of uniform buffers
/// and storage textures non-uniformly.
pub const UNIFORM_BUFFER_AND_STORAGE_TEXTURE_ARRAY_NON_UNIFORM_INDEXING: u32 = 0x10;

/// The capability bit of a shader that may index arrays of samplers
/// non-uniformly.
pub const SAMPLER_NON_UNIFORM_INDEXING: u32 = 0x20;

/// `capability` where `features` hold all of `feature`, and nothing else.
pub open spec fn granted(features: u64, feature: u64, capability: u32) -> u32 {
    if features & feature == feature {
        capability
    } else {
        0
    }
}

/// The capabilities of the shaders of a device that offers `features`:
/// each capability goes with one feature, and non-uniform indexing of
/// samplers goes with that of sampled textures and storage buffers.
pub open spec fn capabilities_of(features: u64) -> u32 {
    granted(features, FEATURE_PUSH_CONSTANTS, PUSH_CONSTANT) | granted(
        features,
        FEATURE_SHADER_F64,
        FLOAT64,
    ) | granted(features, FEATURE_SHADER_PRIMITIVE_INDEX, PRIMITIVE_INDEX) | granted(
        features,
        FEATURE_SAMPLED_TEXTURE_AND_STORAGE_BUFFER_ARRAY_NON_UNIFORM_INDEXING,
        SAMPLED_TEXTURE_AND_STORAGE_BUFFER_ARRAY_NON_UNIFORM_INDEXING,
    ) | granted(
        features,
        FEATURE_SAMPLED_TEXTURE_AND_STORAGE_BUFFER_ARRAY_NON_UNIFORM_INDEXING,
        SAMPLER_NON_UNIFORM_INDEXING,
    ) | granted(
        features,
        FEATURE_UNIFORM_BUFFER_AND_STORAGE_TEXTURE_ARRAY_NON_UNIFORM_INDEXING,
        UNIFORM_BUFFER_AND_STORAGE_TEXTURE_ARRAY_NON_UNIFORM_INDEXING,
    )
}

/// Reads `wgpu::Features::PUSH_CONSTANTS`, which wgpu declares as bit 35,
/// and hands back its bits.
#[verifier::external_body]
fn feature_push_constants() -> (bits: u64)
    ensures
        bits == FEATURE_PUSH_CONSTANTS,
{
    wgpu::Features::PUSH_CONSTANTS.bits()
}

/// Reads `wgpu::Features::SHADER_F64`, which wgpu declares as bit 50, and
/// hands back its bits.
#[verifier::external_body]
fn feature_shader_f64() -> (bits: u64)
    ensures
        bits == FEATURE_SHADER_F64,
{
    wgpu::Features::SHADER_F64.bits()
}

/// Reads `wgpu::Features::SHADER_PRIMITIVE_INDEX`, which wgpu declares as
/// bit 52, and hands back its bits.
#[verifier::external_body]
fn feature_shader_primitive_index() -> (bits: u64)
    ensures
        bits == FEATURE_SHADER_PRIMITIVE_INDEX,
{
    wgpu::Features::SHADER_PRIMITIVE_INDEX.bits()
}

/// Reads
/// `wgpu::Features::SAMPLED_TEXTURE_AND_STORAGE_BUFFER_ARRAY_NON_UNIFORM_INDEXING`,
/// which wgpu declares as bit 30, and hands back its bits.
#[verifier::external_body]
fn feature_sampled_texture_indexing() -> (bits: u64)
    ensures
        bits == FEATURE_SAMPLED_TEXTURE_AND_STORAGE_BUFFER_ARRAY_NON_UNIFORM_INDEXING,
{
    wgpu::Features::SAMPLED_TEXTURE_AND_STORAGE_BUFFER_ARRAY_NON_UNIFORM_INDEXING.bits()
}

/// Reads
/// `wgpu::Features::UNIFORM_BUFFER_AND_STORAGE_TEXTURE_ARRAY_NON_UNIFORM_INDEXING`,
/// which wgpu declares as bit 31, and hands back its bits.
#[verifier::external_body]
fn feature_uniform_buffer_indexing() -> (bits: u64)
    ensures
        bits == FEATURE_UNIFORM_BUFFER_AND_STORAGE_TEXTURE_ARRAY_NON_UNIFORM_INDEXING,
{
    wgpu::Features::UNIFORM_BUFFER_AND_STORAGE_TEXTURE_ARRAY_NON_UNIFORM_INDEXING.bits()
}

/// Reads `naga::valid::Capabilities::PUSH_CONSTANT`, which naga declares as
/// `0x1`, and hands back its bits.
#[verifier::external_body]
fn capability_push_constant() -> (bits: u32)
    ensures
        bits == PUSH_CONSTANT,
{
    naga::valid::Capabilities::PUSH_CONSTANT.bits()
}

/// Reads `naga::valid::Capabilities::FLOAT64`, which naga declares as
/// `0x2`, and hands back its bits.
#[verifier::external_body]
fn capability_float64() -> (bits: u32)
    ensures
        bits == FLOAT64,
{
    naga::valid::Capabilities::FLOAT64.bits()
}

/// Reads `naga::valid::Capabilities::PRIMITIVE_INDEX`, which naga declares
/// as `0x4`, and hands back its bits.
#[verifier::external_body]
fn capability_primitive_index() -> (bits: u32)
    ensures
        bits == PRIMITIVE_INDEX,
{
    naga::valid::Capabilities::PRIMITIVE_INDEX.bits()
}

/// Reads
/// `naga::valid::Capabilities::SAMPLED_TEXTURE_AND_STORAGE_BUFFER_ARRAY_NON_UNIFORM_INDEXING`,
/// which naga declares as `0x8`, and hands back its bits.
#[verifier::external_body]
fn capability_sampled_texture_indexing() -> (bits: u32)
    ensures
        bits == SAMPLED_TEXTURE_AND_STORAGE_BUFFER_ARRAY_NON_UNIFORM_INDEXING,
{
    naga::valid::Capabilities::SAMPLED_TEXTURE_AND_STORAGE_BUFFER_ARRAY_NON_UNIFORM_INDEXING.bits()
}

/// Reads
/// `naga::valid::Capabilities::UNIFORM_BUFFER_AND_STORAGE_TEXTURE_ARRAY_NON_UNIFORM_INDEXING`,
/// which naga declares as `0x10`, and hands back its bits.
#[verifier::external_body]
fn capability_uniform_buffer_indexing() -> (bits: u32)
    ensures
        bits == UNIFORM_BUFFER_AND_STORAGE_TEXTURE_ARRAY_NON_UNIFORM_INDEXING,
{
    naga::valid::Capabilities::UNIFORM_BUFFER_AND_STORAGE_TEXTURE_ARRAY_NON_UNIFORM_INDEXING.bits()
}

/// Reads `naga::valid::Capabilities::SAMPLER_NON_UNIFORM_INDEXING`, which
/// naga declares as `0x20`, and hands back its bits.
#[verifier::external_body]
fn capability_sampler_indexing() -> (bits: u32)
    ensures
        bits == SAMPLER_NON_UNIFORM_INDEXING,
{
    naga::valid::Capabilities::SAMPLER_NON_UNIFORM_INDEXING.bits()
}

/// `capability` where `features` hold all of `feature`, and nothing else.
fn grant(features: u64, feature: u64, capability: u32) -> (bits: u32)
    ensures
        bits == granted(features, feature, capability),
{
    if features & feature == feature {
        capability
    } else {
        0
    }
}

/// The capabilities of the shaders of a device that offers `features`.
pub fn capabilities(features: u64) -> (capabilities: u32)
    ensures
        capabilities == capabilities_of(features),
{
    let push_constant = grant(features, feature_push_constants(), capability_push_constant());
    let float64 = grant(features, feature_shader_f64(), capability_float64());
    let primitive_index = grant(
        features,
        feature_shader_primitive_index(),
        capability_primitive_index(),
    );
    let textures = grant(
        features,
        feature_sampled_texture_indexing(),
        capability_sampled_texture_indexing(),
    );
    let samplers = grant(features, feature_sampled_texture_indexing(), capability_sampler_indexing());
    let uniforms = grant(
        features,
        feature_uniform_buffer_indexing(),
        capability_uniform_buffer_indexing(),
    );
    push_constant | float64 | primitive_index | textures | samplers | uniforms
}

} // verus!
