//! The capabilities that go with the features of a device.
use bevy_easy_compute::capabilities::capabilities;
use naga::valid::Capabilities;
use wgpu::Features;

const PAIRS: &[(Features, Capabilities)] = &[
    (Features::PUSH_CONSTANTS, Capabilities::PUSH_CONSTANT),
    (Features::SHADER_F64, Capabilities::FLOAT64),
    (Features::SHADER_PRIMITIVE_INDEX, Capabilities::PRIMITIVE_INDEX),
    (
        Features::SAMPLED_TEXTURE_AND_STORAGE_BUFFER_ARRAY_NON_UNIFORM_INDEXING,
        Capabilities::SAMPLED_TEXTURE_AND_STORAGE_BUFFER_ARRAY_NON_UNIFORM_INDEXING,
    ),
    (
        Features::SAMPLED_TEXTURE_AND_STORAGE_BUFFER_ARRAY_NON_UNIFORM_INDEXING,
        Capabilities::SAMPLER_NON_UNIFORM_INDEXING,
    ),
    (
        Features::UNIFORM_BUFFER_AND_STORAGE_TEXTURE_ARRAY_NON_UNIFORM_INDEXING,
        Capabilities::UNIFORM_BUFFER_AND_STORAGE_TEXTURE_ARRAY_NON_UNIFORM_INDEXING,
    ),
];

/// The capabilities that the table gives a device with `features`.
fn by_the_table(features: Features) -> Capabilities {
    let mut capabilities = Capabilities::empty();
    for (feature, capability) in PAIRS {
        if features.contains(*feature) {
            capabilities |= *capability;
        }
    }
    capabilities
}

#[test]
fn a_device_without_features_has_no_capabilities() {
    assert_eq!(capabilities(0), 0);
    assert_eq!(capabilities(Features::empty().bits()), Capabilities::empty().bits());
}

#[test]
fn each_feature_brings_its_capability() {
    assert_eq!(capabilities(Features::PUSH_CONSTANTS.bits()), 0x1);
    assert_eq!(capabilities(Features::SHADER_F64.bits()), 0x2);
    assert_eq!(capabilities(Features::SHADER_PRIMITIVE_INDEX.bits()), 0x4);
    assert_eq!(
        capabilities(Features::SAMPLED_TEXTURE_AND_STORAGE_BUFFER_ARRAY_NON_UNIFORM_INDEXING.bits()),
        0x8 | 0x20
    );
    assert_eq!(
        capabilities(Features::UNIFORM_BUFFER_AND_STORAGE_TEXTURE_ARRAY_NON_UNIFORM_INDEXING.bits()),
        0x10
    );
    for (feature, _) in PAIRS {
        assert_eq!(capabilities(feature.bits()), by_the_table(*feature).bits());
    }
}

#[test]
fn features_add_up_and_others_bring_nothing() {
    assert_eq!(capabilities(Features::all().bits()), 0x3f);
    assert_eq!(capabilities(u64::MAX), 0x3f);
    assert_eq!(capabilities(Features::all().bits()), by_the_table(Features::all()).bits());
    let some = Features::PUSH_CONSTANTS | Features::SHADER_F64 | Features::TIMESTAMP_QUERY;
    assert_eq!(capabilities(some.bits()), (Capabilities::PUSH_CONSTANT | Capabilities::FLOAT64).bits());
    assert_eq!(capabilities(Features::TIMESTAMP_QUERY.bits()), 0);
    assert_eq!(capabilities(Features::SHADER_INT64.bits()), 0);
}
