use ssbh_data::anim_data::compression::{
    bit_mask, Boolean, CompressionFlags, F32Compression, ScaleType, TransformCompression, U32Compression,
    UncompressedTransform, UvTransformCompression, Vector3Compression, Vector4Compression, DEFAULT_F32_BIT_COUNT,
};
use ssbh_data::anim_data::{TrackTypeV2, TrackValues, Transform, TransformFlags, UvTransform};

fn transform_track(sx: f32, sy: f32, sz: f32) -> TrackValues {
    TrackValues::Transform(vec![Transform {
        scale: [sx.to_bits(), sy.to_bits(), sz.to_bits()],
        ..Default::default()
    }])
}

fn f32c(min: f32, max: f32, bit_count: u64) -> F32Compression {
    F32Compression {
        min: min.to_bits(),
        max: max.to_bits(),
        bit_count,
    }
}

#[test]
fn compression_bit_masks() {
    assert_eq!(0b1u64, bit_mask(1));
    assert_eq!(0b11u64, bit_mask(2));
    assert_eq!(0b111111111u64, bit_mask(9));
}

#[test]
fn anim_buffer_bit_masks() {
    assert_eq!(0b1u64, bit_mask(1));
    assert_eq!(0b11u64, bit_mask(2));
    assert_eq!(0b111111111u64, bit_mask(9));
}

#[test]
fn bit_mask_largest() {
    assert_eq!(u64::MAX >> 1, bit_mask(63));
    assert_eq!(0xFF_FFFF, bit_mask(DEFAULT_F32_BIT_COUNT));
}

#[test]
fn compression_flags_uniform_scale_no_inheritance() {
    assert_eq!(
        CompressionFlags::new()
            .with_scale_type(ScaleType::ScaleNoInheritance)
            .with_has_rotation(true)
            .with_has_translation(true),
        CompressionFlags::from_track(&transform_track(1.0, 1.0, 1.0), false)
    );
}

#[test]
fn compression_flags_scale_inheritance() {
    assert_eq!(
        CompressionFlags::new()
            .with_scale_type(ScaleType::Scale)
            .with_has_rotation(true)
            .with_has_translation(true),
        CompressionFlags::from_track(&transform_track(1.0, 2.0, 3.0), true)
    );
}

#[test]
fn compression_flags_no_scale_inheritance() {
    assert_eq!(
        CompressionFlags::new()
            .with_scale_type(ScaleType::ScaleNoInheritance)
            .with_has_rotation(true)
            .with_has_translation(true),
        CompressionFlags::from_track(&transform_track(1.0, 2.0, 3.0), false)
    );
}

#[test]
fn compression_flags_non_transform() {
    assert_eq!(
        CompressionFlags::new(),
        CompressionFlags::from_track(&TrackValues::Float(Vec::new()), true)
    );

    assert_eq!(
        CompressionFlags::new(),
        CompressionFlags::from_track(&TrackValues::Float(Vec::new()), false)
    );
}

#[test]
fn compression_flags_uv_transform() {
    assert_eq!(
        CompressionFlags::new()
            .with_scale_type(ScaleType::ScaleNoInheritance)
            .with_has_rotation(true)
            .with_has_translation(true),
        CompressionFlags::from_track(&TrackValues::UvTransform(vec![UvTransform::default()]), true)
    );
    for t in [
        TrackValues::PatternIndex(vec![1, 2]),
        TrackValues::Boolean(vec![true]),
        TrackValues::Vector4(Vec::new()),
    ] {
        assert_eq!(CompressionFlags::new(), CompressionFlags::from_track(&t, true));
    }
}

#[test]
fn track_values_len_and_type() {
    let values = TrackValues::Boolean(vec![true, false, true]);
    assert_eq!(3, values.len());
    assert!(!values.is_empty());
    assert_eq!(TrackTypeV2::Boolean, values.track_type());
    let empty = TrackValues::Transform(Vec::new());
    assert_eq!(0, empty.len());
    assert!(empty.is_empty());
    assert_eq!(TrackTypeV2::Transform, empty.track_type());
    assert_eq!(TrackTypeV2::UvTransform, TrackValues::UvTransform(vec![UvTransform::default(); 2]).track_type());
    assert_eq!(2, TrackValues::Vector4(vec![[0; 4]; 2]).len());
}

#[test]
fn compression_flags_bits_roundtrip() {
    for v in 0u16..16 {
        assert_eq!(v, CompressionFlags::from_bits(v).into_bits());
    }
    // Unused bits are dropped.
    assert_eq!(0xd, CompressionFlags::from_bits(0xfffd).into_bits());
    let flags = CompressionFlags::from_bits(0x6);
    assert_eq!(ScaleType::Scale, flags.scale_type);
    assert!(flags.has_rotation);
    assert!(!flags.has_translation);
    assert_eq!(
        0xb,
        CompressionFlags::new()
            .with_scale_type(ScaleType::UniformScale)
            .with_has_translation(true)
            .into_bits()
    );
}

#[test]
fn f32_bit_count_min_equals_max() {
    assert_eq!(0, f32c(0.0, 0.0, 16).bit_count(CompressionFlags::new()));
}

#[test]
fn f32_bit_count_zero_and_negative_zero_are_equal() {
    assert_eq!(0, f32c(-0.0, 0.0, 16).bit_count(CompressionFlags::new()));
    // NaN is never equal, so the bit count is used.
    assert_eq!(16, f32c(f32::NAN, f32::NAN, 16).bit_count(CompressionFlags::new()));
}

#[test]
fn f32_compression_from_range() {
    assert_eq!(f32c(1.0, 1.0, 0), F32Compression::from_range(1.0f32.to_bits(), 1.0f32.to_bits()));
    assert_eq!(f32c(1.0, 2.0, 24), F32Compression::from_range(1.0f32.to_bits(), 2.0f32.to_bits()));
    let v = Vector3Compression::from_range(
        [0.0f32.to_bits(), 1.0f32.to_bits(), 2.0f32.to_bits()],
        [0.0f32.to_bits(), 3.0f32.to_bits(), 2.0f32.to_bits()],
    );
    assert_eq!(24, v.bit_count(CompressionFlags::new()));
    let v = Vector4Compression::from_range(
        [0.0f32.to_bits(), 1.0f32.to_bits(), 2.0f32.to_bits(), 3.0f32.to_bits()],
        [1.0f32.to_bits(), 3.0f32.to_bits(), 2.0f32.to_bits(), 4.0f32.to_bits()],
    );
    assert_eq!(72, v.bit_count(CompressionFlags::new()));
}

#[test]
fn vector3_bit_count() {
    assert_eq!(
        24,
        Vector3Compression {
            x: f32c(0.0, 0.1, 8),
            y: f32c(0.0, 0.0, 5),
            z: f32c(-1.0, 2.0, 16),
        }
        .bit_count(CompressionFlags::new())
    );
}

#[test]
fn vector4_bit_count() {
    assert_eq!(
        26,
        Vector4Compression {
            x: f32c(0.0, 0.1, 8),
            y: f32c(0.0, 0.0, 5),
            z: f32c(-1.0, 2.0, 16),
            w: f32c(-1.2, -1.0, 2),
        }
        .bit_count(CompressionFlags::new())
    );
}

#[test]
fn uv_transform_bit_count() {
    assert_eq!(
        27,
        UvTransformCompression {
            scale_u: f32c(0.0, 0.1, 8),
            scale_v: f32c(0.0, 0.0, 5),
            rotation: f32c(-1.0, 2.0, 16),
            translate_u: f32c(-1.0, -1.0, 2),
            translate_v: f32c(-1.2, -1.0, 3),
        }
        .bit_count(CompressionFlags::new().with_scale_type(ScaleType::Scale))
    );
}

#[test]
fn uv_transform_bit_count_uniform_and_no_scale() {
    let compression = UvTransformCompression {
        scale_u: f32c(0.0, 0.0, 8),
        scale_v: f32c(0.0, 1.0, 5),
        rotation: f32c(-1.0, 2.0, 16),
        translate_u: f32c(-1.0, -1.0, 2),
        translate_v: f32c(-1.2, -1.0, 3),
    };
    // Uniform scale uses the raw bit count of u even when its range is a single value.
    assert_eq!(27, compression.bit_count(CompressionFlags::new().with_scale_type(ScaleType::UniformScale)));
    assert_eq!(19, compression.bit_count(CompressionFlags::new()));
}

fn transform_compression() -> TransformCompression {
    let compression = f32c(0.0, 1.0, 2);
    TransformCompression {
        scale: Vector3Compression {
            x: compression,
            y: compression,
            z: compression,
        },
        rotation: Vector3Compression {
            x: compression,
            y: compression,
            z: compression,
        },
        translation: Vector3Compression {
            x: compression,
            y: compression,
            z: compression,
        },
    }
}

#[test]
fn transform_bit_count_default_flags() {
    // Scale does not contribute to the bit count.
    assert_eq!(12, transform_compression().bit_count(CompressionFlags::new()));
}

#[test]
fn transform_bit_count_uniform_scale() {
    // Only the x component is used for uniform scale.
    assert_eq!(
        14,
        transform_compression().bit_count(CompressionFlags::new().with_scale_type(ScaleType::UniformScale))
    );
}

#[test]
fn transform_bit_count_scale() {
    // All components are used for scale.
    assert_eq!(18, transform_compression().bit_count(CompressionFlags::new().with_scale_type(ScaleType::Scale)));
}

#[test]
fn transform_bit_count_scale_rotation() {
    // Add 1 extra bit for the rotation.w sign.
    assert_eq!(
        19,
        transform_compression().bit_count(
            CompressionFlags::new()
                .with_scale_type(ScaleType::Scale)
                .with_has_rotation(true)
        )
    );
}

#[test]
fn transform_bit_count_uniform_scale_rotation() {
    assert_eq!(
        15,
        transform_compression().bit_count(
            CompressionFlags::new()
                .with_scale_type(ScaleType::UniformScale)
                .with_has_rotation(true)
        )
    );
}

#[test]
fn u32_compression_from_values() {
    let c = U32Compression::from_values(&[5, 2, 9, 4]);
    assert_eq!((2, 9, 24), (c.min, c.max, c.bit_count));
    let c = U32Compression::from_values(&[]);
    assert_eq!((0, 0, 24), (c.min, c.max, c.bit_count));
    assert_eq!(24, c.bit_count(CompressionFlags::new()));
}

#[test]
fn boolean_conversions() {
    assert_eq!(Boolean(1), Boolean::from_bool(true));
    assert_eq!(Boolean(0), Boolean::from_bool(false));
    assert!(Boolean(2).to_bool());
    assert!(!Boolean(0).to_bool());
}

#[test]
fn transform_flags_bits() {
    let flags = TransformFlags {
        override_translation: true,
        override_rotation: false,
        override_scale: true,
        override_compensate_scale: false,
    };
    assert_eq!(0b0101, flags.into_bits());
    assert_eq!(flags, TransformFlags::from_bits(0b0101));
    assert_eq!(flags, TransformFlags::from_bits(0xffff_fff5));
    assert_eq!(TransformFlags::default(), TransformFlags::from_bits(0));
    for v in 0u32..16 {
        assert_eq!(v, TransformFlags::from_bits(v).into_bits());
    }
}

#[test]
fn uncompressed_transform_from_transform() {
    let t = Transform {
        scale: [1.0f32.to_bits(), 2.0f32.to_bits(), 3.0f32.to_bits()],
        rotation: [0, 0, 0, 1.0f32.to_bits()],
        translation: [4, 5, 6],
    };
    let u = UncompressedTransform::from_transform(&t, true);
    assert_eq!(1, u.compensate_scale);
    assert_eq!(t.scale, u.scale);
    assert_eq!(0, UncompressedTransform::from_transform(&t, false).compensate_scale);
    assert_eq!(t, u.to_transform());
}
