use ssbh_data::anim_data::buffers::uncompressed::{read_uncompressed_track_values, write_uncompressed_track_values};
use ssbh_data::anim_data::error::Error;
use ssbh_data::anim_data::{TrackTypeV2, TrackValues, Transform, UvTransform};

fn bits3(v: [f32; 3]) -> [u32; 3] {
    [v[0].to_bits(), v[1].to_bits(), v[2].to_bits()]
}

fn bits4(v: [f32; 4]) -> [u32; 4] {
    [v[0].to_bits(), v[1].to_bits(), v[2].to_bits(), v[3].to_bits()]
}

fn transform(translation: [f32; 3], rotation: [f32; 4], scale: [f32; 3]) -> Transform {
    Transform {
        translation: bits3(translation),
        rotation: bits4(rotation),
        scale: bits3(scale),
    }
}

fn uv(scale_u: f32, scale_v: f32, rotation: f32, translate_u: f32, translate_v: f32) -> UvTransform {
    UvTransform {
        scale_u: scale_u.to_bits(),
        scale_v: scale_v.to_bits(),
        rotation: rotation.to_bits(),
        translate_u: translate_u.to_bits(),
        translate_v: translate_v.to_bits(),
    }
}

fn words(hex_words: &[u32]) -> Vec<u8> {
    hex_words.iter().flat_map(|w| w.to_be_bytes()).collect()
}

#[test]
fn buffers_read_constant_vector4_single_frame() {
    let data = words(&[0xcdcccc3e, 0x0000c03f, 0x0000803f, 0x0000803f]);
    let (values, compensate_scale) = read_uncompressed_track_values(&data, TrackTypeV2::Vector4, 1).unwrap();
    assert!(!compensate_scale);
    assert_eq!(TrackValues::Vector4(vec![bits4([0.4, 1.5, 1.0, 1.0])]), values);
}

#[test]
fn buffers_write_constant_vector4_single_frame() {
    let data = write_uncompressed_track_values(&TrackValues::Vector4(vec![bits4([0.4, 1.5, 1.0, 1.0])]), false);
    assert_eq!(words(&[0xcdcccc3e, 0x0000c03f, 0x0000803f, 0x0000803f]), data);
}

#[test]
fn buffers_read_constant_texture_single_frame() {
    let data = words(&[0x0000803f, 0x0000803f, 0, 0, 0]);
    let (values, compensate_scale) = read_uncompressed_track_values(&data, TrackTypeV2::UvTransform, 1).unwrap();
    assert!(!compensate_scale);
    assert_eq!(TrackValues::UvTransform(vec![uv(1.0, 1.0, 0.0, 0.0, 0.0)]), values);
}

#[test]
fn buffers_write_constant_texture_single_frame() {
    let data = write_uncompressed_track_values(&TrackValues::UvTransform(vec![uv(1.0, 1.0, 0.0, 0.0, 0.0)]), false);
    assert_eq!(words(&[0x0000803f, 0x0000803f, 0, 0, 0]), data);
}

#[test]
fn buffers_read_constant_pattern_index_single_frame() {
    let (values, compensate_scale) = read_uncompressed_track_values(&[1, 0, 0, 0], TrackTypeV2::PatternIndex, 1).unwrap();
    assert!(!compensate_scale);
    assert_eq!(values, TrackValues::PatternIndex(vec![1]));
}

#[test]
fn buffers_write_constant_pattern_index_single_frame() {
    let data = write_uncompressed_track_values(&TrackValues::PatternIndex(vec![1]), false);
    assert_eq!(data, vec![1, 0, 0, 0]);
}

#[test]
fn buffers_read_constant_float_single_frame() {
    let data = words(&[0xcdcccc3e]);
    let (values, compensate_scale) = read_uncompressed_track_values(&data, TrackTypeV2::Float, 1).unwrap();
    assert!(!compensate_scale);
    assert_eq!(values, TrackValues::Float(vec![0.4f32.to_bits()]));
}

#[test]
fn buffers_write_constant_float_single_frame() {
    let data = write_uncompressed_track_values(&TrackValues::Float(vec![0.4f32.to_bits()]), false);
    assert_eq!(data, words(&[0xcdcccc3e]));
}

#[test]
fn buffers_read_constant_boolean_single_frame_true() {
    let (values, compensate_scale) = read_uncompressed_track_values(&[1], TrackTypeV2::Boolean, 1).unwrap();
    assert!(!compensate_scale);
    assert_eq!(values, TrackValues::Boolean(vec![true]));
}

#[test]
fn buffers_write_constant_boolean_single_frame_true() {
    let data = write_uncompressed_track_values(&TrackValues::Boolean(vec![true]), false);
    assert_eq!(data, vec![1]);
}

#[test]
fn buffers_read_constant_boolean_single_frame_false() {
    let (values, compensate_scale) = read_uncompressed_track_values(&[0], TrackTypeV2::Boolean, 1).unwrap();
    assert!(!compensate_scale);
    assert_eq!(values, TrackValues::Boolean(vec![false]));
}

fn constant_transform_data() -> Vec<u8> {
    words(&[
        0x0000803f, 0x0000803f, 0x0000803f, // scale
        0x00000000, 0x00000000, 0x00000000, // rotation
        0x0000803f, 0xbea4c13f, 0x79906ebe, 0xf641bebe, // rotation w, translation
        0x01000000, // compensate scale
    ])
}

#[test]
fn buffers_read_constant_transform_single_frame() {
    let (values, compensate_scale) =
        read_uncompressed_track_values(&constant_transform_data(), TrackTypeV2::Transform, 1).unwrap();
    assert!(compensate_scale);
    assert_eq!(
        values,
        TrackValues::Transform(vec![transform(
            [1.51284, -0.232973, -0.371597],
            [0.0, 0.0, 0.0, 1.0],
            [1.0, 1.0, 1.0]
        )])
    );
}

#[test]
fn buffers_write_constant_transform_single_frame() {
    let data = write_uncompressed_track_values(
        &TrackValues::Transform(vec![transform(
            [1.51284, -0.232973, -0.371597],
            [0.0, 0.0, 0.0, 1.0],
            [1.0, 1.0, 1.0],
        )]),
        true,
    );
    assert_eq!(constant_transform_data(), data);
}

#[test]
fn buffers_read_direct_transform_multiple_frames() {
    let data = words(&[
        0x0000803f, 0x0000803f, 0x0000803f, 0x1dca203e, 0x437216bf, 0xa002cbbd, 0x5699493f, 0x9790e5c1,
        0x1f68a040, 0xf7affa40, 0x00000000, 0x0000803f, 0x0000803f, 0x0000803f, 0xc7d8093e, 0x336b19bf,
        0x5513e4bd, 0xe3fe473f, 0x6da703c2, 0xdfc3a840, 0xb8120b41, 0x00000000,
    ]);
    let (values, compensate_scale) = read_uncompressed_track_values(&data, TrackTypeV2::Transform, 2).unwrap();
    assert!(!compensate_scale);
    assert_eq!(
        TrackValues::Transform(vec![
            transform(
                [-28.6956, 5.01271, 7.83398],
                [0.157021, -0.587681, -0.0991261, 0.787496],
                [1.0, 1.0, 1.0]
            ),
            transform(
                [-32.9135, 5.27391, 8.69207],
                [0.134616, -0.599292, -0.111365, 0.781233],
                [1.0, 1.0, 1.0]
            ),
        ]),
        values
    );
}

#[test]
fn uncompressed_track_too_short() {
    assert!(matches!(
        read_uncompressed_track_values(&[0; 43], TrackTypeV2::Transform, 1),
        Err(Error::InvalidData)
    ));
    assert!(matches!(
        read_uncompressed_track_values(&[0; 7], TrackTypeV2::Float, 2),
        Err(Error::InvalidData)
    ));
    assert!(matches!(read_uncompressed_track_values(&[1, 1], TrackTypeV2::Boolean, 3), Err(Error::InvalidData)));
    let (values, compensate_scale) = read_uncompressed_track_values(&[], TrackTypeV2::Transform, 0).unwrap();
    assert_eq!(values, TrackValues::Transform(Vec::new()));
    assert!(!compensate_scale);
}

#[test]
fn uncompressed_track_roundtrip() {
    let tracks = vec![
        (TrackValues::Boolean(vec![true, false, true]), false),
        (TrackValues::PatternIndex(vec![0, 7, u32::MAX]), false),
        (TrackValues::Vector4(vec![[1, 2, 3, 4], [5, 6, 7, 8]]), false),
        (TrackValues::UvTransform(vec![uv(1.0, 2.0, 3.0, 4.0, 5.0)]), false),
        (TrackValues::Transform(vec![transform([1.0, 2.0, 3.0], [0.0, 0.0, 0.0, 1.0], [1.0; 3]); 3]), true),
        (TrackValues::Transform(vec![transform([1.0, 2.0, 3.0], [0.0, 0.0, 0.0, 1.0], [1.0; 3])]), false),
    ];
    for (values, compensate_scale) in tracks {
        let data = write_uncompressed_track_values(&values, compensate_scale);
        assert_eq!(data.len() as u64, values.len() as u64 * values.data_size_in_bytes());
        let (read_back, read_flag) = read_uncompressed_track_values(&data, values.track_type(), values.len()).unwrap();
        assert_eq!(values, read_back);
        assert_eq!(compensate_scale, read_flag);
    }
}

#[test]
fn boolean_bytes_other_than_one_read_as_true() {
    let (values, _) = read_uncompressed_track_values(&[0, 2, 255], TrackTypeV2::Boolean, 3).unwrap();
    assert_eq!(values, TrackValues::Boolean(vec![false, true, true]));
    assert_eq!(write_uncompressed_track_values(&values, true), vec![0, 1, 1]);
}
