use ssbh_data::anim_data::error::Error;
use ssbh_data::anim_data::v1::create::{
    anim_version, checked_final_frame_index, group_tracks_v12, group_type_v12, v12_constant_data, v12_track_name, v12_vector3_stream_data,
    v12_quaternion_stream_data, v12_track_type, v12_uint_data, v12_uv_stream_data, AnimVersion,
};
use ssbh_data::anim_data::v1::assemble::{
    assemble_tracks_v12, assemble_tracks_v12_uncompressed, V12FloatTests, V12Property, V12PropertyName,
};
use ssbh_data::anim_data::v1::properties::TrackTypeV1;
use ssbh_data::anim_data::{AnimData, GroupType, UvTransform};

fn le(words: &[u32]) -> Vec<u8> {
    words.iter().flat_map(|w| w.to_le_bytes()).collect()
}

#[test]
fn create_empty_anim_invalid_version() {
    let data = AnimData { major_version: 1, minor_version: 1, final_frame_index: 0.0f32.to_bits(), groups: Vec::new() };
    let result = anim_version(data.major_version, data.minor_version);
    assert!(matches!(result, Err(Error::UnsupportedVersion { major_version: 1, minor_version: 1 })));
}

#[test]
fn create_anim_negative_frame_index() {
    let data = AnimData { major_version: 2, minor_version: 1, final_frame_index: (-1.0f32).to_bits(), groups: Vec::new() };
    assert_eq!(AnimVersion::V21, anim_version(data.major_version, data.minor_version).unwrap());
    let result = checked_final_frame_index(data.final_frame_index);
    assert!(matches!(
        result,
        Err(Error::InvalidFinalFrameIndex { final_frame_index }) if f32::from_bits(final_frame_index) == -1.0
    ));
}

#[test]
fn final_frame_index_checks() {
    for ok in [0.0f32, -0.0, 1.5, f32::INFINITY, 1e-40] {
        assert_eq!(ok.to_bits(), checked_final_frame_index(ok.to_bits()).unwrap());
    }
    for bad in [-1.0f32, f32::NEG_INFINITY, f32::NAN, -1e-40] {
        assert!(matches!(checked_final_frame_index(bad.to_bits()), Err(Error::InvalidFinalFrameIndex { .. })));
    }
    assert_eq!(AnimVersion::V12, anim_version(1, 2).unwrap());
    assert_eq!(AnimVersion::V20, anim_version(2, 0).unwrap());
    assert!(matches!(anim_version(2, 2), Err(Error::UnsupportedVersion { major_version: 2, minor_version: 2 })));
}

#[test]
fn v12_track_types_of_groups() {
    assert_eq!(TrackTypeV1::Transform, v12_track_type(GroupType::Transform));
    assert_eq!(TrackTypeV1::Visibility, v12_track_type(GroupType::Visibility));
    assert_eq!(TrackTypeV1::UvTransform, v12_track_type(GroupType::Material));
    assert_eq!(TrackTypeV1::Transform, v12_track_type(GroupType::Camera));
}

#[test]
fn v12_property_formats() {
    let one = 1.0f32.to_bits();
    assert_eq!(le(&[0x3003, one, 2, 3]), v12_constant_data(0x3003, &[one, 2, 3]));
    assert_eq!(vec![0, 0, 0, 0], v12_constant_data(0, &[]));
    assert_eq!(vec![0x13, 0x10, 0, 0, 0xff, 0x7f], v12_uint_data(0x7fff));

    // A vector per frame after the 12-byte header.
    assert_eq!(le(&[0x3400, 3, one, 1, 2, 3, 4, 5, 6, 7, 8, 9]), v12_vector3_stream_data(&[[1, 2, 3], [4, 5, 6], [7, 8, 9]]));
    assert_eq!(le(&[0x3400, 0, one]), v12_vector3_stream_data(&[]));

    assert_eq!(le(&[0x4300, 2, one, 0, 1, 2, 3, 4, 5, 6, 7, 8]), v12_quaternion_stream_data(&[[1, 2, 3, 4], [5, 6, 7, 8]]));

    let uv = UvTransform { scale_u: 1, scale_v: 2, rotation: 3, translate_u: 4, translate_v: 5 };
    assert_eq!(le(&[0x5019, 2, 1, 2, 3, 4, 5, 1, 2, 3, 4, 5]), v12_uv_stream_data(&[uv, uv]));
}

#[test]
fn v12_tracks_grouped_by_kind() {
    let (types, members) = group_tracks_v12(&[TrackTypeV1::Visibility, TrackTypeV1::Transform, TrackTypeV1::Visibility, TrackTypeV1::UvTransform, TrackTypeV1::Transform]);
    assert_eq!(vec![GroupType::Visibility, GroupType::Transform, GroupType::Material], types);
    assert_eq!(vec![vec![0, 2], vec![1, 4], vec![3]], members);
    let (types, members) = group_tracks_v12(&[]);
    assert!(types.is_empty() && members.is_empty());
    assert_eq!(GroupType::Material, group_type_v12(TrackTypeV1::UvTransform));
    assert_eq!("UvTransform", v12_track_name(TrackTypeV1::UvTransform));
    assert_eq!("Transform", v12_track_name(TrackTypeV1::Transform));
    assert_eq!("Visibility", v12_track_name(TrackTypeV1::Visibility));
}

fn track(name: &str, compensate_scale: bool, values: ssbh_data::anim_data::TrackValues) -> ssbh_data::anim_data::TrackData {
    ssbh_data::anim_data::TrackData {
        name: name.to_string(),
        compensate_scale,
        transform_flags: ssbh_data::anim_data::TransformFlags::from_bits(0),
        values,
    }
}

fn sample_anim() -> AnimData {
    let one = 1.0f32.to_bits();
    let identity = ssbh_data::anim_data::Transform { scale: [one; 3], rotation: [0, 0, 0, one], translation: [0; 3] };
    let moved = ssbh_data::anim_data::Transform { translation: [one, 0, 0], ..identity };
    AnimData {
        major_version: 1,
        minor_version: 2,
        final_frame_index: one,
        groups: vec![
            ssbh_data::anim_data::GroupData {
                group_type: GroupType::Transform,
                nodes: vec![ssbh_data::anim_data::NodeData {
                    name: "Hip".to_string(),
                    tracks: vec![track("Transform", true, ssbh_data::anim_data::TrackValues::Transform(vec![identity, moved]))],
                }],
            },
            ssbh_data::anim_data::GroupData {
                group_type: GroupType::Material,
                nodes: vec![ssbh_data::anim_data::NodeData {
                    name: "Mat".to_string(),
                    tracks: vec![track("Uv", false, ssbh_data::anim_data::TrackValues::UvTransform(Vec::new()))],
                }],
            },
            ssbh_data::anim_data::GroupData {
                group_type: GroupType::Visibility,
                nodes: vec![ssbh_data::anim_data::NodeData {
                    name: "Eye".to_string(),
                    tracks: vec![track("Visibility", false, ssbh_data::anim_data::TrackValues::Boolean(vec![true]))],
                }],
            },
        ],
    }
}

fn sample_tests() -> Vec<V12FloatTests> {
    let one = 1.0f32.to_bits();
    let none = V12FloatTests { changed: [false; 3], constant: [false; 3], rotations: Vec::new(), uv_constant: false };
    vec![
        V12FloatTests { changed: [false, false, true], constant: [true, true, false], rotations: vec![[0, 0, 0, one]; 2], uv_constant: false },
        none.clone(),
        none,
    ]
}

#[test]
fn assemble_v12_tracks_compressed() {
    let one = 1.0f32.to_bits();
    let (tracks, buffers) = assemble_tracks_v12(&sample_anim(), &sample_tests()).unwrap();
    // The empty UV track has no properties and is left out.
    assert_eq!(tracks.len(), 2);
    assert_eq!(tracks[0].name, "Hip");
    assert_eq!(tracks[0].track_type, TrackTypeV1::Transform);
    let names: Vec<V12PropertyName> = tracks[0].properties.iter().map(|p| p.name).collect();
    assert_eq!(names, vec![V12PropertyName::Translate, V12PropertyName::CompensateScale, V12PropertyName::Visibility]);
    assert_eq!(tracks[1].name, "Eye");
    assert_eq!(tracks[1].properties, vec![V12Property { name: V12PropertyName::Visibility, buffer_index: 3 }]);
    let indices: Vec<usize> = tracks[0].properties.iter().map(|p| p.buffer_index).collect();
    assert_eq!(indices, vec![0, 1, 2]);
    assert_eq!(buffers[0], v12_vector3_stream_data(&[[0; 3], [one, 0, 0]]));
    assert_eq!(buffers[1], v12_uint_data(0x7FFF));
    assert_eq!(buffers[2], v12_uint_data(0x7FFF));
    assert_eq!(buffers[3], v12_uint_data(1));
    assert_eq!(buffers.len(), 4);
}

#[test]
fn assemble_v12_tracks_uncompressed() {
    let one = 1.0f32.to_bits();
    let (tracks, buffers) = assemble_tracks_v12_uncompressed(&sample_anim(), &sample_tests()).unwrap();
    // Every track is kept.
    assert_eq!(tracks.len(), 3);
    let names: Vec<V12PropertyName> = tracks[0].properties.iter().map(|p| p.name).collect();
    assert_eq!(
        names,
        vec![V12PropertyName::Scale, V12PropertyName::Rotate, V12PropertyName::Translate, V12PropertyName::CompensateScale]
    );
    assert!(tracks[1].properties.is_empty());
    assert_eq!(tracks[2].properties, vec![V12Property { name: V12PropertyName::Visibility, buffer_index: 4 }]);
    assert_eq!(buffers[0], v12_constant_data(0x3003, &[one; 3]));
    assert_eq!(buffers[1], v12_constant_data(0x4003, &[0, 0, 0, one]));
    assert_eq!(buffers[2], v12_vector3_stream_data(&[[0; 3], [one, 0, 0]]));
    assert_eq!(buffers[3], v12_constant_data(0x1003, &[one]));
}

#[test]
fn assemble_v12_tracks_negative_final_frame() {
    let mut data = sample_anim();
    data.final_frame_index = (-1.0f32).to_bits();
    assert!(matches!(assemble_tracks_v12(&data, &sample_tests()), Err(Error::InvalidFinalFrameIndex { .. })));
}
