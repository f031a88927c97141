use ssbh_data::anim_data::v1::properties::{
    add_property, property_buffer_index, v12_property_kind, v12_track_values, TrackTypeV1, V12PropertyData, V12PropertyKind, V12Rotation,
    V12TrackValues, V12Transform, V12Values,
};
use ssbh_data::anim_data::error::Error;
use ssbh_data::anim_data::UvTransform;

const ONE: u32 = 0x3f80_0000;

fn empty_data() -> V12PropertyData {
    V12PropertyData {
        scales: Vec::new(),
        rotations: Vec::new(),
        translations: Vec::new(),
        visibilities: Vec::new(),
        uv_transforms: Vec::new(),
    }
}

#[test]
fn property_kinds_by_name() {
    assert_eq!(V12PropertyKind::CompensateScale, v12_property_kind("CompensateScale"));
    assert_eq!(V12PropertyKind::Scale, v12_property_kind("Scale"));
    assert_eq!(V12PropertyKind::Rotate, v12_property_kind("Rotate"));
    assert_eq!(V12PropertyKind::Translate, v12_property_kind("Translate"));
    assert_eq!(V12PropertyKind::Visibility, v12_property_kind("Visibility"));
    assert_eq!(V12PropertyKind::Other, v12_property_kind("scale"));
    assert_eq!(V12PropertyKind::Other, v12_property_kind(""));
}

#[test]
fn add_property_merges_values() {
    let mut compensate_scale = false;
    let mut data = empty_data();
    add_property(&mut compensate_scale, &mut data, "CompensateScale", V12Values::Uint(0x7fff));
    assert!(compensate_scale);
    add_property(&mut compensate_scale, &mut data, "CompensateScale", V12Values::Float((-0.0f32).to_bits()));
    assert!(!compensate_scale);
    add_property(&mut compensate_scale, &mut data, "CompensateScale", V12Values::Float(f32::NAN.to_bits()));
    assert!(compensate_scale);
    add_property(&mut compensate_scale, &mut data, "CompensateScale", V12Values::Vec2([1, 2]));
    assert!(compensate_scale);

    add_property(&mut compensate_scale, &mut data, "Scale", V12Values::Vec3(vec![[1, 2, 3], [4, 5, 6]]));
    add_property(&mut compensate_scale, &mut data, "Scale", V12Values::Uint(1));
    assert_eq!(vec![[1, 2, 3], [4, 5, 6], [ONE; 3]], data.scales);

    add_property(&mut compensate_scale, &mut data, "Rotate", V12Values::Vec3(vec![[7, 8, 9]]));
    add_property(&mut compensate_scale, &mut data, "Rotate", V12Values::Quat(vec![[1, 2, 3, 4]]));
    add_property(&mut compensate_scale, &mut data, "Rotate", V12Values::Float(5));
    assert_eq!(
        vec![
            V12Rotation::Euler([7, 8, 9]),
            V12Rotation::Quaternion([1, 2, 3, 4]),
            V12Rotation::Quaternion([0, 0, 0, ONE]),
        ],
        data.rotations
    );

    add_property(&mut compensate_scale, &mut data, "Translate", V12Values::Quat(vec![[1, 2, 3, 4]]));
    add_property(&mut compensate_scale, &mut data, "Translate", V12Values::Vec3(vec![[3, 2, 1]]));
    assert_eq!(vec![[0, 0, 0], [3, 2, 1]], data.translations);

    add_property(&mut compensate_scale, &mut data, "Visibility", V12Values::Uint(0));
    add_property(&mut compensate_scale, &mut data, "Visibility", V12Values::Uint(2));
    add_property(&mut compensate_scale, &mut data, "Visibility", V12Values::Vec3(Vec::new()));
    assert_eq!(vec![false, true, true], data.visibilities);

    let before = data.clone();
    add_property(&mut compensate_scale, &mut data, "Unknown", V12Values::Uint(0));
    assert_eq!(before, data);
    assert!(compensate_scale);
}

#[test]
fn transform_track_repeats_last_values() {
    let mut data = empty_data();
    data.scales = vec![[2, 2, 2]];
    data.translations = vec![[1, 0, 0], [2, 0, 0]];
    let values = v12_track_values(TrackTypeV1::Transform, data, 3);
    let identity = V12Rotation::Quaternion([0, 0, 0, ONE]);
    assert_eq!(
        V12TrackValues::Transform(vec![
            V12Transform { scale: [2, 2, 2], rotation: identity, translation: [1, 0, 0] },
            V12Transform { scale: [2, 2, 2], rotation: identity, translation: [2, 0, 0] },
            V12Transform { scale: [2, 2, 2], rotation: identity, translation: [2, 0, 0] },
        ]),
        values
    );
}

#[test]
fn tracks_without_frames_or_properties_use_defaults() {
    let identity = V12Transform {
        scale: [ONE; 3],
        rotation: V12Rotation::Quaternion([0, 0, 0, ONE]),
        translation: [0; 3],
    };
    assert_eq!(
        V12TrackValues::Transform(vec![identity]),
        v12_track_values(TrackTypeV1::Transform, empty_data(), 0)
    );
    assert_eq!(V12TrackValues::Boolean(vec![true]), v12_track_values(TrackTypeV1::Visibility, empty_data(), 5));
    assert_eq!(
        V12TrackValues::UvTransform(vec![UvTransform {
            scale_u: ONE,
            scale_v: ONE,
            rotation: 0,
            translate_u: 0,
            translate_v: 0
        }]),
        v12_track_values(TrackTypeV1::UvTransform, empty_data(), 5)
    );
    let mut data = empty_data();
    data.visibilities = vec![false, true];
    assert_eq!(V12TrackValues::Boolean(vec![false, true]), v12_track_values(TrackTypeV1::Visibility, data, 5));
}

#[test]
fn property_buffer_index_in_range() {
    assert_eq!(2, property_buffer_index(2, 3).unwrap());
    assert!(matches!(
        property_buffer_index(3, 3),
        Err(Error::BufferIndexOutOfRange {
            buffer_index: 3,
            buffer_count: 3
        })
    ));
}
