//! Version 1.2 tracks: merging the decoded property values of a track (its scale,
//! rotation, translation, visibility and scale compensation) into one value per frame.
use vstd::prelude::*;
use crate::anim_data::UvTransform;
use crate::anim_data::error::Error;
use crate::float_bits::{F32_ONE_BITS, f32_bits_eq, f32_bits_equal};

verus! {

/// The kind of a version 1.2 track.
#[derive(Debug, Clone, Copy, PartialEq, Eq)]
pub enum TrackTypeV1 {
    Transform,
    UvTransform,
    Visibility,
}

/// A decoded version 1.2 property value, with floats as their bit patterns.
#[derive(Debug, Clone, PartialEq, Eq)]
pub enum V12Values {
    Uint(u16),
    Float(u32),
    Vec2([u32; 2]),
    Vec3(Vec<[u32; 3]>),
    Quat(Vec<[u32; 4]>),
}

/// A rotation of a version 1.2 transform: a quaternion, or Euler angles in radians that
/// stand for the quaternion of the same rotation.
#[derive(Debug, Clone, Copy, PartialEq, Eq)]
pub enum V12Rotation {
    Quaternion([u32; 4]),
    Euler([u32; 3]),
}

/// A version 1.2 transform for one frame.
#[derive(Debug, Clone, Copy, PartialEq, Eq)]
pub struct V12Transform {
    pub scale: [u32; 3],
    pub rotation: V12Rotation,
    pub translation: [u32; 3],
}

/// The values of a version 1.2 track, one for each frame.
#[derive(Debug, Clone, PartialEq, Eq)]
pub enum V12TrackValues {
    Transform(Vec<V12Transform>),
    UvTransform(Vec<UvTransform>),
    Boolean(Vec<bool>),
}

/// The property values collected from the properties of one track.
#[derive(Debug, Clone, PartialEq, Eq)]
pub struct V12PropertyData {
    pub scales: Vec<[u32; 3]>,
    pub rotations: Vec<V12Rotation>,
    pub translations: Vec<[u32; 3]>,
    pub visibilities: Vec<bool>,
    pub uv_transforms: Vec<UvTransform>,
}

/// The properties that a version 1.2 track can hold, by name.
#[derive(Debug, Clone, Copy, PartialEq, Eq)]
pub enum V12PropertyKind {
    CompensateScale,
    Scale,
    Rotate,
    Translate,
    Visibility,
    Other,
}

/// The kind of the property with the given name.
pub open spec fn v12_property_kind_of(name: Seq<char>) -> V12PropertyKind {
    if name == "CompensateScale"@ {
        V12PropertyKind::CompensateScale
    } else if name == "Scale"@ {
        V12PropertyKind::Scale
    } else if name == "Rotate"@ {
        V12PropertyKind::Rotate
    } else if name == "Translate"@ {
        V12PropertyKind::Translate
    } else if name == "Visibility"@ {
        V12PropertyKind::Visibility
    } else {
        V12PropertyKind::Other
    }
}

/// The kind of the property with the given name.
pub fn v12_property_kind(name: &str) -> (r: V12PropertyKind)
    ensures
        r == v12_property_kind_of(name@),
{
    let name: String = name.to_owned();
    if name == "CompensateScale".to_owned() {
        V12PropertyKind::CompensateScale
    } else if name == "Scale".to_owned() {
        V12PropertyKind::Scale
    } else if name == "Rotate".to_owned() {
        V12PropertyKind::Rotate
    } else if name == "Translate".to_owned() {
        V12PropertyKind::Translate
    } else if name == "Visibility".to_owned() {
        V12PropertyKind::Visibility
    } else {
        V12PropertyKind::Other
    }
}


/// Each vector as Euler angles.
pub open spec fn euler_rotations(values: Seq<[u32; 3]>) -> Seq<V12Rotation> {
    Seq::new(values.len(), |i: int| V12Rotation::Euler(values[i]))
}

/// Each vector as a quaternion.
pub open spec fn quaternion_rotations(values: Seq<[u32; 4]>) -> Seq<V12Rotation> {
    Seq::new(values.len(), |i: int| V12Rotation::Quaternion(values[i]))
}

/// A scale of one on each axis.
pub open spec fn unit_scale() -> [u32; 3] {
    [F32_ONE_BITS, F32_ONE_BITS, F32_ONE_BITS]
}

/// The rotation that rotates nothing.
pub open spec fn identity_rotation() -> V12Rotation {
    V12Rotation::Quaternion([0u32, 0u32, 0u32, F32_ONE_BITS])
}

/// `value` merged into the collected property values and the scale compensation, by the
/// kind of its property: a compensation that is a nonzero integer or float; scales,
/// rotations (Euler angles or quaternions) and translations appended, or a single
/// default value when the property holds another kind of value; a visibility that is a
/// nonzero integer, or visible for another kind of value. Other properties are ignored.
pub open spec fn property_added(
    compensate_scale: bool,
    data: V12PropertyData,
    kind: V12PropertyKind,
    value: V12Values,
    new_compensate_scale: bool,
    new_data: V12PropertyData,
) -> bool {
    &&& new_compensate_scale == (match (kind, value) {
        (V12PropertyKind::CompensateScale, V12Values::Uint(v)) => v != 0,
        (V12PropertyKind::CompensateScale, V12Values::Float(f)) => !f32_bits_eq(f, 0),
        _ => compensate_scale,
    })
    &&& new_data.scales@ == (match (kind, value) {
        (V12PropertyKind::Scale, V12Values::Vec3(v)) => data.scales@ + v@,
        (V12PropertyKind::Scale, _) => data.scales@.push(unit_scale()),
        _ => data.scales@,
    })
    &&& new_data.rotations@ == (match (kind, value) {
        (V12PropertyKind::Rotate, V12Values::Vec3(v)) => data.rotations@ + euler_rotations(v@),
        (V12PropertyKind::Rotate, V12Values::Quat(v)) => data.rotations@ + quaternion_rotations(v@),
        (V12PropertyKind::Rotate, _) => data.rotations@.push(identity_rotation()),
        _ => data.rotations@,
    })
    &&& new_data.translations@ == (match (kind, value) {
        (V12PropertyKind::Translate, V12Values::Vec3(v)) => data.translations@ + v@,
        (V12PropertyKind::Translate, _) => data.translations@.push([0u32, 0u32, 0u32]),
        _ => data.translations@,
    })
    &&& new_data.visibilities@ == (match (kind, value) {
        (V12PropertyKind::Visibility, V12Values::Uint(v)) => data.visibilities@.push(v != 0),
        (V12PropertyKind::Visibility, _) => data.visibilities@.push(true),
        _ => data.visibilities@,
    })
    &&& new_data.uv_transforms@ == data.uv_transforms@
}


/// The position of a property's buffer among the animation's `buffer_count` buffers.
/// Fails when the property's buffer index refers to no buffer.
pub fn property_buffer_index(buffer_index: u64, buffer_count: usize) -> (r: Result<usize, Error>)
    ensures
        buffer_index < buffer_count ==> (r matches Ok(i) && i == buffer_index),
        buffer_index >= buffer_count ==> (r matches Err(Error::BufferIndexOutOfRange { buffer_index: i, buffer_count: n })
            && i == buffer_index as usize && n == buffer_count),
{
    if buffer_index < buffer_count as u64 {
        Ok(buffer_index as usize)
    } else {
        Err(Error::BufferIndexOutOfRange { buffer_index: buffer_index as usize, buffer_count })
    }
}

/// Merges the decoded value of the property named `property_name` into the collected
/// values of its track, as [`property_added`] describes.
pub fn add_property(compensate_scale: &mut bool, property_data: &mut V12PropertyData, property_name: &str, value: V12Values)
    ensures
        property_added(*old(compensate_scale), *old(property_data), v12_property_kind_of(property_name@), value,
            *final(compensate_scale), *final(property_data)),
{
    let kind = v12_property_kind(property_name);
    match kind {
        V12PropertyKind::CompensateScale => match value {
            V12Values::Uint(v) => {
                *compensate_scale = v != 0;
            },
            V12Values::Float(f) => {
                *compensate_scale = !f32_bits_equal(f, 0);
            },
            _ => {},
        },
        V12PropertyKind::Scale => match value {
            V12Values::Vec3(v) => {
                let mut v = v;
                property_data.scales.append(&mut v);
            },
            _ => {
                property_data.scales.push([F32_ONE_BITS, F32_ONE_BITS, F32_ONE_BITS]);
            },
        },
        V12PropertyKind::Rotate => match value {
            V12Values::Vec3(v) => {
                let ghost start = property_data.rotations@;
                let mut i: usize = 0;
                while i < v.len()
                    invariant
                        i <= v@.len(),
                        property_data.rotations@ == start + euler_rotations(v@.take(i as int)),
                        property_data.scales@ == old(property_data).scales@,
                        property_data.translations@ == old(property_data).translations@,
                        property_data.visibilities@ == old(property_data).visibilities@,
                        property_data.uv_transforms@ == old(property_data).uv_transforms@,
                        start == old(property_data).rotations@,
                    decreases v@.len() - i,
                {
                    property_data.rotations.push(V12Rotation::Euler(v[i]));
                    i = i + 1;
                    proof {
                        assert(euler_rotations(v@.take(i as int)) =~= euler_rotations(v@.take(i - 1)).push(V12Rotation::Euler(v@[i - 1])));
                    }
                }
                proof {
                    assert(v@.take(v@.len() as int) =~= v@);
                }
            },
            V12Values::Quat(v) => {
                let ghost start = property_data.rotations@;
                let mut i: usize = 0;
                while i < v.len()
                    invariant
                        i <= v@.len(),
                        property_data.rotations@ == start + quaternion_rotations(v@.take(i as int)),
                        property_data.scales@ == old(property_data).scales@,
                        property_data.translations@ == old(property_data).translations@,
                        property_data.visibilities@ == old(property_data).visibilities@,
                        property_data.uv_transforms@ == old(property_data).uv_transforms@,
                        start == old(property_data).rotations@,
                    decreases v@.len() - i,
                {
                    property_data.rotations.push(V12Rotation::Quaternion(v[i]));
                    i = i + 1;
                    proof {
                        assert(quaternion_rotations(v@.take(i as int)) =~= quaternion_rotations(v@.take(i - 1)).push(V12Rotation::Quaternion(v@[i - 1])));
                    }
                }
                proof {
                    assert(v@.take(v@.len() as int) =~= v@);
                }
            },
            _ => {
                property_data.rotations.push(V12Rotation::Quaternion([0, 0, 0, F32_ONE_BITS]));
            },
        },
        V12PropertyKind::Translate => match value {
            V12Values::Vec3(v) => {
                let mut v = v;
                property_data.translations.append(&mut v);
            },
            _ => {
                property_data.translations.push([0, 0, 0]);
            },
        },
        V12PropertyKind::Visibility => match value {
            V12Values::Uint(v) => {
                property_data.visibilities.push(v != 0);
            },
            _ => {
                property_data.visibilities.push(true);
            },
        },
        V12PropertyKind::Other => {},
    }
}

/// The value of frame `i`: the value of that frame, else the last value, else `default`
/// when there are no values.
pub open spec fn frame_value<T>(values: Seq<T>, i: int, default: T) -> T {
    if i < values.len() {
        values[i]
    } else if values.len() > 0 {
        values.last()
    } else {
        default
    }
}

/// The transform that changes nothing.
pub open spec fn identity_transform() -> V12Transform {
    V12Transform { scale: unit_scale(), rotation: identity_rotation(), translation: [0u32, 0u32, 0u32] }
}

/// The texture transform that changes nothing.
pub open spec fn identity_uv_transform() -> UvTransform {
    UvTransform { scale_u: F32_ONE_BITS, scale_v: F32_ONE_BITS, rotation: 0, translate_u: 0, translate_v: 0 }
}

/// The value of frame `i` among `values`, as [`frame_value`] describes it.
fn value_for_frame<T: Copy>(values: &Vec<T>, i: usize, default: T) -> (r: T)
    ensures
        r == frame_value(values@, i as int, default),
{
    if i < values.len() {
        values[i]
    } else if values.len() > 0 {
        values[values.len() - 1]
    } else {
        default
    }
}

/// The values of a track of `track_type` for an animation of `frame_count` frames, from
/// the collected property values: for transforms, each frame's scale, rotation and
/// translation, the last value standing for later frames and identity for absent ones,
/// and a single identity transform when there are no frames; the collected visibilities
/// or texture transforms, or a single visible frame or identity transform when none were
/// collected.
pub fn v12_track_values(track_type: TrackTypeV1, data: V12PropertyData, frame_count: usize) -> (r: V12TrackValues)
    ensures
        track_type == TrackTypeV1::Transform ==> (r matches V12TrackValues::Transform(t) && t@ == (if frame_count == 0 {
            seq![identity_transform()]
        } else {
            Seq::new(frame_count as nat, |i: int| V12Transform {
                scale: frame_value(data.scales@, i, unit_scale()),
                rotation: frame_value(data.rotations@, i, identity_rotation()),
                translation: frame_value(data.translations@, i, [0u32, 0u32, 0u32]),
            })
        })),
        track_type == TrackTypeV1::Visibility ==> (r matches V12TrackValues::Boolean(v)
            && v@ == (if data.visibilities@.len() == 0 { seq![true] } else { data.visibilities@ })),
        track_type == TrackTypeV1::UvTransform ==> (r matches V12TrackValues::UvTransform(v)
            && v@ == (if data.uv_transforms@.len() == 0 { seq![identity_uv_transform()] } else { data.uv_transforms@ })),
{
    match track_type {
        TrackTypeV1::Transform => {
            let mut transforms: Vec<V12Transform> = Vec::new();
            let mut i: usize = 0;
            while i < frame_count
                invariant
                    i <= frame_count,
                    transforms@ =~= Seq::new(i as nat, |k: int| V12Transform {
                        scale: frame_value(data.scales@, k, unit_scale()),
                        rotation: frame_value(data.rotations@, k, identity_rotation()),
                        translation: frame_value(data.translations@, k, [0u32, 0u32, 0u32]),
                    }),
                decreases frame_count - i,
            {
                let scale = value_for_frame(&data.scales, i, [F32_ONE_BITS, F32_ONE_BITS, F32_ONE_BITS]);
                let rotation = value_for_frame(&data.rotations, i, V12Rotation::Quaternion([0, 0, 0, F32_ONE_BITS]));
                let translation = value_for_frame(&data.translations, i, [0, 0, 0]);
                transforms.push(V12Transform { scale, rotation, translation });
                i = i + 1;
            }
            if transforms.len() == 0 {
                transforms.push(V12Transform {
                    scale: [F32_ONE_BITS, F32_ONE_BITS, F32_ONE_BITS],
                    rotation: V12Rotation::Quaternion([0, 0, 0, F32_ONE_BITS]),
                    translation: [0, 0, 0],
                });
                proof {
                    assert(transforms@ =~= seq![identity_transform()]);
                }
            }
            V12TrackValues::Transform(transforms)
        },
        TrackTypeV1::Visibility => {
            if data.visibilities.len() == 0 {
                V12TrackValues::Boolean(vec![true])
            } else {
                V12TrackValues::Boolean(data.visibilities)
            }
        },
        TrackTypeV1::UvTransform => {
            if data.uv_transforms.len() == 0 {
                V12TrackValues::UvTransform(vec![UvTransform {
                    scale_u: F32_ONE_BITS,
                    scale_v: F32_ONE_BITS,
                    rotation: 0,
                    translate_u: 0,
                    translate_v: 0,
                }])
            } else {
                V12TrackValues::UvTransform(data.uv_transforms)
            }
        },
    }
}

} // verus!

