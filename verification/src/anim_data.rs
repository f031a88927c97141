//! Animation data: bit streams, compression parameters and version 1.2 buffers.
pub mod bitutils;
pub mod buffers;
pub mod compression;
pub mod error;
pub mod v1;
use vstd::prelude::*;

verus! {

/// The kind of values stored in a version 2.0 or later animation track.
#[derive(Debug, Clone, Copy, PartialEq, Eq)]
pub enum TrackTypeV2 {
    Transform,
    UvTransform,
    Float,
    PatternIndex,
    Boolean,
    Vector4,
}

/// The usage of the nodes of an animation group.
#[derive(Debug, Clone, Copy, PartialEq, Eq, Structural, Hash)]
pub enum GroupType {
    Transform,
    Visibility,
    Material,
    Camera,
}

/// An animation: its version, the index of its last frame as an `f32` bit pattern, and its
/// groups. The animation lasts for `final_frame_index + 1` frames.
#[derive(Debug, Clone, PartialEq)]
pub struct AnimData {
    pub major_version: u16,
    pub minor_version: u16,
    pub final_frame_index: u32,
    pub groups: Vec<GroupData>,
}

/// A group of animated nodes of one usage.
#[derive(Debug, Clone, PartialEq)]
pub struct GroupData {
    pub group_type: GroupType,
    pub nodes: Vec<NodeData>,
}

/// An animated node, such as a bone or a material, and its tracks.
#[derive(Debug, Clone, PartialEq)]
pub struct NodeData {
    pub name: String,
    pub tracks: Vec<TrackData>,
}

/// A track: the name of the animated property, whether a transform reverts its parent's
/// scaling, the flags that override parts of a transform, and a value for each frame. A
/// single value stands for every frame of the animation.
#[derive(Debug, Clone, PartialEq)]
pub struct TrackData {
    pub name: String,
    pub compensate_scale: bool,
    pub transform_flags: TransformFlags,
    pub values: TrackValues,
}

/// Flags that override parts of an animated transform with the skeleton's resting pose.
/// Stored as 32 bits: the overrides of translation, rotation, scale and scale compensation
/// in bits 0 to 3, and 28 unused bits.
#[derive(Debug, Clone, Copy, PartialEq, Eq, Default)]
pub struct TransformFlags {
    pub override_translation: bool,
    pub override_rotation: bool,
    pub override_scale: bool,
    pub override_compensate_scale: bool,
}

/// The 32-bit representation of the flags.
pub open spec fn transform_flags_bits(f: TransformFlags) -> u32 {
    ((if f.override_translation { 1u32 } else { 0u32 }) + (if f.override_rotation { 2u32 } else { 0u32 })
        + (if f.override_scale { 4u32 } else { 0u32 }) + (if f.override_compensate_scale { 8u32 } else { 0u32 })) as u32
}

/// The flags stored in the 32-bit value `v`; unused bits are ignored.
pub open spec fn transform_flags_from_bits(v: u32) -> TransformFlags {
    TransformFlags {
        override_translation: v % 2 == 1,
        override_rotation: (v / 2) % 2 == 1,
        override_scale: (v / 4) % 2 == 1,
        override_compensate_scale: (v / 8) % 2 == 1,
    }
}

impl TransformFlags {
    /// Reads the flags from their 32-bit representation.
    pub fn from_bits(v: u32) -> (r: Self)
        ensures
            r == transform_flags_from_bits(v),
            r.override_translation == (v % 2 == 1),
            r.override_rotation == ((v / 2) % 2 == 1),
            r.override_scale == ((v / 4) % 2 == 1),
            r.override_compensate_scale == ((v / 8) % 2 == 1),
    {
        TransformFlags {
            override_translation: v % 2 == 1,
            override_rotation: (v / 2) % 2 == 1,
            override_scale: (v / 4) % 2 == 1,
            override_compensate_scale: (v / 8) % 2 == 1,
        }
    }

    /// The 32-bit representation of the flags, with the unused bits cleared.
    pub fn into_bits(&self) -> (r: u32)
        ensures
            r == transform_flags_bits(*self),
            r < 16,
            (r % 2 == 1) == self.override_translation,
            ((r / 2) % 2 == 1) == self.override_rotation,
            ((r / 4) % 2 == 1) == self.override_scale,
            ((r / 8) % 2 == 1) == self.override_compensate_scale,
    {
        proof {
            lemma_transform_flags_bit_positions(0, *self);
        }
        (if self.override_translation { 1u32 } else { 0u32 }) + (if self.override_rotation { 2u32 } else { 0u32 })
            + (if self.override_scale { 4u32 } else { 0u32 }) + (if self.override_compensate_scale { 8u32 } else { 0u32 })
    }
}

/// Each flag has its own bit of the 32-bit representation, as the file's flags do: bit 0
/// overrides the translation, bit 1 the rotation, bit 2 the scale and bit 3 the compensate
/// scale setting. Reading takes each flag from its bit; writing sets exactly the bits of the
/// flags that are set.
pub proof fn lemma_transform_flags_bit_positions(v: u32, f: TransformFlags)
    ensures
        transform_flags_from_bits(v).override_translation == (v % 2 == 1),
        transform_flags_from_bits(v).override_rotation == ((v / 2) % 2 == 1),
        transform_flags_from_bits(v).override_scale == ((v / 4) % 2 == 1),
        transform_flags_from_bits(v).override_compensate_scale == ((v / 8) % 2 == 1),
        transform_flags_bits(f) < 16,
        (transform_flags_bits(f) % 2 == 1) == f.override_translation,
        ((transform_flags_bits(f) / 2) % 2 == 1) == f.override_rotation,
        ((transform_flags_bits(f) / 4) % 2 == 1) == f.override_scale,
        ((transform_flags_bits(f) / 8) % 2 == 1) == f.override_compensate_scale,
{
}

/// Reading back the 32-bit representation of flags gives the same flags.
pub proof fn lemma_transform_flags_roundtrip(f: TransformFlags)
    ensures
        transform_flags_from_bits(transform_flags_bits(f)) == f,
{
}

/// Writing flags read from a 32-bit value gives the value with its unused bits cleared.
pub proof fn lemma_transform_flags_bits_roundtrip(v: u32)
    ensures
        transform_flags_bits(transform_flags_from_bits(v)) == v % 16,
{
}


/// A decomposed 2D transformation for texture coordinates.
/// Each value is carried as its `f32` bit pattern.
#[derive(Debug, Clone, Copy, PartialEq, Eq, Default)]
pub struct UvTransform {
    pub scale_u: u32,
    pub scale_v: u32,
    pub rotation: u32,
    pub translate_u: u32,
    pub translate_v: u32,
}

/// A decomposed 3D transformation consisting of a scale, a rotation quaternion and a
/// translation. Each component is carried as its `f32` bit pattern.
#[derive(Debug, Clone, Copy, PartialEq, Eq, Default)]
pub struct Transform {
    pub scale: [u32; 3],
    pub rotation: [u32; 4],
    pub translation: [u32; 3],
}

/// A value collection with an element for each frame of the animation.
#[derive(Debug, Clone, PartialEq)]
pub enum TrackValues {
    /// Transformations used for camera or skeletal animations.
    Transform(Vec<Transform>),
    /// Transformations applied to UV coordinates for texture animations.
    UvTransform(Vec<UvTransform>),
    /// Animated scalar parameter values, as `f32` bit patterns.
    Float(Vec<u32>),
    /// Animated pattern indices.
    PatternIndex(Vec<u32>),
    /// Visibility animations or animated boolean parameters.
    Boolean(Vec<bool>),
    /// Material animations or animated vector parameters, as `f32` bit patterns.
    Vector4(Vec<[u32; 4]>),
}

impl TrackValues {
    /// The number of elements, one for each frame.
    pub open spec fn spec_len(&self) -> nat {
        match self {
            TrackValues::Transform(v) => v@.len(),
            TrackValues::UvTransform(v) => v@.len(),
            TrackValues::Float(v) => v@.len(),
            TrackValues::PatternIndex(v) => v@.len(),
            TrackValues::Boolean(v) => v@.len(),
            TrackValues::Vector4(v) => v@.len(),
        }
    }

    /// The kind of values.
    pub open spec fn spec_track_type(&self) -> TrackTypeV2 {
        match self {
            TrackValues::Transform(_) => TrackTypeV2::Transform,
            TrackValues::UvTransform(_) => TrackTypeV2::UvTransform,
            TrackValues::Float(_) => TrackTypeV2::Float,
            TrackValues::PatternIndex(_) => TrackTypeV2::PatternIndex,
            TrackValues::Boolean(_) => TrackTypeV2::Boolean,
            TrackValues::Vector4(_) => TrackTypeV2::Vector4,
        }
    }

    /// Returns the number of elements, which is equivalent to the number of frames.
    pub fn len(&self) -> (r: usize)
        ensures
            r == self.spec_len(),
    {
        match self {
            TrackValues::Transform(v) => v.len(),
            TrackValues::UvTransform(v) => v.len(),
            TrackValues::Float(v) => v.len(),
            TrackValues::PatternIndex(v) => v.len(),
            TrackValues::Boolean(v) => v.len(),
            TrackValues::Vector4(v) => v.len(),
        }
    }

    /// Returns `true` when there are no elements.
    pub fn is_empty(&self) -> (r: bool)
        ensures
            r == (self.spec_len() == 0),
    {
        match self {
            TrackValues::Transform(v) => v.len() == 0,
            TrackValues::UvTransform(v) => v.len() == 0,
            TrackValues::Float(v) => v.len() == 0,
            TrackValues::PatternIndex(v) => v.len() == 0,
            TrackValues::Boolean(v) => v.len() == 0,
            TrackValues::Vector4(v) => v.len() == 0,
        }
    }

    /// The kind of values.
    pub fn track_type(&self) -> (r: TrackTypeV2)
        ensures
            r == self.spec_track_type(),
    {
        match self {
            TrackValues::Transform(_) => TrackTypeV2::Transform,
            TrackValues::UvTransform(_) => TrackTypeV2::UvTransform,
            TrackValues::Float(_) => TrackTypeV2::Float,
            TrackValues::PatternIndex(_) => TrackTypeV2::PatternIndex,
            TrackValues::Boolean(_) => TrackTypeV2::Boolean,
            TrackValues::Vector4(_) => TrackTypeV2::Vector4,
        }
    }
}

} // verus!
