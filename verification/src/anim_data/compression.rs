//! Compression parameters for version 2.0 and later animation tracks, and the
//! bit layouts of compressed pattern index and boolean values.
use vstd::prelude::*;
use vstd::arithmetic::power2::pow2;
use crate::float_bits::{f32_bits_eq, f32_bits_equal};
use crate::anim_data::{TrackTypeV2, TrackValues, Transform};
use crate::anim_data::bitutils::{BitReader, BitWriter, BitReadError, bits_value, low_bits, splice_bits};

verus! {

/// The bit count used for compressed floats: the highest bit count used by Smash Ultimate,
/// which avoids quality loss.
pub const DEFAULT_F32_BIT_COUNT: u64 = 24;

/// How the scale of a compressed transform is stored.
#[derive(Debug, Clone, Copy, PartialEq, Eq)]
pub enum ScaleType {
    NoScale,
    ScaleNoInheritance,
    Scale,
    UniformScale,
}

/// Determines what values are stored in the compressed bit buffer. Missing values use the
/// defaults of the compression header. Stored as 16 bits: the scale type in bits 0 and 1,
/// the rotation flag in bit 2, the translation flag in bit 3 and 12 unused bits.
#[derive(Debug, Clone, Copy, PartialEq, Eq)]
pub struct CompressionFlags {
    pub scale_type: ScaleType,
    pub has_rotation: bool,
    pub has_translation: bool,
}

/// The two-bit code of a scale type.
pub open spec fn scale_type_code(t: ScaleType) -> u16 {
    match t {
        ScaleType::NoScale => 0,
        ScaleType::ScaleNoInheritance => 1,
        ScaleType::Scale => 2,
        ScaleType::UniformScale => 3,
    }
}

/// The 16-bit representation of the flags.
pub open spec fn flags_bits(f: CompressionFlags) -> u16 {
    (scale_type_code(f.scale_type) + (if f.has_rotation { 4u16 } else { 0u16 })
        + (if f.has_translation { 8u16 } else { 0u16 })) as u16
}

/// The flags stored in the 16-bit value `v`; unused bits are ignored.
pub open spec fn flags_from_bits(v: u16) -> CompressionFlags {
    CompressionFlags {
        scale_type: if v % 4 == 0 {
            ScaleType::NoScale
        } else if v % 4 == 1 {
            ScaleType::ScaleNoInheritance
        } else if v % 4 == 2 {
            ScaleType::Scale
        } else {
            ScaleType::UniformScale
        },
        has_rotation: (v / 4) % 2 == 1,
        has_translation: (v / 8) % 2 == 1,
    }
}

impl CompressionFlags {
    /// Flags with every bit cleared.
    pub fn new() -> (r: Self)
        ensures
            r == (CompressionFlags { scale_type: ScaleType::NoScale, has_rotation: false, has_translation: false }),
    {
        CompressionFlags { scale_type: ScaleType::NoScale, has_rotation: false, has_translation: false }
    }

    /// The same flags with the given scale type.
    pub fn with_scale_type(self, scale_type: ScaleType) -> (r: Self)
        ensures
            r == (CompressionFlags { scale_type, ..self }),
    {
        CompressionFlags { scale_type, ..self }
    }

    /// The same flags with the given rotation flag.
    pub fn with_has_rotation(self, has_rotation: bool) -> (r: Self)
        ensures
            r == (CompressionFlags { has_rotation, ..self }),
    {
        CompressionFlags { has_rotation, ..self }
    }

    /// The same flags with the given translation flag.
    pub fn with_has_translation(self, has_translation: bool) -> (r: Self)
        ensures
            r == (CompressionFlags { has_translation, ..self }),
    {
        CompressionFlags { has_translation, ..self }
    }

    /// Reads the flags from their 16-bit representation.
    pub fn from_bits(v: u16) -> (r: Self)
        ensures
            r == flags_from_bits(v),
    {
        let scale_type = if v % 4 == 0 {
            ScaleType::NoScale
        } else if v % 4 == 1 {
            ScaleType::ScaleNoInheritance
        } else if v % 4 == 2 {
            ScaleType::Scale
        } else {
            ScaleType::UniformScale
        };
        CompressionFlags { scale_type, has_rotation: (v / 4) % 2 == 1, has_translation: (v / 8) % 2 == 1 }
    }

    /// The 16-bit representation of the flags, with the unused bits cleared.
    pub fn into_bits(&self) -> (r: u16)
        ensures
            r == flags_bits(*self),
    {
        let code: u16 = match self.scale_type {
            ScaleType::NoScale => 0,
            ScaleType::ScaleNoInheritance => 1,
            ScaleType::Scale => 2,
            ScaleType::UniformScale => 3,
        };
        code + (if self.has_rotation { 4u16 } else { 0u16 }) + (if self.has_translation { 8u16 } else { 0u16 })
    }

    /// The flags written for a track with the given values: transforms store scale, rotation
    /// and translation, with scale inheritance chosen by `inherit_scale`; UV transforms store
    /// all values without scale inheritance; other track types use no flags.
    pub fn from_track(values: &TrackValues, inherit_scale: bool) -> (r: CompressionFlags)
        ensures
            r == (match values.spec_track_type() {
                TrackTypeV2::Transform => CompressionFlags {
                    scale_type: if inherit_scale { ScaleType::Scale } else { ScaleType::ScaleNoInheritance },
                    has_rotation: true,
                    has_translation: true,
                },
                TrackTypeV2::UvTransform => CompressionFlags {
                    scale_type: ScaleType::ScaleNoInheritance,
                    has_rotation: true,
                    has_translation: true,
                },
                _ => CompressionFlags { scale_type: ScaleType::NoScale, has_rotation: false, has_translation: false },
            }),
    {
        let transform_scale_type = if inherit_scale {
            ScaleType::Scale
        } else {
            ScaleType::ScaleNoInheritance
        };
        match values {
            TrackValues::Transform(_) => CompressionFlags::new()
                .with_scale_type(transform_scale_type)
                .with_has_rotation(true)
                .with_has_translation(true),
            TrackValues::UvTransform(_) => CompressionFlags::new()
                .with_scale_type(ScaleType::ScaleNoInheritance)
                .with_has_rotation(true)
                .with_has_translation(true),
            _ => CompressionFlags::new(),
        }
    }
}

/// Reading back the 16-bit representation of flags gives the same flags.
pub proof fn lemma_flags_roundtrip(f: CompressionFlags)
    ensures
        flags_from_bits(flags_bits(f)) == f,
{
}

/// Writing flags read from a 16-bit value gives the value with its unused bits cleared.
pub proof fn lemma_flags_bits_roundtrip(v: u16)
    ensures
        flags_bits(flags_from_bits(v)) == v % 16,
{
}

/// Compression of a range of `f32` values with `bit_count` bits per value.
/// The endpoints are carried as `f32` bit patterns.
#[derive(Debug, Clone, Copy, PartialEq, Eq)]
pub struct F32Compression {
    pub min: u32,
    pub max: u32,
    pub bit_count: u64,
}

/// The compression that `F32Compression::from_range` chooses.
pub open spec fn f32_compression_for(min: u32, max: u32) -> F32Compression {
    F32Compression { min, max, bit_count: if f32_bits_eq(min, max) { 0 } else { DEFAULT_F32_BIT_COUNT } }
}

impl F32Compression {
    /// Compression for values between `min` and `max`: a single value needs no bits,
    /// any other range uses the default bit count.
    pub fn from_range(min: u32, max: u32) -> (r: Self)
        ensures
            r == f32_compression_for(min, max),
    {
        let bit_count = if f32_bits_equal(min, max) { 0 } else { DEFAULT_F32_BIT_COUNT };
        F32Compression { min, max, bit_count }
    }

    /// The bits per value: none when the range holds a single value.
    pub open spec fn spec_bit_count(&self) -> nat {
        if f32_bits_eq(self.min, self.max) { 0 } else { self.bit_count as nat }
    }

    /// The bits per value: none when the range holds a single value.
    pub fn bit_count(&self, flags: CompressionFlags) -> (r: u64)
        ensures
            r == self.spec_bit_count(),
    {
        if f32_bits_equal(self.min, self.max) { 0 } else { self.bit_count }
    }
}

/// Compression of a range of `u32` pattern indices with `bit_count` bits per value.
#[derive(Debug, Clone, Copy, PartialEq, Eq)]
pub struct U32Compression {
    pub min: u32,
    pub max: u32,
    pub bit_count: u64,
}

/// `c` is the compression chosen for the pattern indices `values`: the smallest and largest
/// value (zero for no values) and the default bit count.
pub open spec fn is_u32_compression_for(values: Seq<u32>, c: U32Compression) -> bool {
    &&& values.len() == 0 ==> c.min == 0 && c.max == 0
    &&& values.len() > 0 ==> values.contains(c.min) && values.contains(c.max)
    &&& forall|k: int| 0 <= k < values.len() ==> c.min <= #[trigger] values[k] && values[k] <= c.max
    &&& c.bit_count == DEFAULT_F32_BIT_COUNT
}

impl U32Compression {
    /// The compression chosen for pattern indices: the smallest and largest value (zero for
    /// no values) and the default bit count.
    pub fn from_values(values: &[u32]) -> (r: Self)
        ensures
            is_u32_compression_for(values@, r),
    {
        let mut min: u32 = 0;
        let mut max: u32 = 0;
        if values.len() > 0 {
            min = values[0];
            max = values[0];
        }
        let mut k: usize = 1;
        while k < values.len()
            invariant
                1 <= k <= values@.len() || values@.len() == 0,
                values@.len() == 0 ==> min == 0 && max == 0,
                values@.len() > 0 ==> values@.contains(min) && values@.contains(max),
                forall|m: int| 0 <= m < k && m < values@.len() ==> min <= #[trigger] values@[m] && values@[m] <= max,
            decreases values@.len() - k,
        {
            if values[k] < min {
                min = values[k];
            }
            if values[k] > max {
                max = values[k];
            }
            k = k + 1;
        }
        U32Compression { min, max, bit_count: DEFAULT_F32_BIT_COUNT }
    }

    /// The bits per value.
    pub fn bit_count(&self, flags: CompressionFlags) -> (r: u64)
        ensures
            r == self.bit_count,
    {
        self.bit_count
    }
}

/// Compression of the three components of a vector.
#[derive(Debug, Clone, Copy, PartialEq, Eq)]
pub struct Vector3Compression {
    pub x: F32Compression,
    pub y: F32Compression,
    pub z: F32Compression,
}

impl Vector3Compression {
    /// Compression for each component between the components of `min` and `max`.
    pub fn from_range(min: [u32; 3], max: [u32; 3]) -> (r: Self)
        ensures
            r.x == f32_compression_for(min[0], max[0]),
            r.y == f32_compression_for(min[1], max[1]),
            r.z == f32_compression_for(min[2], max[2]),
    {
        Vector3Compression {
            x: F32Compression::from_range(min[0], max[0]),
            y: F32Compression::from_range(min[1], max[1]),
            z: F32Compression::from_range(min[2], max[2]),
        }
    }

    /// The bits per value: the sum over the components.
    pub open spec fn spec_bit_count(&self) -> nat {
        self.x.spec_bit_count() + self.y.spec_bit_count() + self.z.spec_bit_count()
    }

    /// The bits per value: the sum over the components.
    pub fn bit_count(&self, flags: CompressionFlags) -> (r: u64)
        requires
            self.spec_bit_count() <= u64::MAX,
        ensures
            r == self.spec_bit_count(),
    {
        self.x.bit_count(flags) + self.y.bit_count(flags) + self.z.bit_count(flags)
    }
}

/// Compression of the four components of a vector.
#[derive(Debug, Clone, Copy, PartialEq, Eq)]
pub struct Vector4Compression {
    pub x: F32Compression,
    pub y: F32Compression,
    pub z: F32Compression,
    pub w: F32Compression,
}

impl Vector4Compression {
    /// Compression for each component between the components of `min` and `max`.
    pub fn from_range(min: [u32; 4], max: [u32; 4]) -> (r: Self)
        ensures
            r.x == f32_compression_for(min[0], max[0]),
            r.y == f32_compression_for(min[1], max[1]),
            r.z == f32_compression_for(min[2], max[2]),
            r.w == f32_compression_for(min[3], max[3]),
    {
        Vector4Compression {
            x: F32Compression::from_range(min[0], max[0]),
            y: F32Compression::from_range(min[1], max[1]),
            z: F32Compression::from_range(min[2], max[2]),
            w: F32Compression::from_range(min[3], max[3]),
        }
    }

    /// The bits per value: the sum over the components.
    pub open spec fn spec_bit_count(&self) -> nat {
        self.x.spec_bit_count() + self.y.spec_bit_count() + self.z.spec_bit_count() + self.w.spec_bit_count()
    }

    /// The bits per value: the sum over the components.
    pub fn bit_count(&self, flags: CompressionFlags) -> (r: u64)
        requires
            self.spec_bit_count() <= u64::MAX,
        ensures
            r == self.spec_bit_count(),
    {
        self.x.bit_count(flags) + self.y.bit_count(flags) + self.z.bit_count(flags) + self.w.bit_count(flags)
    }
}

/// A transform as an uncompressed track stores it: the scale, the rotation and the
/// translation as `f32` bit patterns, and `1` when the transform compensates for its
/// parent's scale. Compressed tracks store the compensation once, in the default value.
#[derive(Debug, Clone, Copy, PartialEq, Eq, Default)]
pub struct UncompressedTransform {
    pub scale: [u32; 3],
    pub rotation: [u32; 4],
    pub translation: [u32; 3],
    pub compensate_scale: u32,
}

impl UncompressedTransform {
    /// The stored form of `t`, with a compensation of `1` when `compensate_scale` is set
    /// and `0` otherwise.
    pub fn from_transform(t: &Transform, compensate_scale: bool) -> (r: Self)
        ensures
            r.scale == t.scale,
            r.rotation == t.rotation,
            r.translation == t.translation,
            r.compensate_scale == (if compensate_scale { 1u32 } else { 0u32 }),
    {
        UncompressedTransform {
            scale: t.scale,
            rotation: t.rotation,
            translation: t.translation,
            compensate_scale: if compensate_scale { 1 } else { 0 },
        }
    }

    /// The transform without its compensation.
    pub fn to_transform(&self) -> (r: Transform)
        ensures
            r == (Transform { scale: self.scale, rotation: self.rotation, translation: self.translation }),
    {
        Transform { scale: self.scale, rotation: self.rotation, translation: self.translation }
    }
}

/// Compression of a transform. The x component of `scale` is used for uniform scale,
/// and the w component of the rotation is stored as a single sign bit.
#[derive(Debug, Clone, Copy, PartialEq, Eq)]
pub struct TransformCompression {
    pub scale: Vector3Compression,
    pub rotation: Vector3Compression,
    pub translation: Vector3Compression,
}

impl TransformCompression {
    /// The bits per transform: translation, the scale that the flags select
    /// (all three components, only the raw bit count of x for uniform scale, or none),
    /// rotation, and a sign bit when the flags store a rotation.
    pub open spec fn spec_bit_count(&self, flags: CompressionFlags) -> nat {
        let scale_bits: nat = match flags.scale_type {
            ScaleType::Scale | ScaleType::ScaleNoInheritance => self.scale.spec_bit_count(),
            ScaleType::UniformScale => self.scale.x.bit_count as nat,
            ScaleType::NoScale => 0,
        };
        self.translation.spec_bit_count() + scale_bits + self.rotation.spec_bit_count()
            + if flags.has_rotation { 1nat } else { 0nat }
    }

    /// The bits per transform for the given flags.
    pub fn bit_count(&self, flags: CompressionFlags) -> (r: u64)
        requires
            self.spec_bit_count(flags) <= u64::MAX,
        ensures
            r == self.spec_bit_count(flags),
    {
        let mut bit_count: u64 = 0;
        bit_count = bit_count + self.translation.bit_count(flags);
        match flags.scale_type {
            ScaleType::Scale | ScaleType::ScaleNoInheritance => {
                bit_count = bit_count + self.scale.bit_count(flags);
            },
            ScaleType::UniformScale => {
                bit_count = bit_count + self.scale.x.bit_count;
            },
            ScaleType::NoScale => {},
        }
        bit_count = bit_count + self.rotation.bit_count(flags);
        if flags.has_rotation {
            bit_count = bit_count + 1;
        }
        bit_count
    }
}

/// Compression of a UV transform.
#[derive(Debug, Clone, Copy, PartialEq, Eq)]
pub struct UvTransformCompression {
    pub scale_u: F32Compression,
    pub scale_v: F32Compression,
    pub rotation: F32Compression,
    pub translate_u: F32Compression,
    pub translate_v: F32Compression,
}

impl UvTransformCompression {
    /// The bits per UV transform: the scale that the flags select (both components,
    /// only the raw bit count of u for uniform scale, or none), then rotation and translation.
    pub open spec fn spec_bit_count(&self, flags: CompressionFlags) -> nat {
        let scale_bits: nat = match flags.scale_type {
            ScaleType::Scale | ScaleType::ScaleNoInheritance => self.scale_u.spec_bit_count() + self.scale_v.spec_bit_count(),
            ScaleType::UniformScale => self.scale_u.bit_count as nat,
            ScaleType::NoScale => 0,
        };
        scale_bits + self.rotation.spec_bit_count() + self.translate_u.spec_bit_count() + self.translate_v.spec_bit_count()
    }

    /// The bits per UV transform for the given flags.
    pub fn bit_count(&self, flags: CompressionFlags) -> (r: u64)
        requires
            self.spec_bit_count(flags) <= u64::MAX,
        ensures
            r == self.spec_bit_count(flags),
    {
        let mut bit_count: u64 = 0;
        match flags.scale_type {
            ScaleType::Scale | ScaleType::ScaleNoInheritance => {
                bit_count = bit_count + self.scale_u.bit_count(flags);
                bit_count = bit_count + self.scale_v.bit_count(flags);
            },
            ScaleType::UniformScale => {
                bit_count = bit_count + self.scale_u.bit_count;
            },
            ScaleType::NoScale => {},
        }
        bit_count = bit_count + self.rotation.bit_count(flags);
        bit_count = bit_count + self.translate_u.bit_count(flags);
        bit_count = bit_count + self.translate_v.bit_count(flags);
        bit_count
    }
}

/// A mask with the lowest `bit_count` bits set.
pub fn bit_mask(bit_count: u64) -> (r: u64)
    requires
        1 <= bit_count < 64,
    ensures
        r as nat == pow2(bit_count as nat) - 1,
{
    let one: u64 = 1;
    proof {
        vstd::bits::lemma_u64_pow2_no_overflow(bit_count as nat);
        vstd::arithmetic::power2::lemma_pow2_pos(bit_count as nat);
        vstd::bits::lemma_u64_shl_is_mul(1, bit_count);
    }
    (one << bit_count) - 1
}


/// A boolean value stored in a byte: nonzero is `true`.
#[derive(Debug, Clone, Copy, PartialEq, Eq, Default)]
pub struct Boolean(pub u8);

impl Boolean {
    /// `1` for `true` and `0` for `false`.
    pub fn from_bool(v: bool) -> (r: Boolean)
        ensures
            r.0 == if v { 1u8 } else { 0u8 },
    {
        if v { Boolean(1u8) } else { Boolean(0u8) }
    }

    /// `true` for any nonzero byte.
    pub fn to_bool(&self) -> (r: bool)
        ensures
            r == (self.0 != 0),
    {
        self.0 != 0u8
    }
}

/// The bits `start..start + count` of a reader's bits are available.
pub open spec fn bits_available(bits: (Seq<bool>, nat), count: nat) -> bool {
    bits.1 + count <= bits.0.len()
}

/// The value of the `count` bits at the reader's position.
pub open spec fn next_value(bits: (Seq<bool>, nat), count: nat) -> nat {
    bits_value(bits.0.subrange(bits.1 as int, (bits.1 + count) as int))
}

/// Reads a compressed pattern index: the minimum plus the next `bit_count` bits,
/// or just the minimum when the bit count is zero.
pub fn decompress_u32(reader: &mut BitReader, compression: &U32Compression) -> (r: Result<u32, BitReadError>)
    requires
        compression.bit_count <= usize::MAX,
        old(reader)@.1 + compression.bit_count <= usize::MAX,
        compression.bit_count != 0 && bits_available(old(reader)@, compression.bit_count as nat) ==> {
            &&& compression.bit_count <= 32
            &&& next_value(old(reader)@, compression.bit_count as nat) + compression.min <= u32::MAX
        },
    ensures
        final(reader)@.0 == old(reader)@.0,
        compression.bit_count == 0 ==> r == Ok::<u32, BitReadError>(compression.min) && final(reader)@.1 == old(reader)@.1,
        compression.bit_count != 0 && bits_available(old(reader)@, compression.bit_count as nat) ==> (r matches Ok(v)
            && v == next_value(old(reader)@, compression.bit_count as nat) + compression.min
            && final(reader)@.1 == old(reader)@.1 + compression.bit_count),
        compression.bit_count != 0 && !bits_available(old(reader)@, compression.bit_count as nat) ==>
            r == Err::<u32, BitReadError>(BitReadError::NotEnoughBits) && final(reader)@.1 == old(reader)@.1,
{
    if compression.bit_count == 0 {
        Ok(compression.min)
    } else {
        let value = reader.read_u32(compression.bit_count as usize)?;
        Ok(value + compression.min)
    }
}

/// Writes a compressed pattern index: its offset from the minimum in `bit_count` bits.
pub fn compress_u32(value: u32, writer: &mut BitWriter, compression: &U32Compression)
    requires
        compression.min <= value,
        1 <= compression.bit_count <= 32,
        old(writer)@.1 + compression.bit_count <= old(writer)@.0.len(),
    ensures
        final(writer)@.0 == splice_bits(old(writer)@.0, old(writer)@.1 as int,
            low_bits((value - compression.min) as nat, compression.bit_count as nat)),
        final(writer)@.1 == old(writer)@.1 + compression.bit_count,
        final(writer).head() == old(writer).head(),
        final(writer).padding_clear() == old(writer).padding_clear(),
{
    let compressed_value = value - compression.min;
    writer.write(compressed_value, compression.bit_count as usize);
}

/// Reads a compressed boolean from the next `bits_per_entry` bits.
pub fn decompress_boolean(reader: &mut BitReader, bits_per_entry: usize) -> (r: Result<Boolean, BitReadError>)
    requires
        old(reader)@.1 + bits_per_entry <= usize::MAX,
        bits_available(old(reader)@, bits_per_entry as nat) ==> 1 <= bits_per_entry <= 8,
    ensures
        final(reader)@.0 == old(reader)@.0,
        bits_available(old(reader)@, bits_per_entry as nat) ==> (r matches Ok(b)
            && b.0 == next_value(old(reader)@, bits_per_entry as nat)
            && final(reader)@.1 == old(reader)@.1 + bits_per_entry),
        !bits_available(old(reader)@, bits_per_entry as nat) ==>
            r == Err::<Boolean, BitReadError>(BitReadError::NotEnoughBits) && final(reader)@.1 == old(reader)@.1,
{
    let value = reader.read_u8(bits_per_entry)?;
    Ok(Boolean(value))
}

/// Writes a compressed boolean as a single bit.
pub fn compress_boolean(value: &Boolean, writer: &mut BitWriter)
    requires
        old(writer)@.1 < old(writer)@.0.len(),
    ensures
        final(writer)@.0 == old(writer)@.0.update(old(writer)@.1 as int, value.0 != 0),
        final(writer)@.1 == old(writer)@.1 + 1,
        final(writer).head() == old(writer).head(),
        final(writer).padding_clear() == old(writer).padding_clear(),
{
    writer.write_bit(value.to_bool());
}

/// The header of a compressed track: the flags, the default value, the bits per value,
/// the compressed buffer and the frame count. Absent pointers are `None`.
#[derive(Debug, Clone, PartialEq, Eq)]
pub struct CompressedHeader<T> {
    pub unk_4: u16,
    pub flags: CompressionFlags,
    pub default_data: Option<T>,
    pub bits_per_entry: u16,
    pub compressed_data: Option<Vec<u8>>,
    pub frame_count: u32,
}

/// A compressed track: the header and the compression parameters.
#[derive(Debug, Clone, PartialEq, Eq)]
pub struct CompressedTrackData<T, C> {
    pub header: CompressedHeader<T>,
    pub compression: C,
}

} // verus!
