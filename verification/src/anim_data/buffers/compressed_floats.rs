//! Decoding compressed float, vector, UV transform and transform tracks of version 2.0 and
//! later animations. Each frame stores the codes of its floats one after another, in the
//! order of the value's fields; a float that is not stored takes the header's default.
//! Uniform scale stores a single scale float that all scale components share, and a
//! transform whose flags store a rotation ends each frame with the sign of the rotation's
//! w component, which is recovered from the other three.
//!
//! Decoding yields, for each component, the stored code and its compression, the default
//! value's bits, or the sign of w; turning codes into floats is left to the caller.
use vstd::prelude::*;
use vstd::arithmetic::power2::pow2;
use crate::anim_data::bitutils::{
    BitBuffer, BitReadError, BitWriter, bits_value, byte_bit, bytes_to_bits, lemma_low_bits_value, low_bits, max_bit_count,
    splice_bits,
};
use crate::float_bits::f32_bits_eq;
use crate::anim_data::buffers::decoded_count;
use crate::anim_data::buffers::float_codes::{frame_bits, frame_codes, frames_match, frame_views, plan_bits, read_frames, sign_position, stores_code};
use crate::anim_data::compression::{
    CompressedHeader, CompressionFlags, F32Compression, ScaleType, TransformCompression, UvTransformCompression,
    Vector3Compression, Vector4Compression,
};
use crate::anim_data::error::Error;

verus! {

/// The kinds of tracks whose values are made of compressed floats.
#[derive(Debug, Clone, Copy, PartialEq, Eq, Structural)]
pub enum FloatTrackKind {
    Float,
    Vector4,
    UvTransform,
    Transform,
}

/// One decoded component of a compressed value.
#[derive(Debug, Clone, Copy, PartialEq, Eq)]
pub enum FloatValue {
    /// A stored code, which maps linearly onto the range of its compression.
    Stored { code: u32, compression: F32Compression },
    /// The bits of the header's default for this component.
    Default(u32),
    /// The w component of a unit quaternion rotation, recovered from x, y and z:
    /// the nonnegative root, negated when `negative`.
    RotationW { negative: bool },
}

/// The number of words in the default value of a track of this kind.
pub open spec fn default_word_count(kind: FloatTrackKind) -> nat {
    match kind {
        FloatTrackKind::Float => 1,
        FloatTrackKind::Vector4 => 4,
        FloatTrackKind::UvTransform => 5,
        FloatTrackKind::Transform => 11,
    }
}

/// The number of float compressions of a track of this kind.
pub open spec fn compression_count(kind: FloatTrackKind) -> nat {
    match kind {
        FloatTrackKind::Float => 1,
        FloatTrackKind::Vector4 => 4,
        FloatTrackKind::UvTransform => 5,
        FloatTrackKind::Transform => 9,
    }
}

/// The compressions of a UV transform, in the order of its fields.
pub open spec fn uv_compression_of(c: Seq<F32Compression>) -> UvTransformCompression {
    UvTransformCompression { scale_u: c[0], scale_v: c[1], rotation: c[2], translate_u: c[3], translate_v: c[4] }
}

/// The compressions of a transform: scale, rotation and translation, each x, y, z.
pub open spec fn transform_compression_of(c: Seq<F32Compression>) -> TransformCompression {
    TransformCompression {
        scale: Vector3Compression { x: c[0], y: c[1], z: c[2] },
        rotation: Vector3Compression { x: c[3], y: c[4], z: c[5] },
        translation: Vector3Compression { x: c[6], y: c[7], z: c[8] },
    }
}

/// The bits per value that the compressions and flags call for, which the header's bits
/// per entry must equal.
pub open spec fn float_track_bit_count(kind: FloatTrackKind, c: Seq<F32Compression>, flags: CompressionFlags) -> nat {
    match kind {
        FloatTrackKind::Float => c[0].spec_bit_count(),
        FloatTrackKind::Vector4 => Vector4Compression { x: c[0], y: c[1], z: c[2], w: c[3] }.spec_bit_count(),
        FloatTrackKind::UvTransform => uv_compression_of(c).spec_bit_count(flags),
        FloatTrackKind::Transform => transform_compression_of(c).spec_bit_count(flags),
    }
}

/// The scale is stored once for all of its components.
pub open spec fn is_uniform(flags: CompressionFlags) -> bool {
    flags.scale_type is UniformScale
}

/// The compressions whose codes each frame stores, in order, as indices into the track's
/// compressions: with uniform scale only the first scale component is stored.
pub open spec fn plan_indices(kind: FloatTrackKind, flags: CompressionFlags) -> Seq<usize> {
    match kind {
        FloatTrackKind::Float => seq![0usize],
        FloatTrackKind::Vector4 => seq![0usize, 1, 2, 3],
        FloatTrackKind::UvTransform => if is_uniform(flags) {
            seq![0usize, 2, 3, 4]
        } else {
            seq![0usize, 1, 2, 3, 4]
        },
        FloatTrackKind::Transform => if is_uniform(flags) {
            seq![0usize, 3, 4, 5, 6, 7, 8]
        } else {
            seq![0usize, 1, 2, 3, 4, 5, 6, 7, 8]
        },
    }
}

/// For each stored float, the index of its default in the default value's words. A
/// transform's default has a rotation w between the rotation and the translation.
pub open spec fn plan_default_indices(kind: FloatTrackKind, flags: CompressionFlags) -> Seq<usize> {
    match kind {
        FloatTrackKind::Transform => if is_uniform(flags) {
            seq![0usize, 3, 4, 5, 7, 8, 9]
        } else {
            seq![0usize, 1, 2, 3, 4, 5, 7, 8, 9]
        },
        _ => plan_indices(kind, flags),
    }
}

/// The compressions of the stored floats in order.
pub open spec fn plan_of(kind: FloatTrackKind, flags: CompressionFlags, c: Seq<F32Compression>) -> Seq<F32Compression> {
    plan_indices(kind, flags).map_values(|i: usize| c[i as int])
}

/// The defaults of the stored floats in order.
pub open spec fn plan_defaults_of(kind: FloatTrackKind, flags: CompressionFlags, defaults: Seq<u32>) -> Seq<u32> {
    plan_default_indices(kind, flags).map_values(|i: usize| defaults[i as int])
}

/// Each frame ends with the sign of the rotation's w component.
pub open spec fn has_sign(kind: FloatTrackKind, flags: CompressionFlags) -> bool {
    kind == FloatTrackKind::Transform && flags.has_rotation
}

/// The stored floats of one frame: the code where one is stored, else the default.
pub open spec fn read_values(plan: Seq<F32Compression>, codes: Seq<Option<u32>>, defaults: Seq<u32>) -> Seq<FloatValue> {
    Seq::new(codes.len(), |j: int| match codes[j] {
        Some(code) => FloatValue::Stored { code, compression: plan[j] },
        None => FloatValue::Default(defaults[j]),
    })
}

/// The components of one value in the order of its fields, from the stored floats `read`,
/// the frame's sign bit and the default value's words. A uniform scale fills every scale
/// component; a transform's rotation w comes from the sign bit when the flags store a
/// rotation and from the default otherwise, and its scale compensation from the default.
pub open spec fn assemble(kind: FloatTrackKind, flags: CompressionFlags, read: Seq<FloatValue>, sign: bool, defaults: Seq<u32>) -> Seq<FloatValue> {
    match kind {
        FloatTrackKind::Float | FloatTrackKind::Vector4 => read,
        FloatTrackKind::UvTransform => if is_uniform(flags) {
            seq![read[0], read[0], read[1], read[2], read[3]]
        } else {
            read
        },
        FloatTrackKind::Transform => {
            let o: int = if is_uniform(flags) { 1 } else { 3 };
            let scale = if is_uniform(flags) { seq![read[0], read[0], read[0]] } else { read.take(3) };
            let w = if flags.has_rotation { FloatValue::RotationW { negative: sign } } else { FloatValue::Default(defaults[6]) };
            scale + seq![read[o], read[o + 1], read[o + 2], w, read[o + 3], read[o + 4], read[o + 5], FloatValue::Default(defaults[10])]
        },
    }
}

/// The components of frame `k` of a track stored in `bits`.
pub open spec fn frame_value(kind: FloatTrackKind, flags: CompressionFlags, c: Seq<F32Compression>, defaults: Seq<u32>, bits: Seq<bool>, k: int) -> Seq<FloatValue> {
    let plan = plan_of(kind, flags, c);
    let sign = has_sign(kind, flags);
    let start = (k * frame_bits(plan, sign)) as nat;
    let read = read_values(plan, frame_codes(bits, start, plan), plan_defaults_of(kind, flags, defaults));
    assemble(kind, flags, read, sign && bits[(start + plan_bits(plan, plan.len() as int)) as int], defaults)
}

/// The stored compressions and defaults of a track.
fn read_plan(kind: FloatTrackKind, flags: CompressionFlags, c: &Vec<F32Compression>, defaults: &Vec<u32>) -> (r: (Vec<F32Compression>, Vec<u32>))
    requires
        c@.len() == compression_count(kind),
        defaults@.len() == default_word_count(kind),
    ensures
        r.0@ == plan_of(kind, flags, c@),
        r.1@ == plan_defaults_of(kind, flags, defaults@),
{
    let uniform = match flags.scale_type {
        ScaleType::UniformScale => true,
        _ => false,
    };
    let mut idx: Vec<usize> = Vec::new();
    let mut didx: Vec<usize> = Vec::new();
    match kind {
        FloatTrackKind::Float => {
            idx.push(0);
        },
        FloatTrackKind::Vector4 => {
            idx.push(0);
            idx.push(1);
            idx.push(2);
            idx.push(3);
        },
        FloatTrackKind::UvTransform => {
            idx.push(0);
            if !uniform {
                idx.push(1);
            }
            idx.push(2);
            idx.push(3);
            idx.push(4);
        },
        FloatTrackKind::Transform => {
            idx.push(0);
            didx.push(0);
            if !uniform {
                idx.push(1);
                idx.push(2);
                didx.push(1);
                didx.push(2);
            }
            idx.push(3);
            idx.push(4);
            idx.push(5);
            idx.push(6);
            idx.push(7);
            idx.push(8);
            didx.push(3);
            didx.push(4);
            didx.push(5);
            didx.push(7);
            didx.push(8);
            didx.push(9);
        },
    }
    if kind != FloatTrackKind::Transform {
        didx = idx.clone();
    }
    proof {
        assert(idx@ =~= plan_indices(kind, flags));
        assert(didx@ =~= plan_default_indices(kind, flags));
    }
    let mut plan: Vec<F32Compression> = Vec::new();
    let mut defs: Vec<u32> = Vec::new();
    let mut j: usize = 0;
    while j < idx.len()
        invariant
            idx@ == plan_indices(kind, flags),
            didx@ == plan_default_indices(kind, flags),
            idx@.len() == didx@.len(),
            c@.len() == compression_count(kind),
            defaults@.len() == default_word_count(kind),
            forall|m: int| 0 <= m < idx@.len() ==> #[trigger] idx@[m] < c@.len() && didx@[m] < defaults@.len(),
            j <= idx@.len(),
            plan@ =~= plan_of(kind, flags, c@).take(j as int),
            defs@ =~= plan_defaults_of(kind, flags, defaults@).take(j as int),
        decreases idx@.len() - j,
    {
        plan.push(c[idx[j]]);
        defs.push(defaults[didx[j]]);
        j = j + 1;
    }
    proof {
        assert(plan_of(kind, flags, c@).take(j as int) =~= plan_of(kind, flags, c@));
        assert(plan_defaults_of(kind, flags, defaults@).take(j as int) =~= plan_defaults_of(kind, flags, defaults@));
    }
    (plan, defs)
}

/// The stored floats of one frame from their codes.
fn frame_read_values(plan: &Vec<F32Compression>, codes: &Vec<Option<u32>>, defaults: &Vec<u32>) -> (r: Vec<FloatValue>)
    requires
        plan@.len() == codes@.len(),
        defaults@.len() == codes@.len(),
    ensures
        r@ == read_values(plan@, codes@, defaults@),
{
    let mut r: Vec<FloatValue> = Vec::new();
    let mut j: usize = 0;
    while j < codes.len()
        invariant
            plan@.len() == codes@.len(),
            defaults@.len() == codes@.len(),
            j <= codes@.len(),
            r@ =~= read_values(plan@, codes@, defaults@).take(j as int),
        decreases codes@.len() - j,
    {
        let v = match codes[j] {
            Some(code) => FloatValue::Stored { code, compression: plan[j] },
            None => FloatValue::Default(defaults[j]),
        };
        r.push(v);
        j = j + 1;
    }
    proof {
        assert(read_values(plan@, codes@, defaults@).take(j as int) =~= read_values(plan@, codes@, defaults@));
    }
    r
}

/// The components of one value in the order of its fields.
fn assemble_value(kind: FloatTrackKind, flags: CompressionFlags, read: &Vec<FloatValue>, sign: bool, defaults: &Vec<u32>) -> (r: Vec<FloatValue>)
    requires
        read@.len() == plan_indices(kind, flags).len(),
        defaults@.len() == default_word_count(kind),
    ensures
        r@ == assemble(kind, flags, read@, sign, defaults@),
{
    let uniform = match flags.scale_type {
        ScaleType::UniformScale => true,
        _ => false,
    };
    match kind {
        FloatTrackKind::Float | FloatTrackKind::Vector4 => read.clone(),
        FloatTrackKind::UvTransform => {
            if uniform {
                let mut r: Vec<FloatValue> = Vec::new();
                r.push(read[0]);
                r.push(read[0]);
                r.push(read[1]);
                r.push(read[2]);
                r.push(read[3]);
                assert(r@ =~= assemble(kind, flags, read@, sign, defaults@));
                r
            } else {
                read.clone()
            }
        },
        FloatTrackKind::Transform => {
            let o: usize = if uniform { 1 } else { 3 };
            let mut r: Vec<FloatValue> = Vec::new();
            if uniform {
                r.push(read[0]);
                r.push(read[0]);
                r.push(read[0]);
            } else {
                r.push(read[0]);
                r.push(read[1]);
                r.push(read[2]);
            }
            r.push(read[o]);
            r.push(read[o + 1]);
            r.push(read[o + 2]);
            if flags.has_rotation {
                r.push(FloatValue::RotationW { negative: sign });
            } else {
                r.push(FloatValue::Default(defaults[6]));
            }
            r.push(read[o + 3]);
            r.push(read[o + 4]);
            r.push(read[o + 5]);
            r.push(FloatValue::Default(defaults[10]));
            assert(r@ =~= assemble(kind, flags, read@, sign, defaults@));
            r
        },
    }
}

/// The bits per value that the compressions and flags call for.
pub fn track_bit_count(kind: FloatTrackKind, c: &Vec<F32Compression>, flags: CompressionFlags) -> (r: u64)
    requires
        c@.len() == compression_count(kind),
        forall|j: int| 0 <= j < c@.len() ==> (#[trigger] c@[j]).bit_count <= 32,
    ensures
        r == float_track_bit_count(kind, c@, flags),
        r <= 9 * 32 + 1,
{
    match kind {
        FloatTrackKind::Float => c[0].bit_count(flags),
        FloatTrackKind::Vector4 => {
            let v = Vector4Compression { x: c[0], y: c[1], z: c[2], w: c[3] };
            v.bit_count(flags)
        },
        FloatTrackKind::UvTransform => {
            let u = UvTransformCompression { scale_u: c[0], scale_v: c[1], rotation: c[2], translate_u: c[3], translate_v: c[4] };
            assert(u == uv_compression_of(c@));
            u.bit_count(flags)
        },
        FloatTrackKind::Transform => {
            let t = TransformCompression {
                scale: Vector3Compression { x: c[0], y: c[1], z: c[2] },
                rotation: Vector3Compression { x: c[3], y: c[4], z: c[5] },
                translation: Vector3Compression { x: c[6], y: c[7], z: c[8] },
            };
            assert(t == transform_compression_of(c@));
            t.bit_count(flags)
        },
    }
}

/// The values of each frame, by their views.
pub open spec fn value_views(values: Seq<Vec<FloatValue>>) -> Seq<Seq<FloatValue>> {
    Seq::new(values.len(), |k: int| values[k]@)
}

/// Whether the sign bit of one of the first `count` frames would be the bit just past the
/// end of `bits`.
pub open spec fn sign_bit_past_end(kind: FloatTrackKind, flags: CompressionFlags, c: Seq<F32Compression>, bits: Seq<bool>, count: nat) -> bool {
    has_sign(kind, flags) && exists|k: int| 0 <= k < count && #[trigger] sign_position(plan_of(kind, flags, c), true, k) == bits.len()
}

/// Decodes the values of a compressed track of the given kind: for each frame, its
/// components in the order of the value's fields.
///
/// Fails when the header's bits per entry differ from the bits that the compressions and
/// flags call for, when the header has no compressed buffer, when a value is decoded
/// without a default value in the header, or when the buffer holds too few bits. A track
/// without compressed bits holds a single repeated value.
pub fn read_compressed_inner_floats(
    header: &CompressedHeader<Vec<u32>>,
    compressions: &Vec<F32Compression>,
    kind: FloatTrackKind,
    frame_count: usize,
) -> (r: Result<Vec<Vec<FloatValue>>, Error>)
    requires
        compressions@.len() == compression_count(kind),
        forall|j: int| 0 <= j < compressions@.len() ==> (#[trigger] compressions@[j]).bit_count <= 32,
        header.default_data matches Some(d) ==> d@.len() == default_word_count(kind),
        header.compressed_data matches Some(buffer) ==> buffer@.len() * 8 <= max_bit_count(),
        header.compressed_data matches Some(buffer) ==> (header.bits_per_entry == float_track_bit_count(kind, compressions@, header.flags)
            ==> !sign_bit_past_end(kind, header.flags, compressions@, bytes_to_bits(buffer@),
                decoded_count(float_track_bit_count(kind, compressions@, header.flags), frame_count as nat))),
    ensures
        ({
            let expected = float_track_bit_count(kind, compressions@, header.flags);
            let plan = plan_of(kind, header.flags, compressions@);
            let fb = frame_bits(plan, has_sign(kind, header.flags));
            let count = decoded_count(expected, frame_count as nat);
            &&& header.bits_per_entry != expected ==> (r matches Err(Error::UnexpectedBitCount { expected: e, actual: a })
                && e == expected && a == header.bits_per_entry)
            &&& header.bits_per_entry == expected && header.compressed_data is None ==> (r matches Err(Error::MalformedCompressionHeader))
            &&& header.bits_per_entry == expected && header.compressed_data is Some && count == 0 ==> (r matches Ok(values) && values@.len() == 0)
            &&& header.bits_per_entry == expected && header.compressed_data is Some && count > 0 && header.default_data is None
                ==> (r matches Err(Error::MalformedCompressionHeader))
            &&& header.bits_per_entry == expected ==> (header.compressed_data matches Some(buffer) ==> (header.default_data matches Some(d) ==> {
                let bits = bytes_to_bits(buffer@);
                &&& count * fb <= bits.len() ==> (r matches Ok(values) && values@.len() == count
                    && forall|k: int| 0 <= k < count ==> (#[trigger] values@[k])@ == frame_value(kind, header.flags, compressions@, d@, bits, k))
                &&& count > 0 && count * fb > bits.len() ==> (r matches Err(Error::BitError(BitReadError::NotEnoughBits)))
            }))
        }),
{
    let expected_bit_count = track_bit_count(kind, compressions, header.flags);
    if header.bits_per_entry as u64 != expected_bit_count {
        return Err(Error::UnexpectedBitCount { expected: expected_bit_count as usize, actual: header.bits_per_entry as usize });
    }
    let buffer = match &header.compressed_data {
        Some(buffer) => buffer,
        None => return Err(Error::MalformedCompressionHeader),
    };
    let actual_count: usize = if expected_bit_count == 0 && frame_count > 0 { 1 } else { frame_count };
    if actual_count == 0 {
        return Ok(Vec::new());
    }
    let defaults = match &header.default_data {
        Some(d) => d,
        None => return Err(Error::MalformedCompressionHeader),
    };
    let (plan, plan_defaults) = read_plan(kind, header.flags, compressions, defaults);
    let sign = kind == FloatTrackKind::Transform && header.flags.has_rotation;
    let ghost bits = bytes_to_bits(buffer@);
    proof {
        assert forall|j: int| 0 <= j < plan@.len() implies (#[trigger] plan@[j]).bit_count <= 32 by {
            assert(plan@[j] == compressions@[plan_indices(kind, header.flags)[j] as int]);
        }
        if sign {
            assert forall|k: int| 0 <= k < actual_count implies #[trigger] sign_position(plan@, sign, k) != bits.len() by {
                if sign_position(plan@, sign, k) == bits.len() {
                    assert(sign_bit_past_end(kind, header.flags, compressions@, bits, actual_count as nat));
                }
            }
        }
    }
    let frames = match read_frames(buffer, &plan, sign, actual_count) {
        Ok(f) => f,
        Err(e) => return Err(Error::BitError(e)),
    };
    let mut values: Vec<Vec<FloatValue>> = Vec::new();
    let mut k: usize = 0;
    while k < actual_count
        invariant
            frames@.len() == actual_count,
            frames_match(frame_views(frames@), bits, plan@, sign, actual_count as nat),
            plan@ == plan_of(kind, header.flags, compressions@),
            plan_defaults@ == plan_defaults_of(kind, header.flags, defaults@),
            sign == has_sign(kind, header.flags),
            defaults@.len() == default_word_count(kind),
            header.default_data == Some(*defaults),
            k <= actual_count,
            values@.len() == k,
            forall|m: int| 0 <= m < k ==> (#[trigger] values@[m])@ == frame_value(kind, header.flags, compressions@, defaults@, bits, m),
        decreases actual_count - k,
    {
        let ghost fv = frame_views(frames@)[k as int];
        assert(fv.0 == frames@[k as int].0@);
        let read = frame_read_values(&plan, &frames[k].0, &plan_defaults);
        let value = assemble_value(kind, header.flags, &read, frames[k].1, defaults);
        values.push(value);
        k = k + 1;
    }
    Ok(values)
}

/// The bits of the stored floats of each frame.
fn plan_bit_total(plan: &Vec<F32Compression>) -> (r: u64)
    requires
        plan@.len() <= 16,
        forall|j: int| 0 <= j < plan@.len() ==> (#[trigger] plan@[j]).bit_count <= 32,
    ensures
        r == plan_bits(plan@, plan@.len() as int),
        r <= 32 * 16,
{
    let mut total: u64 = 0;
    let mut j: usize = 0;
    while j < plan.len()
        invariant
            plan@.len() <= 16,
            forall|m: int| 0 <= m < plan@.len() ==> (#[trigger] plan@[m]).bit_count <= 32,
            j <= plan@.len(),
            total == plan_bits(plan@, j as int),
            total <= 32 * j,
        decreases plan@.len() - j,
    {
        let b = plan[j].bit_count(CompressionFlags::new());
        total = total + b;
        j = j + 1;
    }
    total
}

/// Whether decoding the track would read the sign bit of a frame just past the end of the
/// compressed buffer, which [`read_compressed_inner_floats`] does not accept: the header's
/// bits per entry match, the header has a compressed buffer, and the frame's floats end
/// exactly at the buffer's end.
pub fn sign_bit_past_buffer_end(
    header: &CompressedHeader<Vec<u32>>,
    compressions: &Vec<F32Compression>,
    kind: FloatTrackKind,
    frame_count: usize,
) -> (r: bool)
    requires
        compressions@.len() == compression_count(kind),
        forall|j: int| 0 <= j < compressions@.len() ==> (#[trigger] compressions@[j]).bit_count <= 32,
        header.compressed_data matches Some(buffer) ==> buffer@.len() * 8 <= max_bit_count(),
    ensures
        r == (header.compressed_data matches Some(buffer) && header.bits_per_entry == float_track_bit_count(kind, compressions@, header.flags)
            && sign_bit_past_end(kind, header.flags, compressions@, bytes_to_bits(buffer@),
                decoded_count(float_track_bit_count(kind, compressions@, header.flags), frame_count as nat))),
{
    let expected_bit_count = track_bit_count(kind, compressions, header.flags);
    let buffer = match &header.compressed_data {
        Some(buffer) => buffer,
        None => return false,
    };
    if header.bits_per_entry as u64 != expected_bit_count || !(kind == FloatTrackKind::Transform && header.flags.has_rotation) {
        return false;
    }
    let count: usize = if expected_bit_count == 0 && frame_count > 0 { 1 } else { frame_count };
    let defaults: Vec<u32> = vec![0u32, 0, 0, 0, 0, 0, 0, 0, 0, 0, 0];
    let ghost plan_spec = plan_of(kind, header.flags, compressions@);
    let (plan, _) = read_plan(kind, header.flags, compressions, &defaults);
    proof {
        assert forall|j: int| 0 <= j < plan@.len() implies (#[trigger] plan@[j]).bit_count <= 32 by {
            assert(plan@[j] == compressions@[plan_indices(kind, header.flags)[j] as int]);
        }
    }
    let c = plan_bit_total(&plan);
    let fb: u64 = c + 1;
    let len: usize = buffer.len() * 8;
    let ghost bits = bytes_to_bits(buffer@);
    assert(bits.len() == len);
    let mut pos: u64 = c;
    let mut k: usize = 0;
    while k < count
        invariant
            plan@ == plan_spec,
            fb == frame_bits(plan_spec, true),
            c == plan_bits(plan_spec, plan_spec.len() as int),
            c <= 32 * 16,
            len == bits.len(),
            len <= max_bit_count(),
            k <= count,
            pos == sign_position(plan_spec, true, k as int),
            pos <= len + 32 * 16,
            forall|m: int| 0 <= m < k ==> #[trigger] sign_position(plan_spec, true, m) != len,
            header.compressed_data == Some(*buffer),
            bits == bytes_to_bits(buffer@),
            header.bits_per_entry == float_track_bit_count(kind, compressions@, header.flags),
            has_sign(kind, header.flags),
            plan_spec == plan_of(kind, header.flags, compressions@),
            count == decoded_count(float_track_bit_count(kind, compressions@, header.flags), frame_count as nat),
        decreases count - k,
    {
        if pos == len as u64 {
            assert(sign_position(plan_spec, true, k as int) == bits.len());
            return true;
        }
        if pos > len as u64 {
            proof {
                assert forall|m: int| k <= m < count implies #[trigger] sign_position(plan_spec, true, m) != len by {
                    assert(m * fb >= k * fb) by (nonlinear_arith)
                        requires k <= m, fb >= 1;
                }
            }
            return false;
        }
        proof {
            assert((k + 1) * fb == k * fb + fb) by (nonlinear_arith);
        }
        pos = pos + fb;
        k = k + 1;
    }
    false
}

/// The bits of a frame's codes: each code in the bit count of its compression, so that a
/// compression without bits writes nothing.
pub open spec fn code_bits(plan: Seq<F32Compression>, codes: Seq<u32>) -> Seq<bool>
    decreases codes.len(),
{
    if codes.len() == 0 {
        Seq::<bool>::empty()
    } else {
        code_bits(plan, codes.drop_last()) + low_bits(codes.last() as nat, plan[codes.len() - 1].bit_count as nat)
    }
}

/// The bits of one written frame: its codes, then its sign bit when `sign`.
pub open spec fn written_frame_bits(plan: Seq<F32Compression>, frame: (Seq<u32>, bool), sign: bool) -> Seq<bool> {
    code_bits(plan, frame.0) + if sign { seq![frame.1] } else { Seq::<bool>::empty() }
}

/// The bits of the written frames, one after another.
pub open spec fn packed_float_bits(plan: Seq<F32Compression>, frames: Seq<(Seq<u32>, bool)>, sign: bool) -> Seq<bool>
    decreases frames.len(),
{
    if frames.len() == 0 {
        Seq::<bool>::empty()
    } else {
        packed_float_bits(plan, frames.drop_last(), sign) + written_frame_bits(plan, frames.last(), sign)
    }
}

/// The bits that the first `j` compressions write for each frame.
pub open spec fn written_plan_bits(plan: Seq<F32Compression>, j: int) -> nat
    decreases j,
{
    if j <= 0 {
        0
    } else {
        written_plan_bits(plan, j - 1) + plan[j - 1].bit_count as nat
    }
}

/// The bits that each written frame takes.
pub open spec fn written_frame_len(plan: Seq<F32Compression>, sign: bool) -> nat {
    written_plan_bits(plan, plan.len() as int) + if sign { 1nat } else { 0nat }
}

/// The codes and sign bits of written frames, by their views.
pub open spec fn written_views(frames: Seq<(Vec<u32>, bool)>) -> Seq<(Seq<u32>, bool)> {
    Seq::new(frames.len(), |k: int| (frames[k].0@, frames[k].1))
}

proof fn lemma_code_bits_len(plan: Seq<F32Compression>, codes: Seq<u32>)
    requires
        codes.len() <= plan.len(),
    ensures
        code_bits(plan, codes).len() == written_plan_bits(plan, codes.len() as int),
    decreases codes.len(),
{
    if codes.len() > 0 {
        lemma_code_bits_len(plan, codes.drop_last());
    }
}

proof fn lemma_packed_float_bits_len(plan: Seq<F32Compression>, frames: Seq<(Seq<u32>, bool)>, sign: bool)
    requires
        forall|k: int| 0 <= k < frames.len() ==> (#[trigger] frames[k]).0.len() == plan.len(),
    ensures
        packed_float_bits(plan, frames, sign).len() == frames.len() * written_frame_len(plan, sign),
    decreases frames.len(),
{
    if frames.len() > 0 {
        lemma_packed_float_bits_len(plan, frames.drop_last(), sign);
        lemma_code_bits_len(plan, frames.last().0);
        assert(frames.len() * written_frame_len(plan, sign) == (frames.len() - 1) * written_frame_len(plan, sign) + written_frame_len(plan, sign)) by (nonlinear_arith);
    }
}

/// The first `j` compressions write no more bits than the first `n`.
proof fn lemma_written_plan_bits_monotonic(plan: Seq<F32Compression>, j: int, n: int)
    requires
        j <= n,
    ensures
        written_plan_bits(plan, j) <= written_plan_bits(plan, n),
    decreases n - j,
{
    if j < n {
        lemma_written_plan_bits_monotonic(plan, j, n - 1);
    }
}

/// Splicing two pieces one after the other splices their concatenation.
proof fn lemma_splice_twice(bits: Seq<bool>, start: int, a: Seq<bool>, b: Seq<bool>)
    requires
        0 <= start,
        start + a.len() + b.len() <= bits.len(),
    ensures
        splice_bits(splice_bits(bits, start, a), start + a.len(), b) == splice_bits(bits, start, a + b),
{
    assert(splice_bits(splice_bits(bits, start, a), start + a.len(), b) =~= splice_bits(bits, start, a + b));
}

/// Writes the codes of one frame, each in the bit count of its compression, then the sign
/// bit when `sign`.
fn compress_frame(writer: &mut BitWriter, plan: &Vec<F32Compression>, codes: &Vec<u32>, sign: bool, s: bool)
    requires
        codes@.len() == plan@.len(),
        forall|j: int| 0 <= j < plan@.len() ==> (#[trigger] plan@[j]).bit_count <= 32,
        old(writer)@.1 + written_frame_len(plan@, sign) <= old(writer)@.0.len(),
    ensures
        final(writer)@.0 == splice_bits(old(writer)@.0, old(writer)@.1 as int, written_frame_bits(plan@, (codes@, s), sign)),
        final(writer)@.1 == old(writer)@.1 + written_frame_len(plan@, sign),
        final(writer).head() == old(writer).head(),
        final(writer).padding_clear() == old(writer).padding_clear(),
{
    let ghost bits0 = writer@.0;
    let ghost start = writer@.1;
    proof {
        lemma_code_bits_len(plan@, codes@);
    }
    let mut j: usize = 0;
    while j < plan.len()
        invariant
            codes@.len() == plan@.len(),
            forall|m: int| 0 <= m < plan@.len() ==> (#[trigger] plan@[m]).bit_count <= 32,
            start + written_frame_len(plan@, sign) <= bits0.len(),
            j <= plan@.len(),
            writer@.0 == splice_bits(bits0, start as int, code_bits(plan@, codes@.take(j as int))),
            writer@.1 == start + written_plan_bits(plan@, j as int),
            writer@.0.len() == bits0.len(),
            writer.head() == old(writer).head(),
            writer.padding_clear() == old(writer).padding_clear(),
        decreases plan@.len() - j,
    {
        let ghost before = writer@.0;
        proof {
            assert(codes@.take(j + 1).drop_last() =~= codes@.take(j as int));
            lemma_code_bits_len(plan@, codes@.take(j as int));
            lemma_written_plan_bits_monotonic(plan@, j + 1, plan@.len() as int);
        }
        let c = plan[j];
        if c.bit_count != 0 {
            writer.write(codes[j], c.bit_count as usize);
        }
        proof {
            let lb = low_bits(codes@[j as int] as nat, c.bit_count as nat);
            if c.bit_count == 0 {
                assert(lb =~= Seq::<bool>::empty());
                assert(splice_bits(before, writer@.1 as int, lb) =~= before);
            }
            lemma_splice_twice(bits0, start as int, code_bits(plan@, codes@.take(j as int)), lb);
        }
        j = j + 1;
    }
    proof {
        assert(codes@.take(j as int) =~= codes@);
    }
    if sign {
        let ghost before = writer@.0;
        writer.write_bit(s);
        proof {
            lemma_splice_twice(bits0, start as int, code_bits(plan@, codes@), seq![s]);
            assert(before.update(writer@.1 - 1, s) =~= splice_bits(before, writer@.1 - 1, seq![s]));
        }
    } else {
        proof {
            assert(code_bits(plan@, codes@) + Seq::<bool>::empty() =~= code_bits(plan@, codes@));
        }
    }
}

/// Creates the compressed buffer of float codes: `frames.len() * bit_count` bits, the
/// written frames one after another and the remaining bits cleared.
pub fn create_compressed_buffer_floats(frames: &Vec<(Vec<u32>, bool)>, plan: &Vec<F32Compression>, sign: bool, bit_count: u64) -> (r: Vec<u8>)
    requires
        frames@.len() * bit_count <= max_bit_count(),
        forall|j: int| 0 <= j < plan@.len() ==> (#[trigger] plan@[j]).bit_count <= 32,
        forall|k: int| 0 <= k < frames@.len() ==> (#[trigger] frames@[k]).0@.len() == plan@.len(),
        frames@.len() > 0 ==> written_frame_len(plan@, sign) <= bit_count,
    ensures
        r@.len() == (frames@.len() * bit_count + 7) / 8,
        packed_float_bits(plan@, written_views(frames@), sign).len() <= frames@.len() * bit_count,
        forall|i: int| 0 <= i < packed_float_bits(plan@, written_views(frames@), sign).len()
            ==> #[trigger] byte_bit(r@, i) == packed_float_bits(plan@, written_views(frames@), sign)[i],
        forall|i: int| packed_float_bits(plan@, written_views(frames@), sign).len() <= i < 8 * r@.len()
            ==> !#[trigger] byte_bit(r@, i),
{
    let n = frames.len();
    let ghost fl = written_frame_len(plan@, sign);
    let ghost views = written_views(frames@);
    proof {
        assert forall|k: int| 0 <= k < views.len() implies (#[trigger] views[k]).0.len() == plan@.len() by {
            assert(frames@[k].0@.len() == plan@.len());
        }
        lemma_packed_float_bits_len(plan@, views, sign);
        if n > 0 {
            assert(n * fl <= n * bit_count) by (nonlinear_arith)
                requires fl <= bit_count;
            assert(bit_count <= n * bit_count) by (nonlinear_arith)
                requires n > 0;
        }
    }
    let total: usize = if n == 0 { 0 } else { n * (bit_count as usize) };
    let mut bits = BitBuffer::new();
    bits.resize(total, false);
    let mut writer = BitWriter::new(bits);
    let ghost zeros = writer@.0;
    let mut k: usize = 0;
    while k < n
        invariant
            n == frames@.len(),
            views == written_views(frames@),
            total == n * bit_count,
            fl == written_frame_len(plan@, sign),
            n > 0 ==> fl <= bit_count,
            forall|j: int| 0 <= j < plan@.len() ==> (#[trigger] plan@[j]).bit_count <= 32,
            forall|m: int| 0 <= m < frames@.len() ==> (#[trigger] frames@[m]).0@.len() == plan@.len(),
            forall|m: int| 0 <= m < views.len() ==> (#[trigger] views[m]).0.len() == plan@.len(),
            zeros.len() == total,
            forall|i: int| 0 <= i < total ==> !#[trigger] zeros[i],
            k <= n,
            writer@.0 == splice_bits(zeros, 0, packed_float_bits(plan@, views.take(k as int), sign)),
            writer@.1 == k * fl,
            writer.head() == 0,
            writer.padding_clear(),
        decreases n - k,
    {
        proof {
            assert(views.take(k + 1).drop_last() =~= views.take(k as int));
            assert(views.take(k as int).len() == k);
            assert forall|m: int| 0 <= m < views.take(k as int).len() implies (#[trigger] views.take(k as int)[m]).0.len() == plan@.len() by {
                assert(views.take(k as int)[m] == views[m]);
            }
            lemma_packed_float_bits_len(plan@, views.take(k as int), sign);
            assert((k + 1) * fl <= n * fl) by (nonlinear_arith)
                requires k < n;
            assert(n * fl <= n * bit_count) by (nonlinear_arith)
                requires fl <= bit_count;
            assert((k + 1) * fl == k * fl + fl) by (nonlinear_arith);
        }
        compress_frame(&mut writer, plan, &frames[k].0, sign, frames[k].1);
        proof {
            assert(views.take(k + 1).last() == views[k as int]);
            lemma_code_bits_len(plan@, views[k as int].0);
            lemma_splice_twice(zeros, 0, packed_float_bits(plan@, views.take(k as int), sign), written_frame_bits(plan@, views[k as int], sign));
        }
        k = k + 1;
    }
    proof {
        assert(views.take(n as int) =~= views);
    }
    let ghost written = writer@.0;
    let r = writer.into_bytes();
    proof {
        let packed = packed_float_bits(plan@, views, sign);
        assert(packed.len() == n * fl);
        assert forall|i: int| 0 <= i < packed.len() implies #[trigger] byte_bit(r@, i) == packed[i] by {
            assert(byte_bit(r@, 0 + i) == written[i]);
        }
        assert forall|i: int| packed.len() <= i < 8 * r@.len() implies !#[trigger] byte_bit(r@, i) by {
            if i < n * bit_count {
                assert(byte_bit(r@, 0 + i) == written[i]);
                assert(written[i] == zeros[i]);
            }
        }
    }
    r
}

/// Each compression writes bits only when its range holds more than one value, so that
/// reading takes exactly the bits that writing gives.
pub open spec fn writes_stored_codes(plan: Seq<F32Compression>) -> bool {
    forall|j: int| 0 <= j < plan.len() ==> (#[trigger] plan[j]).bit_count <= 32
        && (plan[j].bit_count != 0 ==> !f32_bits_eq(plan[j].min, plan[j].max))
}

/// Each code fits in the bits of its compression.
pub open spec fn codes_fit(plan: Seq<F32Compression>, codes: Seq<u32>) -> bool {
    &&& codes.len() == plan.len()
    &&& forall|j: int| 0 <= j < plan.len() ==> (#[trigger] codes[j]) < pow2(plan[j].bit_count as nat)
}

/// The codes that reading gives for written codes: the code of each compression that
/// stores one, and none for the others.
pub open spec fn stored_codes(plan: Seq<F32Compression>, codes: Seq<u32>) -> Seq<Option<u32>> {
    Seq::new(plan.len(), |j: int| if stores_code(plan[j]) { Some(codes[j]) } else { None })
}

proof fn lemma_plan_bits_written(plan: Seq<F32Compression>, j: int)
    requires
        0 <= j <= plan.len(),
        writes_stored_codes(plan),
    ensures
        plan_bits(plan, j) == written_plan_bits(plan, j),
    decreases j,
{
    if j > 0 {
        lemma_plan_bits_written(plan, j - 1);
        assert(plan[j - 1].bit_count <= 32);
    }
}

/// The code of compression `j` takes the bits from `written_plan_bits(plan, j)` on.
proof fn lemma_code_bits_at(plan: Seq<F32Compression>, codes: Seq<u32>, j: int)
    requires
        codes.len() <= plan.len(),
        0 <= j < codes.len(),
    ensures
        code_bits(plan, codes).subrange(written_plan_bits(plan, j) as int, written_plan_bits(plan, j + 1) as int)
            == low_bits(codes[j] as nat, plan[j].bit_count as nat),
    decreases codes.len(),
{
    lemma_code_bits_len(plan, codes.drop_last());
    if j == codes.len() - 1 {
        assert(code_bits(plan, codes).subrange(written_plan_bits(plan, j) as int, written_plan_bits(plan, j + 1) as int)
            =~= low_bits(codes[j] as nat, plan[j].bit_count as nat));
    } else {
        lemma_code_bits_at(plan, codes.drop_last(), j);
        lemma_written_plan_bits_monotonic(plan, j + 1, codes.len() - 1);
        assert(code_bits(plan, codes).subrange(written_plan_bits(plan, j) as int, written_plan_bits(plan, j + 1) as int)
            =~= code_bits(plan, codes.drop_last()).subrange(written_plan_bits(plan, j) as int, written_plan_bits(plan, j + 1) as int));
    }
}

/// Written frame `k` takes the bits from `k * written_frame_len(plan, sign)` on.
proof fn lemma_packed_frame_at(plan: Seq<F32Compression>, frames: Seq<(Seq<u32>, bool)>, sign: bool, k: int)
    requires
        forall|m: int| 0 <= m < frames.len() ==> (#[trigger] frames[m]).0.len() == plan.len(),
        0 <= k < frames.len(),
    ensures
        packed_float_bits(plan, frames, sign).subrange(k * written_frame_len(plan, sign), (k + 1) * written_frame_len(plan, sign))
            == written_frame_bits(plan, frames[k], sign),
    decreases frames.len(),
{
    let fl = written_frame_len(plan, sign);
    let prefix = frames.drop_last();
    assert forall|m: int| 0 <= m < prefix.len() implies (#[trigger] prefix[m]).0.len() == plan.len() by {
        assert(prefix[m] == frames[m]);
    }
    lemma_packed_float_bits_len(plan, prefix, sign);
    lemma_code_bits_len(plan, frames.last().0);
    assert((k + 1) * fl == k * fl + fl) by (nonlinear_arith);
    if k == frames.len() - 1 {
        assert(packed_float_bits(plan, frames, sign).subrange(k * fl, (k + 1) * fl) =~= written_frame_bits(plan, frames[k], sign));
    } else {
        lemma_packed_frame_at(plan, prefix, sign, k);
        assert((k + 1) * fl <= prefix.len() * fl) by (nonlinear_arith)
            requires k + 1 <= prefix.len(), fl >= 0;
        assert(packed_float_bits(plan, frames, sign).subrange(k * fl, (k + 1) * fl)
            =~= packed_float_bits(plan, prefix, sign).subrange(k * fl, (k + 1) * fl));
    }
}

/// Reading written codes gives back, for each frame, the code of each compression that
/// stores one and the frame's sign bit, whatever bits follow the written ones. Each
/// compression must write bits only when its range holds more than one value, as reading
/// skips the others, and each code must fit in its bits.
pub proof fn lemma_packed_codes_roundtrip(plan: Seq<F32Compression>, frames: Seq<(Seq<u32>, bool)>, sign: bool, bits: Seq<bool>)
    requires
        writes_stored_codes(plan),
        forall|k: int| 0 <= k < frames.len() ==> codes_fit(plan, (#[trigger] frames[k]).0),
        packed_float_bits(plan, frames, sign).len() <= bits.len(),
        bits.subrange(0, packed_float_bits(plan, frames, sign).len() as int) == packed_float_bits(plan, frames, sign),
    ensures
        frames_match(Seq::new(frames.len(), |k: int| (stored_codes(plan, frames[k].0), sign && frames[k].1)), bits, plan, sign, frames.len()),
{
    let packed = packed_float_bits(plan, frames, sign);
    let fb = frame_bits(plan, sign);
    let n = plan.len() as int;
    assert forall|m: int| 0 <= m < frames.len() implies (#[trigger] frames[m]).0.len() == plan.len() by {
        assert(codes_fit(plan, frames[m].0));
    }
    lemma_packed_float_bits_len(plan, frames, sign);
    lemma_plan_bits_written(plan, n);
    assert(fb == written_frame_len(plan, sign));
    let decoded = Seq::new(frames.len(), |k: int| (stored_codes(plan, frames[k].0), sign && frames[k].1));
    assert forall|k: int| 0 <= k < frames.len() implies {
        let start = (k * fb) as nat;
        &&& (#[trigger] decoded[k]).0 == frame_codes(bits, start, plan)
        &&& decoded[k].1 == (sign && bits[(start + plan_bits(plan, n)) as int])
    } by {
        let start = (k * fb) as nat;
        let codes = frames[k].0;
        assert(codes_fit(plan, codes));
        lemma_packed_frame_at(plan, frames, sign, k);
        lemma_code_bits_len(plan, codes);
        assert((k + 1) * fb == k * fb + fb) by (nonlinear_arith);
        assert((k + 1) * fb <= frames.len() * fb) by (nonlinear_arith)
            requires k + 1 <= frames.len(), fb >= 0;
        assert(k * fb >= 0) by (nonlinear_arith)
            requires k >= 0, fb >= 0;
        let frame = bits.subrange(start as int, (start + fb) as int);
        assert(frame =~= written_frame_bits(plan, frames[k], sign)) by {
            assert(frame =~= packed.subrange(k * fb, (k + 1) * fb));
        }
        assert forall|j: int| 0 <= j < n implies #[trigger] frame_codes(bits, start, plan)[j] == stored_codes(plan, codes)[j] by {
            lemma_plan_bits_written(plan, j);
            lemma_plan_bits_written(plan, j + 1);
            lemma_written_plan_bits_monotonic(plan, j + 1, n);
            lemma_code_bits_at(plan, codes, j);
            let lo = start + plan_bits(plan, j);
            let hi = start + plan_bits(plan, j + 1);
            assert(bits.subrange(lo as int, hi as int) =~= code_bits(plan, codes).subrange(written_plan_bits(plan, j) as int, written_plan_bits(plan, j + 1) as int)) by {
                assert(bits.subrange(lo as int, hi as int) =~= frame.subrange(plan_bits(plan, j) as int, plan_bits(plan, j + 1) as int));
            }
            if stores_code(plan[j]) {
                lemma_low_bits_value(codes[j] as nat, plan[j].bit_count as nat);
                assert(codes[j] < pow2(plan[j].bit_count as nat));
                assert((codes[j] as nat) % pow2(plan[j].bit_count as nat) == codes[j]) by {
                    vstd::arithmetic::div_mod::lemma_small_mod(codes[j] as nat, pow2(plan[j].bit_count as nat));
                }
            }
        }
        assert(frame_codes(bits, start, plan) =~= stored_codes(plan, codes));
        if sign {
            assert(bits[(start + plan_bits(plan, n)) as int] == frame[plan_bits(plan, n) as int]);
            assert(frame[plan_bits(plan, n) as int] == frames[k].1);
        }
    }
}

/// The compressions whose codes each written frame holds, as indices into the track's
/// compressions: a transform writes the scale that the flags select (all three components,
/// only x for uniform scale, or none), the rotation when the flags store one and the
/// translation when they store one; the other kinds write every component.
pub open spec fn write_plan_indices(kind: FloatTrackKind, flags: CompressionFlags) -> Seq<usize> {
    match kind {
        FloatTrackKind::UvTransform => seq![0usize, 1, 2, 3, 4],
        FloatTrackKind::Transform => {
            let scale: Seq<usize> = match flags.scale_type {
                ScaleType::Scale | ScaleType::ScaleNoInheritance => seq![0usize, 1, 2],
                ScaleType::UniformScale => seq![0usize],
                ScaleType::NoScale => Seq::<usize>::empty(),
            };
            let rotation: Seq<usize> = if flags.has_rotation { seq![3usize, 4, 5] } else { Seq::<usize>::empty() };
            let translation: Seq<usize> = if flags.has_translation { seq![6usize, 7, 8] } else { Seq::<usize>::empty() };
            scale + rotation + translation
        },
        _ => plan_indices(kind, flags),
    }
}

/// The compressions of the written floats in order.
pub open spec fn write_plan_of(kind: FloatTrackKind, flags: CompressionFlags, c: Seq<F32Compression>) -> Seq<F32Compression> {
    write_plan_indices(kind, flags).map_values(|i: usize| c[i as int])
}

/// `h` is the header of a track of this kind created from the default value, the
/// compressions and the codes and sign bits of each frame: the flags and default value
/// given, the bits per entry that the compressions and flags call for, the frame count,
/// and a buffer of `bits_per_entry` bits per frame, rounded up to whole bytes, holding the
/// written frames one after another, its other bits cleared.
pub open spec fn created_float_track(
    kind: FloatTrackKind,
    flags: CompressionFlags,
    defaults: Seq<u32>,
    c: Seq<F32Compression>,
    frames: Seq<(Seq<u32>, bool)>,
    h: CompressedHeader<Vec<u32>>,
) -> bool {
    let bit_count = float_track_bit_count(kind, c, flags);
    let packed = packed_float_bits(write_plan_of(kind, flags, c), frames, has_sign(kind, flags));
    &&& h.unk_4 == 4
    &&& h.flags == flags
    &&& h.default_data matches Some(d) && d@ == defaults
    &&& h.bits_per_entry == bit_count
    &&& h.frame_count == frames.len() as u32
    &&& h.compressed_data matches Some(buffer) && {
        &&& buffer@.len() == (frames.len() * bit_count + 7) / 8
        &&& packed.len() <= frames.len() * bit_count
        &&& forall|i: int| 0 <= i < packed.len() ==> #[trigger] byte_bit(buffer@, i) == packed[i]
        &&& forall|i: int| packed.len() <= i < 8 * buffer@.len() ==> !#[trigger] byte_bit(buffer@, i)
    }
}

/// The indices of the compressions whose codes each written frame holds, in order.
pub fn write_plan_index_list(kind: FloatTrackKind, flags: CompressionFlags) -> (r: Vec<usize>)
    ensures
        r@ == write_plan_indices(kind, flags),
{
    let mut idx: Vec<usize> = Vec::new();
    match kind {
        FloatTrackKind::Float => {
            idx.push(0);
        },
        FloatTrackKind::Vector4 => {
            idx.push(0);
            idx.push(1);
            idx.push(2);
            idx.push(3);
        },
        FloatTrackKind::UvTransform => {
            idx.push(0);
            idx.push(1);
            idx.push(2);
            idx.push(3);
            idx.push(4);
        },
        FloatTrackKind::Transform => {
            match flags.scale_type {
                ScaleType::Scale | ScaleType::ScaleNoInheritance => {
                    idx.push(0);
                    idx.push(1);
                    idx.push(2);
                },
                ScaleType::UniformScale => {
                    idx.push(0);
                },
                ScaleType::NoScale => {},
            }
            if flags.has_rotation {
                idx.push(3);
                idx.push(4);
                idx.push(5);
            }
            if flags.has_translation {
                idx.push(6);
                idx.push(7);
                idx.push(8);
            }
        },
    }
    proof {
        assert(idx@ =~= write_plan_indices(kind, flags));
    }
    idx
}

/// The compressions of the written floats.
fn write_plan(kind: FloatTrackKind, flags: CompressionFlags, c: &Vec<F32Compression>) -> (r: Vec<F32Compression>)
    requires
        c@.len() == compression_count(kind),
    ensures
        r@ == write_plan_of(kind, flags, c@),
{
    let idx = write_plan_index_list(kind, flags);
    let mut plan: Vec<F32Compression> = Vec::new();
    let mut j: usize = 0;
    while j < idx.len()
        invariant
            idx@ == write_plan_indices(kind, flags),
            c@.len() == compression_count(kind),
            forall|m: int| 0 <= m < idx@.len() ==> #[trigger] idx@[m] < c@.len(),
            j <= idx@.len(),
            plan@ =~= write_plan_of(kind, flags, c@).take(j as int),
        decreases idx@.len() - j,
    {
        plan.push(c[idx[j]]);
        j = j + 1;
    }
    proof {
        assert(write_plan_of(kind, flags, c@).take(j as int) =~= write_plan_of(kind, flags, c@));
    }
    plan
}

/// The bits that each written frame of a track of this kind takes: the bit count of each
/// written compression, and the sign bit of a transform whose flags store a rotation.
pub fn written_frame_bit_count(kind: FloatTrackKind, flags: CompressionFlags, compressions: &Vec<F32Compression>) -> (r: u64)
    requires
        compressions@.len() == compression_count(kind),
        forall|j: int| 0 <= j < compressions@.len() ==> (#[trigger] compressions@[j]).bit_count <= 32,
    ensures
        r == written_frame_len(write_plan_of(kind, flags, compressions@), has_sign(kind, flags)),
{
    let plan = write_plan(kind, flags, compressions);
    let mut total: u64 = 0;
    let mut j: usize = 0;
    while j < plan.len()
        invariant
            plan@ == write_plan_of(kind, flags, compressions@),
            plan@.len() <= 9,
            forall|m: int| 0 <= m < compressions@.len() ==> (#[trigger] compressions@[m]).bit_count <= 32,
            forall|m: int| 0 <= m < plan@.len() ==> (#[trigger] plan@[m]).bit_count <= 32,
            j <= plan@.len(),
            total == written_plan_bits(plan@, j as int),
            total <= 32 * j,
        decreases plan@.len() - j,
    {
        total = total + plan[j].bit_count;
        j = j + 1;
    }
    if kind == FloatTrackKind::Transform && flags.has_rotation {
        total + 1
    } else {
        total
    }
}

/// Creates the header of a compressed track of this kind from its default value, its
/// compressions and the codes and sign bits of each frame: the codes of the compressions
/// that the kind and flags write, in order, and the sign of the rotation's w component,
/// which a transform writes when the flags store a rotation.
pub fn create_compressed_float_track(
    kind: FloatTrackKind,
    flags: CompressionFlags,
    defaults: &Vec<u32>,
    compressions: &Vec<F32Compression>,
    frames: &Vec<(Vec<u32>, bool)>,
) -> (r: CompressedHeader<Vec<u32>>)
    requires
        defaults@.len() == default_word_count(kind),
        compressions@.len() == compression_count(kind),
        forall|j: int| 0 <= j < compressions@.len() ==> (#[trigger] compressions@[j]).bit_count <= 32,
        forall|k: int| 0 <= k < frames@.len() ==> (#[trigger] frames@[k]).0@.len() == write_plan_indices(kind, flags).len(),
        frames@.len() * float_track_bit_count(kind, compressions@, flags) <= max_bit_count(),
        frames@.len() > 0 ==> written_frame_len(write_plan_of(kind, flags, compressions@), has_sign(kind, flags))
            <= float_track_bit_count(kind, compressions@, flags),
    ensures
        created_float_track(kind, flags, defaults@, compressions@, written_views(frames@), r),
{
    let bit_count = track_bit_count(kind, compressions, flags);
    let plan = write_plan(kind, flags, compressions);
    proof {
        assert forall|j: int| 0 <= j < plan@.len() implies (#[trigger] plan@[j]).bit_count <= 32 by {
            assert(plan@[j] == compressions@[write_plan_indices(kind, flags)[j] as int]);
        }
    }
    let sign = kind == FloatTrackKind::Transform && flags.has_rotation;
    let buffer = create_compressed_buffer_floats(frames, &plan, sign, bit_count);
    CompressedHeader {
        unk_4: 4,
        flags,
        default_data: Some(defaults.clone()),
        bits_per_entry: bit_count as u16,
        compressed_data: Some(buffer),
        frame_count: #[verifier::truncate] (frames.len() as u32),
    }
}

/// Decoding a created track gives back what was written: frame `k` decodes to the written
/// code of each compression that stores one, the default of each other component, and the
/// written sign, and the buffer holds the bits that decoding all frames reads. This holds
/// for flags under which writing stores the compressions that reading takes, with each
/// compression writing bits only when its range holds more than one value and each code
/// fitting in its bits.
pub proof fn lemma_created_float_track_roundtrip(
    kind: FloatTrackKind,
    flags: CompressionFlags,
    defaults: Seq<u32>,
    c: Seq<F32Compression>,
    frames: Seq<(Seq<u32>, bool)>,
    h: CompressedHeader<Vec<u32>>,
)
    requires
        created_float_track(kind, flags, defaults, c, frames, h),
        defaults.len() == default_word_count(kind),
        c.len() == compression_count(kind),
        write_plan_indices(kind, flags) == plan_indices(kind, flags),
        writes_stored_codes(plan_of(kind, flags, c)),
        forall|k: int| 0 <= k < frames.len() ==> codes_fit(plan_of(kind, flags, c), (#[trigger] frames[k]).0),
    ensures
        h.compressed_data matches Some(buffer) && {
            let bits = bytes_to_bits(buffer@);
            let plan = plan_of(kind, flags, c);
            let expected = float_track_bit_count(kind, c, flags);
            let count = decoded_count(expected, frames.len());
            &&& count * frame_bits(plan, has_sign(kind, flags)) <= bits.len()
            &&& !sign_bit_past_end(kind, flags, c, bits, count)
            &&& forall|k: int| 0 <= k < frames.len() ==> #[trigger] frame_value(kind, flags, c, defaults, bits, k)
                == assemble(kind, flags, read_values(plan, stored_codes(plan, frames[k].0), plan_defaults_of(kind, flags, defaults)),
                    has_sign(kind, flags) && frames[k].1, defaults)
        },
{
    let plan = plan_of(kind, flags, c);
    let sign = has_sign(kind, flags);
    let expected = float_track_bit_count(kind, c, flags);
    let n = frames.len();
    let buffer = h.compressed_data->Some_0;
    let bits = bytes_to_bits(buffer@);
    let packed = packed_float_bits(plan, frames, sign);
    assert(write_plan_of(kind, flags, c) == plan);
    let fb = frame_bits(plan, sign);
    assert forall|m: int| 0 <= m < frames.len() implies (#[trigger] frames[m]).0.len() == plan.len() by {
        assert(codes_fit(plan, frames[m].0));
    }
    lemma_packed_float_bits_len(plan, frames, sign);
    lemma_plan_bits_written(plan, plan.len() as int);
    assert(fb == written_frame_len(plan, sign));
    assert(bits.len() >= n * expected) by {
        assert(buffer@.len() * 8 >= n * expected) by (nonlinear_arith)
            requires buffer@.len() == (n * expected + 7) / 8, n * expected >= 0;
    }
    assert(bits.subrange(0, packed.len() as int) =~= packed) by {
        assert forall|i: int| 0 <= i < packed.len() implies bits.subrange(0, packed.len() as int)[i] == packed[i] by {
            assert(byte_bit(buffer@, i) == packed[i]);
        }
    }
    lemma_packed_codes_roundtrip(plan, frames, sign, bits);
    let decoded = Seq::new(frames.len(), |k: int| (stored_codes(plan, frames[k].0), sign && frames[k].1));
    assert forall|k: int| 0 <= k < frames.len() implies #[trigger] frame_value(kind, flags, c, defaults, bits, k)
        == assemble(kind, flags, read_values(plan, stored_codes(plan, frames[k].0), plan_defaults_of(kind, flags, defaults)),
            sign && frames[k].1, defaults) by {
        assert(decoded[k].0 == frame_codes(bits, (k * fb) as nat, plan));
    }
    let count = decoded_count(expected, n);
    assert(count * fb <= n * fb) by {
        if expected == 0 && n > 0 {
            assert(n * fb <= n * expected);
            assert(n * expected == 0) by (nonlinear_arith)
                requires expected == 0;
            assert(fb == 0) by (nonlinear_arith)
                requires n > 0, n * fb <= 0, fb >= 0;
            assert(count * fb == 0) by (nonlinear_arith)
                requires fb == 0;
        } else {
            assert(count == n);
        }
    }
    if sign {
        assert forall|k: int| 0 <= k < count implies #[trigger] sign_position(plan, true, k) != bits.len() by {
            assert((k + 1) * fb <= count * fb) by (nonlinear_arith)
                requires k + 1 <= count, fb >= 0;
            assert((k + 1) * fb == k * fb + fb) by (nonlinear_arith);
        }
    }
}

} // verus!
