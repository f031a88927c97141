//! Building the buffers of version 1.2 animations: the track kind of each group, the
//! constant and stream formats of property values, and the checks on an animation's
//! version and final frame.
use vstd::prelude::*;
use crate::anim_data::{GroupType, UvTransform};
use crate::anim_data::buffers::uncompressed::{lemma_words_le_bytes_word, push_words_le, uv_transform_words, uv_words, words_le_bytes};
use crate::anim_data::error::Error;
use crate::anim_data::v1::common::le_u32_at;
use crate::anim_data::v1::properties::TrackTypeV1;
use crate::anim_data::v1::rotate_basic::{Layout4300, layout_4300_of};
use crate::bytes::{u16_le_bytes, u32_le_bytes, push_u16_le, push_u32_le, lemma_u32_le_roundtrip};
use crate::float_bits::{F32_ONE_BITS, f32_bits_is_nan, f32_bits_is_zero};

verus! {

/// The kind of version 1.2 track that stores the tracks of a group: transforms for
/// transform groups and any group without a version 1.2 kind, visibility for visibility
/// groups and texture transforms for material groups.
pub open spec fn v12_track_type_of(group_type: GroupType) -> TrackTypeV1 {
    match group_type {
        GroupType::Transform => TrackTypeV1::Transform,
        GroupType::Visibility => TrackTypeV1::Visibility,
        GroupType::Material => TrackTypeV1::UvTransform,
        GroupType::Camera => TrackTypeV1::Transform,
    }
}

/// The kind of version 1.2 track that stores the tracks of a group of `group_type`.
pub fn v12_track_type(group_type: GroupType) -> (r: TrackTypeV1)
    ensures
        r == v12_track_type_of(group_type),
{
    match group_type {
        GroupType::Transform => TrackTypeV1::Transform,
        GroupType::Visibility => TrackTypeV1::Visibility,
        GroupType::Material => TrackTypeV1::UvTransform,
        GroupType::Camera => TrackTypeV1::Transform,
    }
}

/// Property data holding a single value: the format code, then the value's words.
pub fn v12_constant_data(code: u32, words: &[u32]) -> (r: Vec<u8>)
    ensures
        r@ == u32_le_bytes(code) + words_le_bytes(words@),
{
    let mut data: Vec<u8> = Vec::new();
    push_u32_le(&mut data, code);
    let mut values: Vec<u32> = Vec::new();
    let mut i: usize = 0;
    while i < words.len()
        invariant
            i <= words@.len(),
            values@ == words@.take(i as int),
        decreases words@.len() - i,
    {
        values.push(words[i]);
        i = i + 1;
        proof {
            assert(values@ =~= words@.take(i as int));
        }
    }
    proof {
        assert(words@.take(words@.len() as int) =~= words@);
    }
    push_words_le(&mut data, &values);
    data
}

/// Property data holding a single 16-bit integer: the format code `0x1013`, then the value.
pub fn v12_uint_data(value: u16) -> (r: Vec<u8>)
    ensures
        r@ == u32_le_bytes(0x1013) + u16_le_bytes(value),
{
    let mut data: Vec<u8> = Vec::new();
    push_u32_le(&mut data, 0x1013u32);
    push_u16_le(&mut data, value);
    data
}

/// The words of three-component vectors in order.
pub open spec fn vector3_words(values: Seq<[u32; 3]>) -> Seq<u32> {
    Seq::new(values.len() * 3, |j: int| values[j / 3]@[j % 3])
}

/// The words of four-component vectors in order.
pub open spec fn vector4_words(values: Seq<[u32; 4]>) -> Seq<u32> {
    Seq::new(values.len() * 4, |j: int| values[j / 4]@[j % 4])
}

/// The 0x3400 stream of vectors: the code, the frame count, the float `1.0`, then a vector
/// of three floats per frame.
pub open spec fn v12_vector3_stream_bytes(values: Seq<[u32; 3]>) -> Seq<u8> {
    u32_le_bytes(0x3400) + u32_le_bytes(values.len() as u32) + u32_le_bytes(F32_ONE_BITS)
        + words_le_bytes(vector3_words(values))
}

/// A vector stream written in the 0x3400 format reads back with the format code, the frame
/// count and each vector's words where the stream decoder reads them: after the 12-byte
/// header, twelve bytes per frame.
pub proof fn lemma_vector3_stream_roundtrip(values: Seq<[u32; 3]>)
    requires
        values.len() <= u32::MAX,
    ensures
        ({
            let b = v12_vector3_stream_bytes(values);
            let n = values.len() as int;
            &&& b.len() == 12 + 12 * n
            &&& le_u32_at(b, 0) == 0x3400
            &&& le_u32_at(b, 4) == n
            &&& forall|i: int, c: int| 0 <= i < n && 0 <= c < 3 ==> #[trigger] le_u32_at(b, 12 + 12 * i + 4 * c) == values[i]@[c]
        }),
{
    let n = values.len() as int;
    let b = v12_vector3_stream_bytes(values);
    let head = u32_le_bytes(0x3400) + u32_le_bytes(values.len() as u32) + u32_le_bytes(F32_ONE_BITS);
    let words = vector3_words(values);
    assert(b == head + words_le_bytes(words));
    assert(words.len() == 3 * n);
    assert(b.len() == 12 + 12 * n);
    lemma_u32_le_roundtrip(0x3400);
    lemma_u32_le_roundtrip(values.len() as u32);
    assert(b[0] == head[0] && b[1] == head[1] && b[2] == head[2] && b[3] == head[3]);
    assert(b[4] == head[4] && b[5] == head[5] && b[6] == head[6] && b[7] == head[7]);
    assert forall|i: int, c: int| 0 <= i < n && 0 <= c < 3 implies #[trigger] le_u32_at(b, 12 + 12 * i + 4 * c) == values[i]@[c] by {
        let j = 3 * i + c;
        lemma_words_le_bytes_word(words, j);
        let wb = words_le_bytes(words);
        assert(12 + 12 * i + 4 * c == 12 + 4 * j);
        assert(b[12 + 4 * j] == wb[4 * j]);
        assert(b[12 + 4 * j + 1] == wb[4 * j + 1]);
        assert(b[12 + 4 * j + 2] == wb[4 * j + 2]);
        assert(b[12 + 4 * j + 3] == wb[4 * j + 3]);
        lemma_block_index(j, i, 3);
    }
}

/// A quaternion stream written in the 0x4300 format reads back as a stream of every frame
/// after its 16-byte header, with the format code, the frame count and each quaternion's
/// words where it was written.
pub proof fn lemma_quaternion_stream_layout(values: Seq<[u32; 4]>)
    requires
        values.len() <= u32::MAX,
    ensures
        ({
            let b = v12_quaternion_stream_bytes(values);
            let n = values.len() as int;
            &&& b.len() == 16 + 16 * n
            &&& le_u32_at(b, 0) == 0x4300
            &&& le_u32_at(b, 4) == n
            &&& layout_4300_of(b.len() as int, n) == Some(Layout4300::Raw(16))
            &&& forall|i: int, c: int| 0 <= i < n && 0 <= c < 4 ==> #[trigger] le_u32_at(b, 16 + 16 * i + 4 * c) == values[i]@[c]
        }),
{
    let n = values.len() as int;
    let b = v12_quaternion_stream_bytes(values);
    let head = u32_le_bytes(0x4300) + u32_le_bytes(values.len() as u32) + u32_le_bytes(F32_ONE_BITS) + u32_le_bytes(0);
    let words = vector4_words(values);
    assert(b == head + words_le_bytes(words));
    assert(words.len() == 4 * n);
    assert(b.len() == 16 + 16 * n);
    lemma_u32_le_roundtrip(0x4300);
    lemma_u32_le_roundtrip(values.len() as u32);
    assert(b[0] == head[0] && b[1] == head[1] && b[2] == head[2] && b[3] == head[3]);
    assert(b[4] == head[4] && b[5] == head[5] && b[6] == head[6] && b[7] == head[7]);
    assert forall|i: int, c: int| 0 <= i < n && 0 <= c < 4 implies #[trigger] le_u32_at(b, 16 + 16 * i + 4 * c) == values[i]@[c] by {
        let j = 4 * i + c;
        lemma_words_le_bytes_word(words, j);
        let wb = words_le_bytes(words);
        assert(16 + 16 * i + 4 * c == 16 + 4 * j);
        assert(b[16 + 4 * j] == wb[4 * j]);
        assert(b[16 + 4 * j + 1] == wb[4 * j + 1]);
        assert(b[16 + 4 * j + 2] == wb[4 * j + 2]);
        assert(b[16 + 4 * j + 3] == wb[4 * j + 3]);
        lemma_block_index(j, i, 4);
    }
}

/// Index `j` lies in block `j / n` of blocks of `n`.
proof fn lemma_block_of(j: int, n: int)
    requires
        n > 0,
        j >= 0,
    ensures
        (j / n) * n <= j < (j / n) * n + n,
        j % n == j - (j / n) * n,
{
    vstd::arithmetic::div_mod::lemma_fundamental_div_mod(j, n);
    vstd::arithmetic::div_mod::lemma_mod_pos_bound(j, n);
    vstd::arithmetic::mul::lemma_mul_is_commutative(n, j / n);
}

/// Index `j` lies in block `i` of blocks of `n`.
proof fn lemma_block_index(j: int, i: int, n: int)
    requires
        n > 0,
        i * n <= j < i * n + n,
    ensures
        j / n == i,
        j % n == j - i * n,
{
    vstd::arithmetic::div_mod::lemma_fundamental_div_mod_converse(j, n, i, j - i * n);
}

/// The words of the vectors, three for each.
fn flatten_vector3(values: &[[u32; 3]]) -> (r: Vec<u32>)
    ensures
        r@ == vector3_words(values@),
{
    let mut words: Vec<u32> = Vec::new();
    let mut i: usize = 0;
    while i < values.len()
        invariant
            i <= values@.len(),
            words@ =~= Seq::new((i * 3) as nat, |j: int| values@[j / 3]@[j % 3]),
        decreases values@.len() - i,
    {
        let v = values[i];
        let ghost before = words@;
        words.push(v[0]);
        words.push(v[1]);
        words.push(v[2]);
        proof {
            assert forall|j: int| 0 <= j < (i + 1) * 3 implies #[trigger] words@[j] == values@[j / 3]@[j % 3] by {
                if j < i * 3 {
                    lemma_block_of(j, 3);
                    assert(words@[j] == before[j]);
                } else {
                    lemma_block_index(j, i as int, 3);
                }
            }
        }
        i = i + 1;
    }
    words
}

/// The words of the vectors, four for each.
fn flatten_vector4(values: &[[u32; 4]]) -> (r: Vec<u32>)
    ensures
        r@ == vector4_words(values@),
{
    let mut words: Vec<u32> = Vec::new();
    let mut i: usize = 0;
    while i < values.len()
        invariant
            i <= values@.len(),
            words@ =~= Seq::new((i * 4) as nat, |j: int| values@[j / 4]@[j % 4]),
        decreases values@.len() - i,
    {
        let v = values[i];
        let ghost before = words@;
        words.push(v[0]);
        words.push(v[1]);
        words.push(v[2]);
        words.push(v[3]);
        proof {
            assert forall|j: int| 0 <= j < (i + 1) * 4 implies #[trigger] words@[j] == values@[j / 4]@[j % 4] by {
                if j < i * 4 {
                    lemma_block_of(j, 4);
                    assert(words@[j] == before[j]);
                } else {
                    lemma_block_index(j, i as int, 4);
                }
            }
        }
        i = i + 1;
    }
    words
}

/// Writes vectors, one per frame, in the 0x3400 stream format.
pub fn v12_vector3_stream_data(values: &[[u32; 3]]) -> (r: Vec<u8>)
    ensures
        r@ == v12_vector3_stream_bytes(values@),
{
    let mut data: Vec<u8> = Vec::new();
    push_u32_le(&mut data, 0x3400u32);
    push_u32_le(&mut data, #[verifier::truncate] (values.len() as u32));
    push_u32_le(&mut data, F32_ONE_BITS);
    let words = flatten_vector3(values);
    push_words_le(&mut data, &words);
    proof {
        assert(data@ =~= v12_vector3_stream_bytes(values@));
    }
    data
}


/// The 0x4300 stream of quaternions: the code, the frame count, the floats `1.0` and
/// `0.0`, then a quaternion per frame.
pub open spec fn v12_quaternion_stream_bytes(values: Seq<[u32; 4]>) -> Seq<u8> {
    u32_le_bytes(0x4300) + u32_le_bytes(values.len() as u32) + u32_le_bytes(F32_ONE_BITS) + u32_le_bytes(0)
        + words_le_bytes(vector4_words(values))
}

/// Writes quaternions, one per frame, in the 0x4300 stream format.
pub fn v12_quaternion_stream_data(values: &[[u32; 4]]) -> (r: Vec<u8>)
    ensures
        r@ == v12_quaternion_stream_bytes(values@),
{
    let mut data: Vec<u8> = Vec::new();
    push_u32_le(&mut data, 0x4300u32);
    push_u32_le(&mut data, #[verifier::truncate] (values.len() as u32));
    push_u32_le(&mut data, F32_ONE_BITS);
    push_u32_le(&mut data, 0u32);
    let words = flatten_vector4(values);
    push_words_le(&mut data, &words);
    proof {
        assert(data@ =~= v12_quaternion_stream_bytes(values@));
    }
    data
}

/// The 0x5019 stream of texture transforms: the code, the frame count, then a texture
/// transform per frame.
pub open spec fn v12_uv_stream_bytes(values: Seq<UvTransform>) -> Seq<u8> {
    u32_le_bytes(0x5019) + u32_le_bytes(values.len() as u32) + words_le_bytes(uv_words(values))
}

/// Writes texture transforms, one per frame, in the 0x5019 stream format.
pub fn v12_uv_stream_data(values: &[UvTransform]) -> (r: Vec<u8>)
    ensures
        r@ == v12_uv_stream_bytes(values@),
{
    let mut data: Vec<u8> = Vec::new();
    push_u32_le(&mut data, 0x5019u32);
    push_u32_le(&mut data, #[verifier::truncate] (values.len() as u32));
    let words = uv_transform_words(values);
    push_words_le(&mut data, &words);
    proof {
        assert(data@ =~= v12_uv_stream_bytes(values@));
    }
    data
}

/// `x >= 0.0` for the `f32` value with bit pattern `x`: zero of either sign, or a value
/// with a clear sign bit that is not NaN.
pub open spec fn f32_bits_nonnegative(x: u32) -> bool {
    !f32_bits_is_nan(x) && (x < 0x8000_0000u32 || f32_bits_is_zero(x))
}

/// The final frame index of an animation, which must not be negative (nor NaN).
/// Fails with [`Error::InvalidFinalFrameIndex`] otherwise.
pub fn checked_final_frame_index(final_frame_index: u32) -> (r: Result<u32, Error>)
    ensures
        f32_bits_nonnegative(final_frame_index) ==> r == Ok::<u32, Error>(final_frame_index),
        !f32_bits_nonnegative(final_frame_index) ==> (r matches Err(Error::InvalidFinalFrameIndex { final_frame_index: f })
            && f == final_frame_index),
{
    let nan = (final_frame_index & 0x7f80_0000u32) == 0x7f80_0000u32 && (final_frame_index & 0x007f_ffffu32) != 0;
    let zero = (final_frame_index & 0x7fff_ffffu32) == 0;
    if !nan && (final_frame_index < 0x8000_0000u32 || zero) {
        Ok(final_frame_index)
    } else {
        Err(Error::InvalidFinalFrameIndex { final_frame_index })
    }
}

/// The animation versions that can be written.
#[derive(Debug, Clone, Copy, PartialEq, Eq)]
pub enum AnimVersion {
    V12,
    V20,
    V21,
}

/// The version with the given numbers: 1.2, 2.0 or 2.1. Fails with
/// [`Error::UnsupportedVersion`] for any other.
pub fn anim_version(major_version: u16, minor_version: u16) -> (r: Result<AnimVersion, Error>)
    ensures
        (major_version, minor_version) == (1u16, 2u16) ==> r == Ok::<AnimVersion, Error>(AnimVersion::V12),
        (major_version, minor_version) == (2u16, 0u16) ==> r == Ok::<AnimVersion, Error>(AnimVersion::V20),
        (major_version, minor_version) == (2u16, 1u16) ==> r == Ok::<AnimVersion, Error>(AnimVersion::V21),
        (major_version, minor_version) != (1u16, 2u16) && (major_version, minor_version) != (2u16, 0u16)
            && (major_version, minor_version) != (2u16, 1u16)
            ==> (r matches Err(Error::UnsupportedVersion { major_version: a, minor_version: b })
                && a == major_version && b == minor_version),
{
    if major_version == 1 && minor_version == 2 {
        Ok(AnimVersion::V12)
    } else if major_version == 2 && minor_version == 0 {
        Ok(AnimVersion::V20)
    } else if major_version == 2 && minor_version == 1 {
        Ok(AnimVersion::V21)
    } else {
        Err(Error::UnsupportedVersion { major_version, minor_version })
    }
}


/// The kind of group that holds a version 1.2 track of `t`: transform tracks in transform
/// groups, texture transforms in material groups and visibility in visibility groups.
pub open spec fn group_type_v12_of(t: TrackTypeV1) -> GroupType {
    match t {
        TrackTypeV1::Transform => GroupType::Transform,
        TrackTypeV1::UvTransform => GroupType::Material,
        TrackTypeV1::Visibility => GroupType::Visibility,
    }
}

/// The kind of group that holds a version 1.2 track of `t`.
pub fn group_type_v12(t: TrackTypeV1) -> (r: GroupType)
    ensures
        r == group_type_v12_of(t),
{
    match t {
        TrackTypeV1::Transform => GroupType::Transform,
        TrackTypeV1::UvTransform => GroupType::Material,
        TrackTypeV1::Visibility => GroupType::Visibility,
    }
}

/// The positions among the first `n` tracks of the tracks that a group of `group_type` holds.
pub open spec fn track_positions(track_types: Seq<TrackTypeV1>, group_type: GroupType, n: nat) -> Seq<usize>
    decreases n,
{
    if n == 0 {
        Seq::empty()
    } else if group_type_v12_of(track_types[n - 1]) == group_type {
        track_positions(track_types, group_type, (n - 1) as nat).push((n - 1) as usize)
    } else {
        track_positions(track_types, group_type, (n - 1) as nat)
    }
}

/// No track among the first `n` goes to a group of `group_type` when none of their groups
/// has that kind.
proof fn lemma_no_positions(track_types: Seq<TrackTypeV1>, group_type: GroupType, n: nat)
    requires
        n <= track_types.len(),
        forall|i: int| 0 <= i < n ==> group_type_v12_of(#[trigger] track_types[i]) != group_type,
    ensures
        track_positions(track_types, group_type, n) == Seq::<usize>::empty(),
    decreases n,
{
    if n > 0 {
        lemma_no_positions(track_types, group_type, (n - 1) as nat);
    }
}

/// Groups version 1.2 tracks by the kind of group that holds them: one group for each kind
/// that a track needs, in the order in which the kinds first occur, each holding the
/// positions of its tracks in order.
pub fn group_tracks_v12(track_types: &[TrackTypeV1]) -> (r: (Vec<GroupType>, Vec<Vec<usize>>))
    ensures
        r.0@.len() == r.1@.len(),
        forall|g: int, h: int| 0 <= g < h < r.0@.len() ==> r.0@[g] != r.0@[h],
        forall|g: int| 0 <= g < r.0@.len() ==> (#[trigger] r.1@[g])@ == track_positions(track_types@, r.0@[g], track_types@.len()),
        forall|i: int| 0 <= i < track_types@.len() ==> r.0@.contains(group_type_v12_of(#[trigger] track_types@[i])),
{
    let mut types: Vec<GroupType> = Vec::new();
    let mut members: Vec<Vec<usize>> = Vec::new();
    let mut i: usize = 0;
    while i < track_types.len()
        invariant
            i <= track_types@.len(),
            types@.len() == members@.len(),
            forall|g: int, h: int| 0 <= g < h < types@.len() ==> types@[g] != types@[h],
            forall|g: int| 0 <= g < types@.len() ==> (#[trigger] members@[g])@ == track_positions(track_types@, types@[g], i as nat),
            forall|k: int| 0 <= k < i ==> types@.contains(group_type_v12_of(#[trigger] track_types@[k])),
        decreases track_types@.len() - i,
    {
        let t = group_type_v12(track_types[i]);
        let mut g: usize = 0;
        while g < types.len() && types[g] != t
            invariant
                g <= types@.len(),
                forall|h: int| 0 <= h < g ==> types@[h] != t,
            decreases types@.len() - g,
        {
            g = g + 1;
        }
        let ghost before_types = types@;
        let ghost before_members = members@;
        if g < types.len() {
            let mut group = members[g].clone();
            proof {
                assert(group@ =~= before_members[g as int]@);
            }
            group.push(i);
            members.set(g, group);
            proof {
                assert forall|h: int| 0 <= h < types@.len() implies (#[trigger] members@[h])@
                    == track_positions(track_types@, types@[h], (i + 1) as nat) by {
                    if h != g {
                        assert(types@[h] != t);
                    }
                }
                assert forall|k: int| 0 <= k < i + 1 implies types@.contains(group_type_v12_of(#[trigger] track_types@[k])) by {
                    if k == i {
                        assert(types@[g as int] == t);
                    }
                }
            }
        } else {
            proof {
                assert forall|k: int| 0 <= k < i implies group_type_v12_of(#[trigger] track_types@[k]) != t by {
                    assert(types@.contains(group_type_v12_of(track_types@[k])));
                }
                lemma_no_positions(track_types@, t, i as nat);
            }
            types.push(t);
            members.push(vec![i]);
            proof {
                assert forall|h: int| 0 <= h < types@.len() implies (#[trigger] members@[h])@
                    == track_positions(track_types@, types@[h], (i + 1) as nat) by {
                    if h < before_types.len() {
                        assert(types@[h] != t);
                        assert(members@[h] == before_members[h]);
                    } else {
                        assert(members@[h]@ =~= seq![i]);
                        assert(track_positions(track_types@, t, i as nat) == Seq::<usize>::empty());
                    }
                }
                assert forall|k: int| 0 <= k < i + 1 implies types@.contains(group_type_v12_of(#[trigger] track_types@[k])) by {
                    if k == i {
                        assert(types@[types@.len() - 1] == t);
                    } else {
                        assert(before_types.contains(group_type_v12_of(track_types@[k])));
                        let w = choose|w: int| 0 <= w < before_types.len() && before_types[w] == group_type_v12_of(track_types@[k]);
                        assert(types@[w] == before_types[w]);
                    }
                }
            }
        }
        i = i + 1;
    }
    (types, members)
}


/// The name of the track that holds the values of a version 1.2 track of `t`.
pub open spec fn v12_track_name_of(t: TrackTypeV1) -> Seq<char> {
    match t {
        TrackTypeV1::Transform => "Transform"@,
        TrackTypeV1::Visibility => "Visibility"@,
        TrackTypeV1::UvTransform => "UvTransform"@,
    }
}

/// The name of the track that holds the values of a version 1.2 track of `t`.
pub fn v12_track_name(t: TrackTypeV1) -> (r: String)
    ensures
        r@ == v12_track_name_of(t),
{
    match t {
        TrackTypeV1::Transform => "Transform".to_owned(),
        TrackTypeV1::Visibility => "Visibility".to_owned(),
        TrackTypeV1::UvTransform => "UvTransform".to_owned(),
    }
}

} // verus!
