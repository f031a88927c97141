//! Version 1.2 animation buffers.
pub mod assemble;
pub mod common;
pub mod create;
pub mod properties;
pub mod rotate_4409;
pub mod rotate_basic;
pub mod rotate_inferred;
pub mod translate;

use vstd::prelude::*;
use crate::bytes::{u16_le_bytes, u32_le_bytes, push_u16_le, push_u32_le};
use crate::anim_data::error::Error;
use crate::anim_data::v1::common::{le_u16_at, le_u32_at, read_u32_le};
use crate::anim_data::UvTransform;
use crate::anim_data::buffers::uncompressed::{
    lemma_words_le_bytes_word, push_words_le, uv_transform_words, uv_word, uv_words, words_le_bytes,
};
use crate::float_bits::{f32_bits_eq, f32_bits_equal};

verus! {

/// The 16-bit value that stores a boolean: `1` for `true` and `0` for `false`.
pub open spec fn bool_u16(v: bool) -> u16 {
    if v { 1u16 } else { 0u16 }
}

/// Each boolean as a little-endian 16-bit value, one after another.
pub open spec fn bools_u16_le_bytes(values: Seq<bool>) -> Seq<u8>
    decreases values.len(),
{
    if values.len() == 0 {
        Seq::<u8>::empty()
    } else {
        bools_u16_le_bytes(values.drop_last()) + u16_le_bytes(bool_u16(values.last()))
    }
}

/// Every value equals the first.
pub open spec fn all_same(values: Seq<bool>) -> bool {
    forall|k: int| 0 <= k < values.len() ==> #[trigger] values[k] == values[0]
}

/// The compressed version 1.2 encoding of a boolean track: nothing for no values, the
/// constant format `0x1013` with a single value when every value is the same, and otherwise
/// the `0x1013` header followed by every value.
pub open spec fn v12_compressed_bool_bytes(values: Seq<bool>) -> Seq<u8> {
    if values.len() == 0 {
        Seq::<u8>::empty()
    } else if all_same(values) {
        u32_le_bytes(0x1013) + u16_le_bytes(bool_u16(values[0]))
    } else {
        u32_le_bytes(0x1013) + bools_u16_le_bytes(values)
    }
}

/// The uncompressed version 1.2 encoding of a boolean track: nothing for no values, the
/// constant format `0x1013` with a single value when every value is the same, and otherwise
/// the stream format `0x1019` with the frame count followed by every value.
pub open spec fn v12_uncompressed_bool_bytes(values: Seq<bool>) -> Seq<u8> {
    if values.len() == 0 {
        Seq::<u8>::empty()
    } else if all_same(values) {
        u32_le_bytes(0x1013) + u16_le_bytes(bool_u16(values[0]))
    } else {
        u32_le_bytes(0x1019) + u32_le_bytes(values.len() as u32) + bools_u16_le_bytes(values)
    }
}

/// Whether every value equals the first.
fn all_values_same(values: &[bool]) -> (r: bool)
    requires
        values@.len() > 0,
    ensures
        r == all_same(values@),
{
    let first = values[0];
    let mut k: usize = 0;
    while k < values.len()
        invariant
            first == values@[0],
            k <= values@.len(),
            forall|m: int| 0 <= m < k ==> #[trigger] values@[m] == first,
        decreases values@.len() - k,
    {
        if values[k] != first {
            return false;
        }
        k = k + 1;
    }
    true
}

/// Appends each boolean as a little-endian 16-bit value.
fn push_bools_u16_le(data: &mut Vec<u8>, values: &[bool])
    ensures
        final(data)@ == old(data)@ + bools_u16_le_bytes(values@),
{
    let ghost start = data@;
    let mut k: usize = 0;
    while k < values.len()
        invariant
            k <= values@.len(),
            data@ == start + bools_u16_le_bytes(values@.take(k as int)),
        decreases values@.len() - k,
    {
        push_u16_le(data, if values[k] { 1u16 } else { 0u16 });
        proof {
            assert(values@.take(k + 1).drop_last() =~= values@.take(k as int));
        }
        k = k + 1;
    }
    assert(values@.take(values@.len() as int) =~= values@);
}

/// Creates compressed boolean data for version 1.2: the constant format `0x1013` for a
/// single repeated value, and otherwise the `0x1013` header followed by every frame's value
/// as a 16-bit integer.
pub fn create_v12_compressed_bool_data(values: &[bool]) -> (r: Result<Vec<u8>, Error>)
    ensures
        r matches Ok(data) && data@ == v12_compressed_bool_bytes(values@),
        (exists|k: int| 0 <= k < values@.len() && #[trigger] values@[k] != values@[0]) ==> (r matches Ok(data)
            && data@.len() == 4 + 2 * values@.len() && le_u32_at(data@, 0) == 0x1013
            && forall|k: int| 0 <= k < values@.len() ==> #[trigger] le_u16_at(data@, 4 + 2 * k) == bool_u16(values@[k])),
{
    proof {
        lemma_v12_compressed_bool_layout(values@);
    }
    let mut data: Vec<u8> = Vec::new();
    if values.len() == 0 {
        return Ok(data);
    }
    let all_same = all_values_same(values);
    if all_same || values.len() == 1 {
        push_u32_le(&mut data, 0x1013u32);
        push_u16_le(&mut data, if values[0] { 1u16 } else { 0u16 });
    } else {
        push_u32_le(&mut data, 0x1013u32);
        push_bools_u16_le(&mut data, values);
    }
    Ok(data)
}

/// Creates uncompressed boolean data for version 1.2: the constant format `0x1013` for a
/// single repeated value, and otherwise the stream format `0x1019` with the frame count and
/// every frame's value as a 16-bit integer.
pub fn create_v12_uncompressed_bool_data(values: &[bool]) -> (r: Result<Vec<u8>, Error>)
    ensures
        r matches Ok(data) && data@ == v12_uncompressed_bool_bytes(values@),
        values@.len() <= u32::MAX && (exists|k: int| 0 <= k < values@.len() && #[trigger] values@[k] != values@[0])
            ==> (r matches Ok(data) && data@.len() == 8 + 2 * values@.len() && le_u32_at(data@, 0) == 0x1019
            && le_u32_at(data@, 4) == values@.len()
            && forall|k: int| 0 <= k < values@.len() ==> #[trigger] le_u16_at(data@, 8 + 2 * k) == bool_u16(values@[k])),
{
    proof {
        if values@.len() <= u32::MAX {
            lemma_v12_uncompressed_bool_layout(values@);
        }
    }
    let mut data: Vec<u8> = Vec::new();
    if values.len() == 0 {
        return Ok(data);
    }
    let all_same = all_values_same(values);
    if all_same || values.len() == 1 {
        push_u32_le(&mut data, 0x1013u32);
        push_u16_le(&mut data, if values[0] { 1u16 } else { 0u16 });
    } else {
        push_u32_le(&mut data, 0x1019u32);
        let frame_count = #[verifier::truncate] (values.len() as u32);
        push_u32_le(&mut data, frame_count);
        push_bools_u16_le(&mut data, values);
    }
    Ok(data)
}


proof fn lemma_bools_u16_le_layout(values: Seq<bool>)
    ensures
        bools_u16_le_bytes(values).len() == 2 * values.len(),
        forall|k: int| 0 <= k < values.len() ==> #[trigger] le_u16_at(bools_u16_le_bytes(values), 2 * k)
            == bool_u16(values[k]),
    decreases values.len(),
{
    if values.len() > 0 {
        let rest = values.drop_last();
        lemma_bools_u16_le_layout(rest);
        let b = bools_u16_le_bytes(values);
        let r = bools_u16_le_bytes(rest);
        assert forall|k: int| 0 <= k < values.len() implies #[trigger] le_u16_at(b, 2 * k) == bool_u16(values[k]) by {
            if k < rest.len() {
                assert(b[2 * k] == r[2 * k]);
                assert(b[2 * k + 1] == r[2 * k + 1]);
                assert(le_u16_at(r, 2 * k) == bool_u16(rest[k]));
            } else {
                assert(b[2 * k] == u16_le_bytes(bool_u16(values.last()))[0]);
                assert(b[2 * k + 1] == u16_le_bytes(bool_u16(values.last()))[1]);
                crate::bytes::lemma_u16_le_roundtrip(bool_u16(values.last()));
            }
        }
    }
}

/// A version 1.2 boolean track without compression keeps every frame: a track whose values
/// are not all equal is written as the stream format `0x1019` with the frame count and the
/// value of each frame at `8 + 2 * k`; a track whose values are all equal is written as the
/// constant format `0x1013` with that value; no values give no bytes.
pub proof fn lemma_v12_uncompressed_bool_layout(values: Seq<bool>)
    requires
        values.len() <= u32::MAX,
    ensures
        values.len() == 0 ==> v12_uncompressed_bool_bytes(values).len() == 0,
        values.len() > 0 && (forall|k: int| 0 <= k < values.len() ==> #[trigger] values[k] == values[0]) ==> {
            let b = v12_uncompressed_bool_bytes(values);
            &&& b.len() == 6
            &&& le_u32_at(b, 0) == 0x1013
            &&& le_u16_at(b, 4) == bool_u16(values[0])
        },
        (exists|k: int| 0 <= k < values.len() && #[trigger] values[k] != values[0]) ==> {
            let b = v12_uncompressed_bool_bytes(values);
            &&& b.len() == 8 + 2 * values.len()
            &&& le_u32_at(b, 0) == 0x1019
            &&& le_u32_at(b, 4) == values.len()
            &&& forall|k: int| 0 <= k < values.len() ==> #[trigger] le_u16_at(b, 8 + 2 * k) == bool_u16(values[k])
        },
{
    let b = v12_uncompressed_bool_bytes(values);
    crate::bytes::lemma_u32_le_roundtrip(0x1013);
    crate::bytes::lemma_u32_le_roundtrip(0x1019);
    if values.len() > 0 && (forall|k: int| 0 <= k < values.len() ==> #[trigger] values[k] == values[0]) {
        assert(all_same(values));
        crate::bytes::lemma_u16_le_roundtrip(bool_u16(values[0]));
    }
    if exists|k: int| 0 <= k < values.len() && #[trigger] values[k] != values[0] {
        let j = choose|k: int| 0 <= k < values.len() && #[trigger] values[k] != values[0];
        assert(!all_same(values)) by {
            assert(values[j] != values[0]);
        }
        lemma_bools_u16_le_layout(values);
        crate::bytes::lemma_u32_le_roundtrip(values.len() as u32);
        let w = bools_u16_le_bytes(values);
        let head = u32_le_bytes(0x1019) + u32_le_bytes(values.len() as u32);
        assert(b == head + w);
        assert forall|k: int| 0 <= k < values.len() implies #[trigger] le_u16_at(b, 8 + 2 * k) == bool_u16(values[k]) by {
            assert(b[8 + 2 * k] == w[2 * k]);
            assert(b[8 + 2 * k + 1] == w[2 * k + 1]);
            assert(le_u16_at(w, 2 * k) == bool_u16(values[k]));
        }
    }
}

/// A compressed version 1.2 boolean track keeps every frame: a track whose values are not
/// all equal is written as the format `0x1013` followed by the value of each frame at
/// `4 + 2 * k`; a track whose values are all equal is written as `0x1013` with that value;
/// no values give no bytes.
pub proof fn lemma_v12_compressed_bool_layout(values: Seq<bool>)
    ensures
        values.len() == 0 ==> v12_compressed_bool_bytes(values).len() == 0,
        values.len() > 0 && (forall|k: int| 0 <= k < values.len() ==> #[trigger] values[k] == values[0]) ==> {
            let b = v12_compressed_bool_bytes(values);
            &&& b.len() == 6
            &&& le_u32_at(b, 0) == 0x1013
            &&& le_u16_at(b, 4) == bool_u16(values[0])
        },
        (exists|k: int| 0 <= k < values.len() && #[trigger] values[k] != values[0]) ==> {
            let b = v12_compressed_bool_bytes(values);
            &&& b.len() == 4 + 2 * values.len()
            &&& le_u32_at(b, 0) == 0x1013
            &&& forall|k: int| 0 <= k < values.len() ==> #[trigger] le_u16_at(b, 4 + 2 * k) == bool_u16(values[k])
        },
{
    let b = v12_compressed_bool_bytes(values);
    crate::bytes::lemma_u32_le_roundtrip(0x1013);
    if values.len() > 0 && (forall|k: int| 0 <= k < values.len() ==> #[trigger] values[k] == values[0]) {
        assert(all_same(values));
        crate::bytes::lemma_u16_le_roundtrip(bool_u16(values[0]));
    }
    if exists|k: int| 0 <= k < values.len() && #[trigger] values[k] != values[0] {
        let j = choose|k: int| 0 <= k < values.len() && #[trigger] values[k] != values[0];
        assert(!all_same(values)) by {
            assert(values[j] != values[0]);
        }
        lemma_bools_u16_le_layout(values);
        let w = bools_u16_le_bytes(values);
        assert(b == u32_le_bytes(0x1013) + w);
        assert forall|k: int| 0 <= k < values.len() implies #[trigger] le_u16_at(b, 4 + 2 * k) == bool_u16(values[k]) by {
            assert(b[4 + 2 * k] == w[2 * k]);
            assert(b[4 + 2 * k + 1] == w[2 * k + 1]);
            assert(le_u16_at(w, 2 * k) == bool_u16(values[k]));
        }
    }
}

/// The two texture transforms are equal as `f32` values, field by field.
pub open spec fn uv_transforms_eq(a: UvTransform, b: UvTransform) -> bool {
    &&& f32_bits_eq(a.scale_u, b.scale_u)
    &&& f32_bits_eq(a.scale_v, b.scale_v)
    &&& f32_bits_eq(a.rotation, b.rotation)
    &&& f32_bits_eq(a.translate_u, b.translate_u)
    &&& f32_bits_eq(a.translate_v, b.translate_v)
}

/// Every texture transform equals the first as `f32` values.
pub open spec fn all_uv_transforms_same(values: Seq<UvTransform>) -> bool {
    forall|k: int| 0 <= k < values.len() ==> #[trigger] uv_transforms_eq(values[k], values[0])
}

/// The compressed version 1.2 encoding of texture transforms: nothing for no values, the
/// format code `0x5014` with the first value when there is one value or every value equals
/// the first, and otherwise the code followed by every value.
pub open spec fn v12_compressed_uv_bytes(values: Seq<UvTransform>) -> Seq<u8> {
    if values.len() == 0 {
        Seq::<u8>::empty()
    } else if all_uv_transforms_same(values) || values.len() == 1 {
        u32_le_bytes(0x5014) + words_le_bytes(uv_words(values.take(1)))
    } else {
        u32_le_bytes(0x5014) + words_le_bytes(uv_words(values))
    }
}

/// Whether every texture transform equals the first as `f32` values.
fn all_uv_values_same(values: &[UvTransform]) -> (r: bool)
    requires
        values@.len() > 0,
    ensures
        r == all_uv_transforms_same(values@),
{
    let first = values[0];
    let mut k: usize = 0;
    while k < values.len()
        invariant
            first == values@[0],
            k <= values@.len(),
            forall|m: int| 0 <= m < k ==> #[trigger] uv_transforms_eq(values@[m], first),
        decreases values@.len() - k,
    {
        let v = values[k];
        if !(f32_bits_equal(v.scale_u, first.scale_u) && f32_bits_equal(v.scale_v, first.scale_v)
            && f32_bits_equal(v.rotation, first.rotation) && f32_bits_equal(v.translate_u, first.translate_u)
            && f32_bits_equal(v.translate_v, first.translate_v)) {
            assert(!uv_transforms_eq(values@[k as int], values@[0]));
            return false;
        }
        k = k + 1;
    }
    true
}

/// Creates texture transform data for version 1.2: the format code `0x5014` with a
/// single value when every frame holds the same transform, and otherwise the code
/// followed by every frame's transform.
pub fn create_v12_compressed_uv_data(values: &[UvTransform]) -> (r: Result<Vec<u8>, Error>)
    ensures
        r matches Ok(data) && data@ == v12_compressed_uv_bytes(values@),
        (exists|k: int| 0 <= k < values@.len() && !#[trigger] uv_transforms_eq(values@[k], values@[0])) ==> (r matches Ok(
            data,
        ) && data@.len() == 4 + 20 * values@.len() && le_u32_at(data@, 0) == 0x5014
            && forall|k: int, j: int| 0 <= k < values@.len() && 0 <= j < 5 ==> #[trigger] le_u32_at(
            data@,
            4 + 20 * k + 4 * j,
        ) == uv_word(values@[k], j)),
{
    proof {
        lemma_v12_compressed_uv_layout(values@);
    }
    let mut data: Vec<u8> = Vec::new();
    if values.len() == 0 {
        return Ok(data);
    }
    let all_same = all_uv_values_same(values);
    push_u32_le(&mut data, 0x5014u32);
    if all_same || values.len() == 1 {
        let words = uv_transform_words(&values[0..1]);
        proof {
            assert(values@.subrange(0, 1) =~= values@.take(1));
        }
        push_words_le(&mut data, &words);
    } else {
        let words = uv_transform_words(values);
        push_words_le(&mut data, &words);
    }
    Ok(data)
}

proof fn lemma_uv_words_le_layout(values: Seq<UvTransform>, k: int, j: int)
    requires
        0 <= k < values.len(),
        0 <= j < 5,
    ensures
        words_le_bytes(uv_words(values)).len() == 20 * values.len(),
        le_u32_at(words_le_bytes(uv_words(values)), 4 * (5 * k + j)) == uv_word(values[k], j),
{
    let w = uv_words(values);
    let m = 5 * k + j;
    assert(0 <= m < w.len());
    vstd::arithmetic::div_mod::lemma_fundamental_div_mod_converse(m, 5, k, j);
    assert(w[m] == uv_word(values[k], j));
    lemma_words_le_bytes_word(w, m);
}

/// A compressed version 1.2 texture transform track keeps every frame: a track whose
/// transforms are not all equal to the first (as `f32` values) is written as the format
/// `0x5014` followed by the five words of each frame's transform, frame `k` at `4 + 20 * k`;
/// a track whose transforms all equal the first is written as `0x5014` with the first
/// transform; no values give no bytes.
pub proof fn lemma_v12_compressed_uv_layout(values: Seq<UvTransform>)
    ensures
        values.len() == 0 ==> v12_compressed_uv_bytes(values).len() == 0,
        values.len() > 0 && (forall|k: int| 0 <= k < values.len() ==> #[trigger] uv_transforms_eq(values[k], values[0]))
            ==> {
            let b = v12_compressed_uv_bytes(values);
            &&& b.len() == 24
            &&& le_u32_at(b, 0) == 0x5014
            &&& forall|j: int| 0 <= j < 5 ==> #[trigger] le_u32_at(b, 4 + 4 * j) == uv_word(values[0], j)
        },
        (exists|k: int| 0 <= k < values.len() && !#[trigger] uv_transforms_eq(values[k], values[0])) ==> {
            let b = v12_compressed_uv_bytes(values);
            &&& b.len() == 4 + 20 * values.len()
            &&& le_u32_at(b, 0) == 0x5014
            &&& forall|k: int, j: int| 0 <= k < values.len() && 0 <= j < 5 ==> #[trigger] le_u32_at(
                b,
                4 + 20 * k + 4 * j,
            ) == uv_word(values[k], j)
        },
{
    let b = v12_compressed_uv_bytes(values);
    crate::bytes::lemma_u32_le_roundtrip(0x5014);
    if values.len() > 0 && (forall|k: int| 0 <= k < values.len() ==> #[trigger] uv_transforms_eq(values[k], values[0])) {
        assert(all_uv_transforms_same(values));
        let one = values.take(1);
        let w = words_le_bytes(uv_words(one));
        assert(b == u32_le_bytes(0x5014) + w);
        assert forall|j: int| 0 <= j < 5 implies #[trigger] le_u32_at(b, 4 + 4 * j) == uv_word(values[0], j) by {
            lemma_uv_words_le_layout(one, 0, j);
            assert(b[4 + 4 * j] == w[4 * j]);
            assert(b[4 + 4 * j + 1] == w[4 * j + 1]);
            assert(b[4 + 4 * j + 2] == w[4 * j + 2]);
            assert(b[4 + 4 * j + 3] == w[4 * j + 3]);
        }
        lemma_uv_words_le_layout(one, 0, 0);
    }
    if exists|k: int| 0 <= k < values.len() && !#[trigger] uv_transforms_eq(values[k], values[0]) {
        let i = choose|k: int| 0 <= k < values.len() && !#[trigger] uv_transforms_eq(values[k], values[0]);
        assert(!all_uv_transforms_same(values)) by {
            assert(!uv_transforms_eq(values[i], values[0]));
        }
        let vs = if values.len() == 1 { values.take(1) } else { values };
        assert(vs =~= values);
        let w = words_le_bytes(uv_words(values));
        assert(b == u32_le_bytes(0x5014) + w);
        lemma_uv_words_le_layout(values, 0, 0);
        assert forall|k: int, j: int| 0 <= k < values.len() && 0 <= j < 5 implies #[trigger] le_u32_at(
            b,
            4 + 20 * k + 4 * j,
        ) == uv_word(values[k], j) by {
            lemma_uv_words_le_layout(values, k, j);
            let o = 4 * (5 * k + j);
            assert(4 + 20 * k + 4 * j == 4 + o);
            assert(b[4 + o] == w[o]);
            assert(b[4 + o + 1] == w[o + 1]);
            assert(b[4 + o + 2] == w[o + 2]);
            assert(b[4 + o + 3] == w[o + 3]);
        }
    }
}

/// How a version 1.2 property value is stored, selected by the code in its first four bytes.
#[derive(Debug, Clone, Copy, PartialEq, Eq)]
pub enum V12ValueFormat {
    /// `0x1013`: a single 16-bit integer.
    Uint,
    /// `0x1003`: a single float.
    Float,
    /// `0x3003`: a single vector of three floats.
    Vector3,
    /// A curve of vectors of three floats, decoded by the format with the given code:
    /// `0x3200`, `0x3208`, `0x3209`, `0x3300`, `0x3308`, `0x3309`, `0x3400`, `0x3408` or `0x3409`.
    Vector3Curve(u32),
    /// `0x4003`: a single quaternion.
    Quaternion,
    /// A curve of quaternions, decoded by the format with the given code:
    /// `0x4200`, `0x4208`, `0x4209`, `0x4300`, `0x4308`, `0x4309`, `0x4400`, `0x4408` or `0x4409`.
    QuaternionCurve(u32),
}

/// The storage format of a version 1.2 property value with the given code, if it is known.
pub open spec fn v12_value_format_of(code: u32) -> Option<V12ValueFormat> {
    if code == 0x1013 {
        Some(V12ValueFormat::Uint)
    } else if code == 0x1003 {
        Some(V12ValueFormat::Float)
    } else if code == 0x3003 {
        Some(V12ValueFormat::Vector3)
    } else if code == 0x3200 || code == 0x3208 || code == 0x3209 || code == 0x3300 || code == 0x3308
        || code == 0x3309 || code == 0x3400 || code == 0x3408 || code == 0x3409 {
        Some(V12ValueFormat::Vector3Curve(code))
    } else if code == 0x4003 {
        Some(V12ValueFormat::Quaternion)
    } else if code == 0x4200 || code == 0x4208 || code == 0x4209 || code == 0x4300 || code == 0x4308
        || code == 0x4309 || code == 0x4400 || code == 0x4408 || code == 0x4409 {
        Some(V12ValueFormat::QuaternionCurve(code))
    } else {
        None
    }
}

/// The format codes of version 1.2 property values that the library decodes.
pub open spec fn v12_format_codes() -> Seq<u32> {
    seq![0x1013, 0x1003, 0x3003, 0x3200, 0x3208, 0x3209, 0x3300, 0x3308, 0x3309, 0x3400, 0x3408, 0x3409, 0x4003, 0x4200, 0x4208, 0x4209, 0x4300, 0x4308, 0x4309, 0x4400, 0x4408, 0x4409]
}

/// The format code of a storage format.
pub open spec fn v12_format_code(f: V12ValueFormat) -> u32 {
    match f {
        V12ValueFormat::Uint => 0x1013,
        V12ValueFormat::Float => 0x1003,
        V12ValueFormat::Vector3 => 0x3003,
        V12ValueFormat::Vector3Curve(c) => c,
        V12ValueFormat::Quaternion => 0x4003,
        V12ValueFormat::QuaternionCurve(c) => c,
    }
}

/// Every format code that the library decodes is classified, each as its own format, and
/// every classified code is one of them and is the code of the format it is classified as.
pub proof fn lemma_v12_value_format_codes(code: u32)
    ensures
        v12_value_format_of(0x1013) == Some(V12ValueFormat::Uint),
        v12_value_format_of(0x1003) == Some(V12ValueFormat::Float),
        v12_value_format_of(0x3003) == Some(V12ValueFormat::Vector3),
        v12_value_format_of(0x3200) == Some(V12ValueFormat::Vector3Curve(0x3200)),
        v12_value_format_of(0x3208) == Some(V12ValueFormat::Vector3Curve(0x3208)),
        v12_value_format_of(0x3209) == Some(V12ValueFormat::Vector3Curve(0x3209)),
        v12_value_format_of(0x3300) == Some(V12ValueFormat::Vector3Curve(0x3300)),
        v12_value_format_of(0x3308) == Some(V12ValueFormat::Vector3Curve(0x3308)),
        v12_value_format_of(0x3309) == Some(V12ValueFormat::Vector3Curve(0x3309)),
        v12_value_format_of(0x3400) == Some(V12ValueFormat::Vector3Curve(0x3400)),
        v12_value_format_of(0x3408) == Some(V12ValueFormat::Vector3Curve(0x3408)),
        v12_value_format_of(0x3409) == Some(V12ValueFormat::Vector3Curve(0x3409)),
        v12_value_format_of(0x4003) == Some(V12ValueFormat::Quaternion),
        v12_value_format_of(0x4200) == Some(V12ValueFormat::QuaternionCurve(0x4200)),
        v12_value_format_of(0x4208) == Some(V12ValueFormat::QuaternionCurve(0x4208)),
        v12_value_format_of(0x4209) == Some(V12ValueFormat::QuaternionCurve(0x4209)),
        v12_value_format_of(0x4300) == Some(V12ValueFormat::QuaternionCurve(0x4300)),
        v12_value_format_of(0x4308) == Some(V12ValueFormat::QuaternionCurve(0x4308)),
        v12_value_format_of(0x4309) == Some(V12ValueFormat::QuaternionCurve(0x4309)),
        v12_value_format_of(0x4400) == Some(V12ValueFormat::QuaternionCurve(0x4400)),
        v12_value_format_of(0x4408) == Some(V12ValueFormat::QuaternionCurve(0x4408)),
        v12_value_format_of(0x4409) == Some(V12ValueFormat::QuaternionCurve(0x4409)),
        v12_value_format_of(code) is Some <==> v12_format_codes().contains(code),
        v12_value_format_of(code) matches Some(f) ==> v12_format_code(f) == code,
{
    let s = v12_format_codes();
    if v12_value_format_of(code) is Some {
        let i = if code == 0x1013 { 0int } else if code == 0x1003 { 1 } else if code == 0x3003 { 2 }
            else if code == 0x3200 { 3 } else if code == 0x3208 { 4 } else if code == 0x3209 { 5 }
            else if code == 0x3300 { 6 } else if code == 0x3308 { 7 } else if code == 0x3309 { 8 }
            else if code == 0x3400 { 9 } else if code == 0x3408 { 10 } else if code == 0x3409 { 11 }
            else if code == 0x4003 { 12 } else if code == 0x4200 { 13 } else if code == 0x4208 { 14 }
            else if code == 0x4209 { 15 } else if code == 0x4300 { 16 } else if code == 0x4308 { 17 }
            else if code == 0x4309 { 18 } else if code == 0x4400 { 19 } else if code == 0x4408 { 20 }
            else { 21 };
        assert(s[i] == code);
    }
    if s.contains(code) {
        let i = choose|i: int| 0 <= i < s.len() && s[i] == code;
        assert(v12_value_format_of(s[i]) is Some);
    }
}

/// Classifies a version 1.2 property value by the code in its first four bytes.
/// Fails when fewer than four bytes are given; gives `None` for an unknown code.
pub fn v12_value_format(bytes: &[u8]) -> (r: Result<Option<V12ValueFormat>, Error>)
    ensures
        bytes@.len() < 4 ==> (r matches Err(Error::InvalidData)),
        bytes@.len() >= 4 ==> r == Ok::<Option<V12ValueFormat>, Error>(v12_value_format_of(le_u32_at(bytes@, 0))),
        bytes@.len() >= 4 && v12_format_codes().contains(le_u32_at(bytes@, 0)) ==> (r matches Ok(Some(f))
            && v12_format_code(f) == le_u32_at(bytes@, 0)),
        bytes@.len() >= 4 && !v12_format_codes().contains(le_u32_at(bytes@, 0)) ==> (r matches Ok(None)),
{
    proof {
        if bytes@.len() >= 4 {
            lemma_v12_value_format_codes(le_u32_at(bytes@, 0));
        }
    }
    let code = match read_u32_le(bytes, 0) {
        Ok(c) => c,
        Err(e) => return Err(e),
    };
    let format = if code == 0x1013 {
        Some(V12ValueFormat::Uint)
    } else if code == 0x1003 {
        Some(V12ValueFormat::Float)
    } else if code == 0x3003 {
        Some(V12ValueFormat::Vector3)
    } else if code == 0x3200 || code == 0x3208 || code == 0x3209 || code == 0x3300 || code == 0x3308
        || code == 0x3309 || code == 0x3400 || code == 0x3408 || code == 0x3409 {
        Some(V12ValueFormat::Vector3Curve(code))
    } else if code == 0x4003 {
        Some(V12ValueFormat::Quaternion)
    } else if code == 0x4200 || code == 0x4208 || code == 0x4209 || code == 0x4300 || code == 0x4308
        || code == 0x4309 || code == 0x4400 || code == 0x4408 || code == 0x4409 {
        Some(V12ValueFormat::QuaternionCurve(code))
    } else {
        None
    };
    Ok(format)
}

} // verus!
