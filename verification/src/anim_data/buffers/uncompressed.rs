//! Uncompressed track data of version 2.0 and later animations: each value stored
//! directly as little-endian words, or one byte per boolean.
use vstd::prelude::*;
use crate::anim_data::{TrackTypeV2, TrackValues, Transform, UvTransform};
use crate::anim_data::error::Error;
use crate::anim_data::v1::common::le_u32_at;
use crate::bytes::{u32_le_bytes, push_u32_le, lemma_u32_le_roundtrip};

verus! {

/// The number of bytes of one value in an uncompressed track of type `t`.
pub open spec fn value_size(t: TrackTypeV2) -> nat {
    match t {
        TrackTypeV2::Transform => 44,
        TrackTypeV2::UvTransform => 20,
        TrackTypeV2::Float => 4,
        TrackTypeV2::PatternIndex => 4,
        TrackTypeV2::Boolean => 1,
        TrackTypeV2::Vector4 => 16,
    }
}

/// Word `k` of a transform as stored: the scale, the rotation, the translation, then `1`
/// when compensating the parent's scale and `0` otherwise.
pub open spec fn transform_word(t: Transform, compensate_scale: bool, k: int) -> u32 {
    if k < 3 {
        t.scale@[k]
    } else if k < 7 {
        t.rotation@[k - 3]
    } else if k < 10 {
        t.translation@[k - 7]
    } else if compensate_scale {
        1
    } else {
        0
    }
}

/// Word `k` of a texture transform as stored: scale u and v, rotation, translation u and v.
pub open spec fn uv_word(t: UvTransform, k: int) -> u32 {
    if k == 0 {
        t.scale_u
    } else if k == 1 {
        t.scale_v
    } else if k == 2 {
        t.rotation
    } else if k == 3 {
        t.translate_u
    } else {
        t.translate_v
    }
}

/// The words of the texture transforms, five for each.
pub open spec fn uv_words(values: Seq<UvTransform>) -> Seq<u32> {
    Seq::new(values.len() * 5, |j: int| uv_word(values[j / 5], j % 5))
}

/// The words of an uncompressed track that stores words: the words of each value in order.
pub open spec fn track_words(values: TrackValues, compensate_scale: bool) -> Seq<u32> {
    match values {
        TrackValues::Transform(v) => Seq::new(v@.len() * 11, |j: int| transform_word(v@[j / 11], compensate_scale, j % 11)),
        TrackValues::UvTransform(v) => uv_words(v@),
        TrackValues::Float(v) => v@,
        TrackValues::PatternIndex(v) => v@,
        TrackValues::Boolean(_) => Seq::empty(),
        TrackValues::Vector4(v) => Seq::new(v@.len() * 4, |j: int| v@[j / 4]@[j % 4]),
    }
}

/// The little-endian bytes of each word in order.
pub open spec fn words_le_bytes(words: Seq<u32>) -> Seq<u8> {
    Seq::new(words.len() * 4, |i: int| u32_le_bytes(words[i / 4])[i % 4])
}

/// The bytes of an uncompressed track: a byte of `1` or `0` for each boolean, and the
/// little-endian words of the values for the other kinds.
pub open spec fn uncompressed_track_bytes(values: TrackValues, compensate_scale: bool) -> Seq<u8> {
    match values {
        TrackValues::Boolean(v) => Seq::new(v@.len(), |i: int| if v@[i] { 1u8 } else { 0u8 }),
        _ => words_le_bytes(track_words(values, compensate_scale)),
    }
}

/// Appending a word appends its four bytes.
proof fn lemma_words_le_bytes_push(words: Seq<u32>, w: u32)
    ensures
        words_le_bytes(words.push(w)) =~= words_le_bytes(words) + u32_le_bytes(w),
{
    let n = words.len();
    assert forall|i: int| 0 <= i < (n + 1) * 4 implies #[trigger] words_le_bytes(words.push(w))[i]
        == (words_le_bytes(words) + u32_le_bytes(w))[i] by {
        if i < n * 4 {
            assert(i / 4 < n);
        } else {
            assert(i / 4 == n);
            assert(i % 4 == i - n * 4);
        }
    }
}

/// Appends the little-endian bytes of each word.
pub(crate) fn push_words_le(out: &mut Vec<u8>, words: &Vec<u32>)
    ensures
        final(out)@ == old(out)@ + words_le_bytes(words@),
{
    let mut i: usize = 0;
    while i < words.len()
        invariant
            i <= words@.len(),
            out@ == old(out)@ + words_le_bytes(words@.take(i as int)),
        decreases words@.len() - i,
    {
        proof {
            lemma_words_le_bytes_push(words@.take(i as int), words@[i as int]);
            assert(words@.take(i as int).push(words@[i as int]) =~= words@.take(i + 1));
        }
        push_u32_le(out, words[i]);
        i = i + 1;
    }
    proof {
        assert(words@.take(words@.len() as int) =~= words@);
    }
}

/// Index `j` lies in block `i` of blocks of `n`.
proof fn lemma_block_index(j: int, i: int, n: int)
    requires
        n > 0,
        i * n <= j < i * n + n,
    ensures
        j / n == i,
        j % n == j - i * n,
{
    vstd::arithmetic::div_mod::lemma_fundamental_div_mod_converse(j, n, i, j - i * n);
}

/// Index `j` lies in block `j / n` of blocks of `n`.
proof fn lemma_block_of(j: int, n: int)
    requires
        n > 0,
        j >= 0,
    ensures
        (j / n) * n <= j < (j / n) * n + n,
        j % n == j - (j / n) * n,
{
    vstd::arithmetic::div_mod::lemma_fundamental_div_mod(j, n);
    vstd::arithmetic::div_mod::lemma_mod_pos_bound(j, n);
    vstd::arithmetic::mul::lemma_mul_is_commutative(n, j / n);
}

/// The words of the transforms, eleven for each.
fn transform_words(v: &Vec<Transform>, compensate_scale: bool) -> (r: Vec<u32>)
    ensures
        r@ == track_words(TrackValues::Transform(*v), compensate_scale),
{
    let flag: u32 = if compensate_scale { 1 } else { 0 };
    let mut words: Vec<u32> = Vec::new();
    let mut i: usize = 0;
    while i < v.len()
        invariant
            i <= v@.len(),
            flag == (if compensate_scale { 1u32 } else { 0u32 }),
            words@ =~= Seq::new((i * 11) as nat, |j: int| transform_word(v@[j / 11], compensate_scale, j % 11)),
        decreases v@.len() - i,
    {
        let t = v[i];
        let ghost before = words@;
        words.push(t.scale[0]);
        words.push(t.scale[1]);
        words.push(t.scale[2]);
        words.push(t.rotation[0]);
        words.push(t.rotation[1]);
        words.push(t.rotation[2]);
        words.push(t.rotation[3]);
        words.push(t.translation[0]);
        words.push(t.translation[1]);
        words.push(t.translation[2]);
        words.push(flag);
        proof {
            assert forall|j: int| 0 <= j < (i + 1) * 11 implies #[trigger] words@[j]
                == transform_word(v@[j / 11], compensate_scale, j % 11) by {
                if j < i * 11 {
                    lemma_block_of(j, 11);
                    assert(words@[j] == before[j]);
                } else {
                    lemma_block_index(j, i as int, 11);
                }
            }
        }
        i = i + 1;
    }
    words
}

/// The words of the texture transforms, five for each.
pub(crate) fn uv_transform_words(v: &[UvTransform]) -> (r: Vec<u32>)
    ensures
        r@ == uv_words(v@),
{
    let mut words: Vec<u32> = Vec::new();
    let mut i: usize = 0;
    while i < v.len()
        invariant
            i <= v@.len(),
            words@ =~= Seq::new((i * 5) as nat, |j: int| uv_word(v@[j / 5], j % 5)),
        decreases v@.len() - i,
    {
        let t = v[i];
        let ghost before = words@;
        words.push(t.scale_u);
        words.push(t.scale_v);
        words.push(t.rotation);
        words.push(t.translate_u);
        words.push(t.translate_v);
        proof {
            assert forall|j: int| 0 <= j < (i + 1) * 5 implies #[trigger] words@[j] == uv_word(v@[j / 5], j % 5) by {
                if j < i * 5 {
                    lemma_block_of(j, 5);
                    assert(words@[j] == before[j]);
                } else {
                    lemma_block_index(j, i as int, 5);
                }
            }
        }
        i = i + 1;
    }
    words
}

/// The words of the vectors, four for each.
fn vector4_words(v: &Vec<[u32; 4]>) -> (r: Vec<u32>)
    ensures
        r@ == track_words(TrackValues::Vector4(*v), false),
{
    let mut words: Vec<u32> = Vec::new();
    let mut i: usize = 0;
    while i < v.len()
        invariant
            i <= v@.len(),
            words@ =~= Seq::new((i * 4) as nat, |j: int| v@[j / 4]@[j % 4]),
        decreases v@.len() - i,
    {
        let t = v[i];
        let ghost before = words@;
        words.push(t[0]);
        words.push(t[1]);
        words.push(t[2]);
        words.push(t[3]);
        proof {
            assert forall|j: int| 0 <= j < (i + 1) * 4 implies #[trigger] words@[j] == v@[j / 4]@[j % 4] by {
                if j < i * 4 {
                    lemma_block_of(j, 4);
                    assert(words@[j] == before[j]);
                } else {
                    lemma_block_index(j, i as int, 4);
                }
            }
        }
        i = i + 1;
    }
    words
}

/// A byte of `1` for each `true` and `0` for each `false`.
fn boolean_bytes(v: &Vec<bool>) -> (r: Vec<u8>)
    ensures
        r@ == uncompressed_track_bytes(TrackValues::Boolean(*v), false),
{
    let mut out: Vec<u8> = Vec::new();
    let mut i: usize = 0;
    while i < v.len()
        invariant
            i <= v@.len(),
            out@ =~= Seq::new(i as nat, |k: int| if v@[k] { 1u8 } else { 0u8 }),
        decreases v@.len() - i,
    {
        out.push(if v[i] { 1u8 } else { 0u8 });
        i = i + 1;
    }
    out
}

/// Writes the values of an uncompressed track: the values one after another, each
/// transform followed by the compensate scale flag, and a byte for each boolean.
pub fn write_uncompressed_track_values(values: &TrackValues, compensate_scale: bool) -> (r: Vec<u8>)
    ensures
        r@ == uncompressed_track_bytes(*values, compensate_scale),
{
    let mut out: Vec<u8> = Vec::new();
    match values {
        TrackValues::Transform(v) => {
            let words = transform_words(v, compensate_scale);
            push_words_le(&mut out, &words);
        },
        TrackValues::UvTransform(v) => {
            let words = uv_transform_words(v.as_slice());
            push_words_le(&mut out, &words);
        },
        TrackValues::Float(v) => {
            push_words_le(&mut out, v);
        },
        TrackValues::PatternIndex(v) => {
            push_words_le(&mut out, v);
        },
        TrackValues::Boolean(v) => {
            out = boolean_bytes(v);
        },
        TrackValues::Vector4(v) => {
            let words = vector4_words(v);
            push_words_le(&mut out, &words);
        },
    }
    proof {
        assert(out@ =~= uncompressed_track_bytes(*values, compensate_scale));
    }
    out
}

/// How the values of an uncompressed track are found in its bytes: value `i` of a kind
/// of `n` bytes starts at byte `n * i`, and its word `k` is the little-endian word at
/// byte `4 * k` from there. A boolean is `true` when its byte is not zero.
pub open spec fn uncompressed_values_match(values: TrackValues, data: Seq<u8>) -> bool {
    match values {
        TrackValues::Transform(v) => forall|i: int, k: int| 0 <= i < v@.len() && 0 <= k < 10
            ==> #[trigger] transform_word(v@[i], false, k) == le_u32_at(data, 44 * i + 4 * k),
        TrackValues::UvTransform(v) => forall|i: int, k: int| 0 <= i < v@.len() && 0 <= k < 5
            ==> #[trigger] uv_word(v@[i], k) == le_u32_at(data, 20 * i + 4 * k),
        TrackValues::Float(v) => forall|i: int| 0 <= i < v@.len() ==> #[trigger] v@[i] == le_u32_at(data, 4 * i),
        TrackValues::PatternIndex(v) => forall|i: int| 0 <= i < v@.len() ==> #[trigger] v@[i] == le_u32_at(data, 4 * i),
        TrackValues::Boolean(v) => forall|i: int| 0 <= i < v@.len() ==> #[trigger] v@[i] == (data[i] != 0),
        TrackValues::Vector4(v) => forall|i: int, k: int| 0 <= i < v@.len() && 0 <= k < 4
            ==> #[trigger] v@[i]@[k] == le_u32_at(data, 16 * i + 4 * k),
    }
}

impl TrackValues {
    /// The number of bytes of one value when the track is stored uncompressed.
    pub fn data_size_in_bytes(&self) -> (r: u64)
        ensures
            r == value_size(self.spec_track_type()),
    {
        match self {
            TrackValues::Transform(_) => 44,
            TrackValues::UvTransform(_) => 20,
            TrackValues::Float(_) => 4,
            TrackValues::PatternIndex(_) => 4,
            TrackValues::Boolean(_) => 1,
            TrackValues::Vector4(_) => 16,
        }
    }
}

/// The number of bytes of one value of an uncompressed track of type `t`.
fn value_size_in_bytes(t: TrackTypeV2) -> (r: usize)
    ensures
        r == value_size(t),
{
    match t {
        TrackTypeV2::Transform => 44,
        TrackTypeV2::UvTransform => 20,
        TrackTypeV2::Float => 4,
        TrackTypeV2::PatternIndex => 4,
        TrackTypeV2::Boolean => 1,
        TrackTypeV2::Vector4 => 16,
    }
}

/// The little-endian word at `off`.
fn word_at(data: &[u8], off: usize) -> (r: u32)
    requires
        off + 4 <= data@.len(),
    ensures
        r == le_u32_at(data@, off as int),
{
    data[off] as u32 + (data[off + 1] as u32) * 256 + (data[off + 2] as u32) * 65536
        + (data[off + 3] as u32) * 16777216
}

/// Reads `count` transforms of eleven words each; the last word of each is not kept.
fn read_transforms(data: &[u8], count: usize) -> (r: Vec<Transform>)
    requires
        44 * count <= data@.len(),
    ensures
        r@.len() == count,
        uncompressed_values_match(TrackValues::Transform(r), data@),
{
    let mut values: Vec<Transform> = Vec::new();
    let len = data.len();
    let mut i: usize = 0;
    while i < count
        invariant
            len == data@.len(),
            i <= count,
            44 * count <= data@.len(),
            values@.len() == i,
            forall|m: int, k: int| 0 <= m < i && 0 <= k < 10
                ==> #[trigger] transform_word(values@[m], false, k) == le_u32_at(data@, 44 * m + 4 * k),
        decreases count - i,
    {
        let b = 44 * i;
        let t = Transform {
            scale: [word_at(data, b), word_at(data, b + 4), word_at(data, b + 8)],
            rotation: [word_at(data, b + 12), word_at(data, b + 16), word_at(data, b + 20), word_at(data, b + 24)],
            translation: [word_at(data, b + 28), word_at(data, b + 32), word_at(data, b + 36)],
        };
        proof {
            assert forall|k: int| 0 <= k < 10 implies #[trigger] transform_word(t, false, k)
                == le_u32_at(data@, 44 * i + 4 * k) by {
                if k == 0 {} else if k == 1 {} else if k == 2 {} else if k == 3 {} else if k == 4 {}
                else if k == 5 {} else if k == 6 {} else if k == 7 {} else if k == 8 {} else {}
            }
        }
        values.push(t);
        i = i + 1;
    }
    values
}

/// Reads `count` texture transforms of five words each.
fn read_uv_transforms(data: &[u8], count: usize) -> (r: Vec<UvTransform>)
    requires
        20 * count <= data@.len(),
    ensures
        r@.len() == count,
        uncompressed_values_match(TrackValues::UvTransform(r), data@),
{
    let mut values: Vec<UvTransform> = Vec::new();
    let len = data.len();
    let mut i: usize = 0;
    while i < count
        invariant
            len == data@.len(),
            i <= count,
            20 * count <= data@.len(),
            values@.len() == i,
            forall|m: int, k: int| 0 <= m < i && 0 <= k < 5
                ==> #[trigger] uv_word(values@[m], k) == le_u32_at(data@, 20 * m + 4 * k),
        decreases count - i,
    {
        let b = 20 * i;
        let t = UvTransform {
            scale_u: word_at(data, b),
            scale_v: word_at(data, b + 4),
            rotation: word_at(data, b + 8),
            translate_u: word_at(data, b + 12),
            translate_v: word_at(data, b + 16),
        };
        values.push(t);
        i = i + 1;
    }
    values
}

/// Reads `count` words.
fn read_words(data: &[u8], count: usize) -> (r: Vec<u32>)
    requires
        4 * count <= data@.len(),
    ensures
        r@.len() == count,
        forall|i: int| 0 <= i < count ==> #[trigger] r@[i] == le_u32_at(data@, 4 * i),
{
    let mut values: Vec<u32> = Vec::new();
    let len = data.len();
    let mut i: usize = 0;
    while i < count
        invariant
            len == data@.len(),
            i <= count,
            4 * count <= data@.len(),
            values@.len() == i,
            forall|m: int| 0 <= m < i ==> #[trigger] values@[m] == le_u32_at(data@, 4 * m),
        decreases count - i,
    {
        values.push(word_at(data, 4 * i));
        i = i + 1;
    }
    values
}

/// Reads `count` vectors of four words each.
fn read_vector4s(data: &[u8], count: usize) -> (r: Vec<[u32; 4]>)
    requires
        16 * count <= data@.len(),
    ensures
        r@.len() == count,
        uncompressed_values_match(TrackValues::Vector4(r), data@),
{
    let mut values: Vec<[u32; 4]> = Vec::new();
    let len = data.len();
    let mut i: usize = 0;
    while i < count
        invariant
            len == data@.len(),
            i <= count,
            16 * count <= data@.len(),
            values@.len() == i,
            forall|m: int, k: int| 0 <= m < i && 0 <= k < 4
                ==> #[trigger] values@[m]@[k] == le_u32_at(data@, 16 * m + 4 * k),
        decreases count - i,
    {
        let b = 16 * i;
        let t = [word_at(data, b), word_at(data, b + 4), word_at(data, b + 8), word_at(data, b + 12)];
        proof {
            assert forall|k: int| 0 <= k < 4 implies #[trigger] t@[k] == le_u32_at(data@, 16 * i + 4 * k) by {
                if k == 0 {} else if k == 1 {} else if k == 2 {} else {}
            }
        }
        values.push(t);
        i = i + 1;
    }
    values
}

/// Reads `count` booleans of one byte each.
fn read_booleans(data: &[u8], count: usize) -> (r: Vec<bool>)
    requires
        count <= data@.len(),
    ensures
        r@.len() == count,
        forall|i: int| 0 <= i < count ==> #[trigger] r@[i] == (data@[i] != 0),
{
    let mut values: Vec<bool> = Vec::new();
    let len = data.len();
    let mut i: usize = 0;
    while i < count
        invariant
            len == data@.len(),
            i <= count,
            count <= data@.len(),
            values@.len() == i,
            forall|m: int| 0 <= m < i ==> #[trigger] values@[m] == (data@[m] != 0),
        decreases count - i,
    {
        values.push(data[i] != 0);
        i = i + 1;
    }
    values
}

/// Reads `count` values of an uncompressed track of type `track_type`, and whether the
/// transforms compensate their parent's scale, as the first transform's flag says
/// (`false` for other kinds and for no values).
///
/// Fails with [`Error::InvalidData`] when the data holds fewer than `count` values.
pub fn read_uncompressed_track_values(track_data: &[u8], track_type: TrackTypeV2, count: usize) -> (r: Result<(TrackValues, bool), Error>)
    ensures
        (r is Ok) <==> count * value_size(track_type) <= track_data@.len(),
        r matches Err(e) ==> e is InvalidData,
        r matches Ok((values, compensate_scale)) ==> {
            &&& values.spec_track_type() == track_type
            &&& values.spec_len() == count
            &&& uncompressed_values_match(values, track_data@)
            &&& compensate_scale == (track_type == TrackTypeV2::Transform && count > 0 && le_u32_at(track_data@, 40) != 0)
        },
{
    let size = value_size_in_bytes(track_type);
    if count > track_data.len() / size {
        proof {
            assert(count * size > track_data@.len()) by (nonlinear_arith)
                requires count > (track_data@.len() as int) / (size as int), size > 0;
        }
        return Err(Error::InvalidData);
    }
    proof {
        assert(count * size <= track_data@.len()) by (nonlinear_arith)
            requires count <= (track_data@.len() as int) / (size as int), size > 0;
    }
    match track_type {
        TrackTypeV2::Transform => {
            let values = read_transforms(track_data, count);
            let compensate_scale = count > 0 && word_at(track_data, 40) != 0;
            Ok((TrackValues::Transform(values), compensate_scale))
        },
        TrackTypeV2::UvTransform => Ok((TrackValues::UvTransform(read_uv_transforms(track_data, count)), false)),
        TrackTypeV2::Float => Ok((TrackValues::Float(read_words(track_data, count)), false)),
        TrackTypeV2::PatternIndex => Ok((TrackValues::PatternIndex(read_words(track_data, count)), false)),
        TrackTypeV2::Boolean => Ok((TrackValues::Boolean(read_booleans(track_data, count)), false)),
        TrackTypeV2::Vector4 => Ok((TrackValues::Vector4(read_vector4s(track_data, count)), false)),
    }
}

/// The same kind of values, holding equal values in the same order.
pub open spec fn same_track_values(a: TrackValues, b: TrackValues) -> bool {
    match (a, b) {
        (TrackValues::Transform(x), TrackValues::Transform(y)) => x@ == y@,
        (TrackValues::UvTransform(x), TrackValues::UvTransform(y)) => x@ == y@,
        (TrackValues::Float(x), TrackValues::Float(y)) => x@ == y@,
        (TrackValues::PatternIndex(x), TrackValues::PatternIndex(y)) => x@ == y@,
        (TrackValues::Boolean(x), TrackValues::Boolean(y)) => x@ == y@,
        (TrackValues::Vector4(x), TrackValues::Vector4(y)) => x@ == y@,
        _ => false,
    }
}

/// Word `k` is the little-endian word at byte `4 * k`.
pub(crate) proof fn lemma_words_le_bytes_word(words: Seq<u32>, k: int)
    requires
        0 <= k < words.len(),
    ensures
        words_le_bytes(words).len() == words.len() * 4,
        le_u32_at(words_le_bytes(words), 4 * k) == words[k],
{
    let bytes = words_le_bytes(words);
    assert forall|m: int| 0 <= m < 4 implies #[trigger] bytes[4 * k + m] == u32_le_bytes(words[k])[m] by {
        lemma_block_index(4 * k + m, k, 4);
    }
    assert(bytes[4 * k] == u32_le_bytes(words[k])[0]);
    assert(bytes[4 * k + 1] == u32_le_bytes(words[k])[1]);
    assert(bytes[4 * k + 2] == u32_le_bytes(words[k])[2]);
    assert(bytes[4 * k + 3] == u32_le_bytes(words[k])[3]);
    lemma_u32_le_roundtrip(words[k]);
}

/// The bytes of an uncompressed track hold the values as `uncompressed_values_match`
/// describes them, and the first transform's word after its translation is the compensate
/// scale flag.
proof fn lemma_uncompressed_bytes_match(values: TrackValues, compensate_scale: bool)
    ensures
        uncompressed_track_bytes(values, compensate_scale).len() == values.spec_len() * value_size(values.spec_track_type()),
        uncompressed_values_match(values, uncompressed_track_bytes(values, compensate_scale)),
        values.spec_track_type() == TrackTypeV2::Transform && values.spec_len() > 0
            ==> (le_u32_at(uncompressed_track_bytes(values, compensate_scale), 40) != 0) == compensate_scale,
{
    let bytes = uncompressed_track_bytes(values, compensate_scale);
    let words = track_words(values, compensate_scale);
    match values {
        TrackValues::Transform(v) => {
            assert forall|i: int, k: int| 0 <= i < v@.len() && 0 <= k < 10 implies
                #[trigger] transform_word(v@[i], false, k) == le_u32_at(bytes, 44 * i + 4 * k) by {
                lemma_block_index(11 * i + k, i, 11);
                lemma_words_le_bytes_word(words, 11 * i + k);
            }
            if v@.len() > 0 {
                lemma_block_index(10, 0, 11);
                lemma_words_le_bytes_word(words, 10);
            }
        },
        TrackValues::UvTransform(v) => {
            assert forall|i: int, k: int| 0 <= i < v@.len() && 0 <= k < 5 implies
                #[trigger] uv_word(v@[i], k) == le_u32_at(bytes, 20 * i + 4 * k) by {
                lemma_block_index(5 * i + k, i, 5);
                lemma_words_le_bytes_word(words, 5 * i + k);
            }
        },
        TrackValues::Float(v) => {
            assert forall|i: int| 0 <= i < v@.len() implies #[trigger] v@[i] == le_u32_at(bytes, 4 * i) by {
                lemma_words_le_bytes_word(words, i);
            }
        },
        TrackValues::PatternIndex(v) => {
            assert forall|i: int| 0 <= i < v@.len() implies #[trigger] v@[i] == le_u32_at(bytes, 4 * i) by {
                lemma_words_le_bytes_word(words, i);
            }
        },
        TrackValues::Boolean(v) => {},
        TrackValues::Vector4(v) => {
            assert forall|i: int, k: int| 0 <= i < v@.len() && 0 <= k < 4 implies
                #[trigger] v@[i]@[k] == le_u32_at(bytes, 16 * i + 4 * k) by {
                lemma_block_index(4 * i + k, i, 4);
                lemma_words_le_bytes_word(words, 4 * i + k);
            }
        },
    }
}

/// Values of one kind and count found in the same bytes are the same values.
proof fn lemma_uncompressed_values_unique(a: TrackValues, b: TrackValues, data: Seq<u8>)
    requires
        a.spec_track_type() == b.spec_track_type(),
        a.spec_len() == b.spec_len(),
        uncompressed_values_match(a, data),
        uncompressed_values_match(b, data),
    ensures
        same_track_values(a, b),
{
    match (a, b) {
        (TrackValues::Transform(x), TrackValues::Transform(y)) => {
            assert forall|i: int| 0 <= i < x@.len() implies x@[i] == y@[i] by {
                assert forall|k: int| 0 <= k < 10 implies transform_word(x@[i], false, k) == transform_word(y@[i], false, k) by {
                    assert(transform_word(x@[i], false, k) == le_u32_at(data, 44 * i + 4 * k));
                    assert(transform_word(y@[i], false, k) == le_u32_at(data, 44 * i + 4 * k));
                }
                assert(transform_word(x@[i], false, 0) == transform_word(y@[i], false, 0));
                assert(transform_word(x@[i], false, 1) == transform_word(y@[i], false, 1));
                assert(transform_word(x@[i], false, 2) == transform_word(y@[i], false, 2));
                assert(transform_word(x@[i], false, 3) == transform_word(y@[i], false, 3));
                assert(transform_word(x@[i], false, 4) == transform_word(y@[i], false, 4));
                assert(transform_word(x@[i], false, 5) == transform_word(y@[i], false, 5));
                assert(transform_word(x@[i], false, 6) == transform_word(y@[i], false, 6));
                assert(transform_word(x@[i], false, 7) == transform_word(y@[i], false, 7));
                assert(transform_word(x@[i], false, 8) == transform_word(y@[i], false, 8));
                assert(transform_word(x@[i], false, 9) == transform_word(y@[i], false, 9));
                assert(x@[i].scale =~= y@[i].scale);
                assert(x@[i].rotation =~= y@[i].rotation);
                assert(x@[i].translation =~= y@[i].translation);
            }
            assert(x@ =~= y@);
        },
        (TrackValues::UvTransform(x), TrackValues::UvTransform(y)) => {
            assert forall|i: int| 0 <= i < x@.len() implies x@[i] == y@[i] by {
                assert(uv_word(x@[i], 0) == le_u32_at(data, 20 * i));
                assert(uv_word(y@[i], 0) == le_u32_at(data, 20 * i));
                assert(uv_word(x@[i], 1) == le_u32_at(data, 20 * i + 4));
                assert(uv_word(y@[i], 1) == le_u32_at(data, 20 * i + 4));
                assert(uv_word(x@[i], 2) == le_u32_at(data, 20 * i + 8));
                assert(uv_word(y@[i], 2) == le_u32_at(data, 20 * i + 8));
                assert(uv_word(x@[i], 3) == le_u32_at(data, 20 * i + 12));
                assert(uv_word(y@[i], 3) == le_u32_at(data, 20 * i + 12));
                assert(uv_word(x@[i], 4) == le_u32_at(data, 20 * i + 16));
                assert(uv_word(y@[i], 4) == le_u32_at(data, 20 * i + 16));
            }
            assert(x@ =~= y@);
        },
        (TrackValues::Float(x), TrackValues::Float(y)) => {
            assert(x@ =~= y@);
        },
        (TrackValues::PatternIndex(x), TrackValues::PatternIndex(y)) => {
            assert(x@ =~= y@);
        },
        (TrackValues::Boolean(x), TrackValues::Boolean(y)) => {
            assert(x@ =~= y@);
        },
        (TrackValues::Vector4(x), TrackValues::Vector4(y)) => {
            assert forall|i: int| 0 <= i < x@.len() implies x@[i] == y@[i] by {
                assert forall|k: int| 0 <= k < 4 implies x@[i]@[k] == y@[i]@[k] by {
                    assert(x@[i]@[k] == le_u32_at(data, 16 * i + 4 * k));
                    assert(y@[i]@[k] == le_u32_at(data, 16 * i + 4 * k));
                }
                assert(x@[i] =~= y@[i]);
            }
            assert(x@ =~= y@);
        },
        _ => {},
    }
}

/// Reading back an uncompressed track gives the values that were written: values of the
/// written kind and count found in the written bytes are the written values, and a
/// nonempty transform track reads back the written compensate scale flag.
pub proof fn lemma_uncompressed_track_roundtrip(values: TrackValues, compensate_scale: bool, read_back: TrackValues)
    requires
        read_back.spec_track_type() == values.spec_track_type(),
        read_back.spec_len() == values.spec_len(),
        uncompressed_values_match(read_back, uncompressed_track_bytes(values, compensate_scale)),
    ensures
        uncompressed_track_bytes(values, compensate_scale).len() == values.spec_len() * value_size(values.spec_track_type()),
        same_track_values(read_back, values),
        values.spec_track_type() == TrackTypeV2::Transform && values.spec_len() > 0
            ==> (le_u32_at(uncompressed_track_bytes(values, compensate_scale), 40) != 0) == compensate_scale,
{
    lemma_uncompressed_bytes_match(values, compensate_scale);
    lemma_uncompressed_values_unique(read_back, values, uncompressed_track_bytes(values, compensate_scale));
}

} // verus!
