//! The compressed buffers of version 2.0 and later animation tracks: packing values into
//! bits and reading them back.
pub mod compressed_bytes;
pub mod compressed_floats;
pub mod float_codes;
pub mod uncompressed;
use vstd::prelude::*;
use vstd::arithmetic::power2::pow2;
use crate::anim_data::error::Error;
use crate::anim_data::v1::common::{le_u32_at, read_u32_le};
use crate::anim_data::compression::{
    Boolean, U32Compression, CompressedTrackData, CompressedHeader, CompressionFlags, is_u32_compression_for,
    DEFAULT_F32_BIT_COUNT, compress_u32, compress_boolean, decompress_u32,
    decompress_boolean,
};
use crate::anim_data::bitutils::{
    BitReader, BitWriter, BitReadError, BitBuffer, bits_value, low_bits, byte_bit, bytes_to_bits,
    max_bit_count, lemma_low_bits_value,
};

verus! {

/// The compressed bits of pattern indices: the offset of each value from `min` in `bit_count` bits.
pub open spec fn packed_u32_bits(values: Seq<u32>, min: u32, bit_count: nat) -> Seq<bool>
    decreases values.len(),
{
    if values.len() == 0 {
        Seq::<bool>::empty()
    } else {
        packed_u32_bits(values.drop_last(), min, bit_count) + low_bits((values.last() - min) as nat, bit_count)
    }
}

/// The compressed bits of booleans: one bit for each value.
pub open spec fn packed_boolean_bits(values: Seq<Boolean>) -> Seq<bool> {
    values.map_values(|b: Boolean| b.0 != 0)
}

proof fn lemma_packed_u32_len(values: Seq<u32>, min: u32, bit_count: nat)
    ensures
        packed_u32_bits(values, min, bit_count).len() == values.len() * bit_count,
    decreases values.len(),
{
    if values.len() > 0 {
        lemma_packed_u32_len(values.drop_last(), min, bit_count);
        assert(values.len() * bit_count == (values.len() - 1) * bit_count + bit_count) by (nonlinear_arith);
    }
}

/// Creates the compressed buffer for pattern indices.
pub fn create_compressed_buffer_u32(values: &[u32], compression: &U32Compression) -> (r: Vec<u8>)
    requires
        values@.len() * compression.bit_count <= max_bit_count(),
        values@.len() > 0 ==> 1 <= compression.bit_count <= 32,
        forall|k: int| 0 <= k < values@.len() ==> compression.min <= #[trigger] values@[k],
    ensures
        r@.len() == (values@.len() * compression.bit_count + 7) / 8,
        forall|i: int| 0 <= i < values@.len() * compression.bit_count ==>
            #[trigger] byte_bit(r@, i) == packed_u32_bits(values@, compression.min, compression.bit_count as nat)[i],
        forall|i: int| values@.len() * compression.bit_count <= i < 8 * r@.len() ==> !#[trigger] byte_bit(r@, i),
{
    let n = values.len();
    let bc = #[verifier::truncate] (compression.bit_count as usize);
    proof {
        if n > 0 {
            assert(n * bc <= n * compression.bit_count);
        }
    }
    let total: usize = if n == 0 { 0 } else { n * bc };
    let mut bits = BitBuffer::new();
    bits.resize(total, false);
    let mut writer = BitWriter::new(bits);
    let ghost initial = writer@.0;
    let mut k: usize = 0;
    while k < n
        invariant
            n == values@.len(),
            total == n * compression.bit_count,
            n > 0 ==> bc == compression.bit_count && 1 <= bc <= 32,
            k <= n,
            writer@.0.len() == total,
            writer@.1 == k * compression.bit_count,
            writer.head() == 0,
            writer.padding_clear(),
            writer@.0.subrange(0, writer@.1 as int) == packed_u32_bits(values@.take(k as int), compression.min, compression.bit_count as nat),
            forall|m: int| 0 <= m < values@.len() ==> compression.min <= #[trigger] values@[m],
        decreases n - k,
    {
        assert((k + 1) * compression.bit_count <= n * compression.bit_count) by (nonlinear_arith)
            requires k < n;
        assert((k + 1) * compression.bit_count == k * compression.bit_count + compression.bit_count) by (nonlinear_arith);
        let ghost before = writer@;
        compress_u32(values[k], &mut writer, compression);
        proof {
            let lb = low_bits((values@[k as int] - compression.min) as nat, compression.bit_count as nat);
            assert(values@.take(k + 1).drop_last() =~= values@.take(k as int));
            assert(writer@.0.subrange(0, writer@.1 as int) =~= before.0.subrange(0, before.1 as int) + lb);
        }
        k = k + 1;
    }
    proof {
        assert(values@.take(n as int) =~= values@);
        lemma_packed_u32_len(values@, compression.min, compression.bit_count as nat);
        assert(writer@.0 =~= writer@.0.subrange(0, total as int));
    }
    let ghost bits_written = writer@.0;
    let r = writer.into_bytes();
    assert forall|i: int| 0 <= i < values@.len() * compression.bit_count implies
        #[trigger] byte_bit(r@, i) == packed_u32_bits(values@, compression.min, compression.bit_count as nat)[i] by {
        assert(byte_bit(r@, 0 + i) == bits_written[i]);
    }
    r
}

/// Creates the compressed buffer for booleans: one bit per value.
pub fn create_compressed_buffer_boolean(values: &[Boolean]) -> (r: Vec<u8>)
    requires
        values@.len() <= max_bit_count(),
    ensures
        r@.len() == (values@.len() + 7) / 8,
        forall|i: int| 0 <= i < values@.len() ==> #[trigger] byte_bit(r@, i) == packed_boolean_bits(values@)[i],
        forall|i: int| values@.len() <= i < 8 * r@.len() ==> !#[trigger] byte_bit(r@, i),
{
    let n = values.len();
    let mut bits = BitBuffer::new();
    bits.resize(n, false);
    let mut writer = BitWriter::new(bits);
    let mut k: usize = 0;
    while k < n
        invariant
            n == values@.len(),
            k <= n,
            writer@.0.len() == n,
            writer@.1 == k,
            writer.head() == 0,
            writer.padding_clear(),
            forall|m: int| 0 <= m < k ==> #[trigger] writer@.0[m] == (values@[m].0 != 0),
        decreases n - k,
    {
        compress_boolean(&values[k], &mut writer);
        k = k + 1;
    }
    let ghost bits_written = writer@.0;
    let r = writer.into_bytes();
    assert forall|i: int| 0 <= i < values@.len() implies #[trigger] byte_bit(r@, i) == packed_boolean_bits(values@)[i] by {
        assert(byte_bit(r@, 0 + i) == bits_written[i]);
    }
    r
}


/// The number of values decoded for a track of `frame_count` frames: a track without
/// compressed bits holds a single repeated value.
pub open spec fn decoded_count(expected_bit_count: nat, frame_count: nat) -> nat {
    if expected_bit_count == 0 && frame_count > 0 { 1 } else { frame_count }
}

/// The pattern indices stored as `count` values of `bit_count` bits, each offset by `min`.
pub open spec fn unpack_u32_values(bits: Seq<bool>, min: u32, bit_count: nat, count: nat) -> Seq<u32> {
    Seq::new(count, |k: int| (bits_value(bits.subrange(k * bit_count, k * bit_count + bit_count)) + min) as u32)
}

/// The booleans stored one bit each: `1` for a set bit and `0` for a cleared one.
pub open spec fn unpack_boolean_values(bits: Seq<bool>, count: nat) -> Seq<Boolean> {
    Seq::new(count, |k: int| Boolean(if bits[k] { 1u8 } else { 0u8 }))
}

/// Decodes the values of a compressed pattern index track.
///
/// Fails when the header's bits per entry differ from the compression's bit count,
/// when the header has no compressed buffer, when a value is decoded without a default
/// value in the header, or when the buffer holds too few bits.
pub fn read_compressed_inner_u32(data: &CompressedTrackData<u32, U32Compression>, frame_count: usize) -> (r: Result<Vec<u32>, Error>)
    requires
        data.compression.bit_count <= usize::MAX,
        data.header.compressed_data matches Some(buffer) ==> buffer@.len() * 8 <= max_bit_count(),
        data.header.compressed_data matches Some(buffer) ==> {
            let bc = data.compression.bit_count as nat;
            let bits = bytes_to_bits(buffer@);
            &&& bc == data.header.bits_per_entry && 0 < bc <= bits.len() ==> bc <= 32
            &&& bc == data.header.bits_per_entry ==> forall|k: int| 0 <= k < frame_count && (k + 1) * bc <= bits.len() ==>
                #[trigger] bits_value(bits.subrange(k * bc, k * bc + bc)) + data.compression.min <= u32::MAX
        },
    ensures
        data.header.bits_per_entry != data.compression.bit_count ==> (r matches Err(Error::UnexpectedBitCount { expected, actual })
            && expected == data.compression.bit_count && actual == data.header.bits_per_entry),
        data.header.bits_per_entry == data.compression.bit_count && data.header.compressed_data is None
            ==> (r matches Err(Error::MalformedCompressionHeader)),
        data.header.bits_per_entry == data.compression.bit_count ==> (data.header.compressed_data matches Some(buffer) ==> {
            let bc = data.compression.bit_count as nat;
            let count = decoded_count(bc, frame_count as nat);
            let bits = bytes_to_bits(buffer@);
            &&& count > 0 && data.header.default_data is None ==> (r matches Err(Error::MalformedCompressionHeader))
            &&& (count == 0 || data.header.default_data is Some) && count * bc <= bits.len()
                ==> (r matches Ok(values) && values@ == unpack_u32_values(bits, data.compression.min, bc, count))
            &&& (count == 0 || data.header.default_data is Some) && count * bc > bits.len()
                ==> (r matches Err(Error::BitError(BitReadError::NotEnoughBits)))
        }),
{
    let expected_bit_count = data.compression.bit_count as usize;
    if data.header.bits_per_entry as usize != expected_bit_count {
        return Err(Error::UnexpectedBitCount { expected: expected_bit_count, actual: data.header.bits_per_entry as usize });
    }
    let buffer = match &data.header.compressed_data {
        Some(buffer) => buffer,
        None => return Err(Error::MalformedCompressionHeader),
    };
    let mut reader = BitReader::from_slice(buffer.as_slice());
    let actual_count = if expected_bit_count == 0 && frame_count > 0 { 1 } else { frame_count };
    let ghost bc = expected_bit_count as nat;
    let ghost bits = bytes_to_bits(buffer@);
    let mut values: Vec<u32> = Vec::new();
    let mut k: usize = 0;
    while k < actual_count
        invariant
            bc == data.compression.bit_count,
            bc == data.header.bits_per_entry,
            data.header.compressed_data == Some(*buffer),
            bits == bytes_to_bits(buffer@),
            bits.len() <= max_bit_count(),
            0 < bc <= bits.len() ==> bc <= 32,
            forall|m: int| 0 <= m < frame_count && (m + 1) * bc <= bits.len() ==>
                #[trigger] bits_value(bits.subrange(m * bc, m * bc + bc)) + data.compression.min <= u32::MAX,
            actual_count == decoded_count(bc, frame_count as nat),
            k <= actual_count,
            k * bc <= bits.len(),
            k > 0 ==> data.header.default_data is Some,
            reader@.0 == bits,
            reader@.1 == k * bc,
            values@ == unpack_u32_values(bits, data.compression.min, bc, k as nat),
        decreases actual_count - k,
    {
        if data.header.default_data.is_none() {
            return Err(Error::MalformedCompressionHeader);
        }
        proof {
            assert(k * bc + bc == (k + 1) * bc) by (nonlinear_arith);
            if bc > 0 && (k + 1) * bc <= bits.len() {
                assert(bc <= bits.len()) by (nonlinear_arith)
                    requires (k + 1) * bc <= bits.len(), bc > 0;
            }
            if bc == 0 {
                assert(k == 0);
            }
        }
        let value = match decompress_u32(&mut reader, &data.compression) {
            Ok(v) => v,
            Err(e) => {
                proof {
                    assert(e == BitReadError::NotEnoughBits);
                    assert(k * bc + bc > bits.len());
                    assert((actual_count as int) * bc >= (k + 1) * bc) by (nonlinear_arith)
                        requires k < actual_count;
                }
                return Err(Error::BitError(e));
            },
        };
        values.push(value);
        proof {
            assert(values@ =~= unpack_u32_values(bits, data.compression.min, bc, (k + 1) as nat));
        }
        k = k + 1;
    }
    Ok(values)
}


/// Decodes the values of a compressed boolean track. Booleans take one bit each.
///
/// Fails when the header's bits per entry are not one, when the header has no compressed
/// buffer, when a value is decoded without a default value in the header, or when the
/// buffer holds too few bits.
pub fn read_compressed_inner_boolean(data: &CompressedTrackData<Boolean, u128>, frame_count: usize) -> (r: Result<Vec<Boolean>, Error>)
    requires
        data.header.compressed_data matches Some(buffer) ==> buffer@.len() * 8 <= max_bit_count(),
    ensures
        data.header.bits_per_entry != 1 ==> (r matches Err(Error::UnexpectedBitCount { expected, actual })
            && expected == 1 && actual == data.header.bits_per_entry),
        data.header.bits_per_entry == 1 && data.header.compressed_data is None
            ==> (r matches Err(Error::MalformedCompressionHeader)),
        data.header.bits_per_entry == 1 ==> (data.header.compressed_data matches Some(buffer) ==> {
            let bits = bytes_to_bits(buffer@);
            &&& frame_count > 0 && data.header.default_data is None ==> (r matches Err(Error::MalformedCompressionHeader))
            &&& (frame_count == 0 || data.header.default_data is Some) && frame_count <= bits.len()
                ==> (r matches Ok(values) && values@ == unpack_boolean_values(bits, frame_count as nat))
            &&& (frame_count == 0 || data.header.default_data is Some) && frame_count > bits.len()
                ==> (r matches Err(Error::BitError(BitReadError::NotEnoughBits)))
        }),
{
    let expected_bit_count: usize = 1;
    if data.header.bits_per_entry as usize != expected_bit_count {
        return Err(Error::UnexpectedBitCount { expected: expected_bit_count, actual: data.header.bits_per_entry as usize });
    }
    let buffer = match &data.header.compressed_data {
        Some(buffer) => buffer,
        None => return Err(Error::MalformedCompressionHeader),
    };
    let mut reader = BitReader::from_slice(buffer.as_slice());
    let ghost bits = bytes_to_bits(buffer@);
    let mut values: Vec<Boolean> = Vec::new();
    let mut k: usize = 0;
    while k < frame_count
        invariant
            data.header.bits_per_entry == 1,
            data.header.compressed_data == Some(*buffer),
            bits == bytes_to_bits(buffer@),
            bits.len() <= max_bit_count(),
            k <= frame_count,
            k <= bits.len(),
            k > 0 ==> data.header.default_data is Some,
            reader@.0 == bits,
            reader@.1 == k,
            values@ == unpack_boolean_values(bits, k as nat),
        decreases frame_count - k,
    {
        if data.header.default_data.is_none() {
            return Err(Error::MalformedCompressionHeader);
        }
        let value = match decompress_boolean(&mut reader, data.header.bits_per_entry as usize) {
            Ok(v) => v,
            Err(e) => {
                return Err(Error::BitError(e));
            },
        };
        proof {
            reveal_with_fuel(bits_value, 2);
            assert(bits.subrange(k as int, k + 1).drop_first().len() == 0);
            assert(bits.subrange(k as int, k + 1)[0] == bits[k as int]);
        }
        values.push(value);
        proof {
            assert(values@ =~= unpack_boolean_values(bits, (k + 1) as nat));
        }
        k = k + 1;
    }
    Ok(values)
}

/// `track` is what writing the pattern indices `values` with `flags` produces: the chosen
/// compression, a zero default, the bit count of the compression as bits per entry, the
/// frame count, and the packed values as the compressed buffer, its remaining bits cleared.
pub open spec fn written_u32_track(values: Seq<u32>, flags: CompressionFlags, track: CompressedTrackData<u32, U32Compression>) -> bool {
    &&& is_u32_compression_for(values, track.compression)
    &&& track.header.unk_4 == 4
    &&& track.header.flags == flags
    &&& track.header.default_data == Some(0u32)
    &&& track.header.bits_per_entry == track.compression.bit_count
    &&& track.header.frame_count == values.len() as u32
    &&& track.header.compressed_data matches Some(buffer)
        && buffer@.len() == (values.len() * track.compression.bit_count + 7) / 8
        && forall|i: int| 0 <= i < values.len() * track.compression.bit_count ==>
            #[trigger] byte_bit(buffer@, i) == packed_u32_bits(values, track.compression.min, track.compression.bit_count as nat)[i]
        && forall|i: int| values.len() * track.compression.bit_count <= i < 8 * buffer@.len() ==> !#[trigger] byte_bit(buffer@, i)
}

/// `track` is what writing the booleans `values` with `flags` produces: a zero compression,
/// a `false` default, one bit per entry, the frame count, and one bit per value as the
/// compressed buffer, its remaining bits cleared.
pub open spec fn written_boolean_track(values: Seq<Boolean>, flags: CompressionFlags, track: CompressedTrackData<Boolean, u128>) -> bool {
    &&& track.compression == 0
    &&& track.header.unk_4 == 4
    &&& track.header.flags == flags
    &&& track.header.default_data == Some(Boolean(0u8))
    &&& track.header.bits_per_entry == 1
    &&& track.header.frame_count == values.len() as u32
    &&& track.header.compressed_data matches Some(buffer)
        && buffer@.len() == (values.len() + 7) / 8
        && forall|i: int| 0 <= i < values.len() ==> #[trigger] byte_bit(buffer@, i) == packed_boolean_bits(values)[i]
        && forall|i: int| values.len() <= i < 8 * buffer@.len() ==> !#[trigger] byte_bit(buffer@, i)
}

/// Creates the compressed track of pattern indices: the values packed with the compression
/// chosen for them.
pub fn create_compressed_track_u32(values: &[u32], flags: CompressionFlags) -> (r: CompressedTrackData<u32, U32Compression>)
    requires
        values@.len() * DEFAULT_F32_BIT_COUNT <= max_bit_count(),
    ensures
        written_u32_track(values@, flags, r),
{
    let compression = U32Compression::from_values(values);
    let compressed_data = create_compressed_buffer_u32(values, &compression);
    let bits_per_entry = compression.bit_count(flags) as u16;
    CompressedTrackData {
        header: CompressedHeader {
            unk_4: 4,
            flags,
            default_data: Some(0u32),
            bits_per_entry,
            compressed_data: Some(compressed_data),
            frame_count: #[verifier::truncate] (values.len() as u32),
        },
        compression,
    }
}

/// Creates the compressed track of booleans: one bit per value.
pub fn create_compressed_track_boolean(values: &[Boolean], flags: CompressionFlags) -> (r: CompressedTrackData<Boolean, u128>)
    requires
        values@.len() <= max_bit_count(),
    ensures
        written_boolean_track(values@, flags, r),
{
    let compressed_data = create_compressed_buffer_boolean(values);
    CompressedTrackData {
        header: CompressedHeader {
            unk_4: 4,
            flags,
            default_data: Some(Boolean(0u8)),
            bits_per_entry: 1,
            compressed_data: Some(compressed_data),
            frame_count: #[verifier::truncate] (values.len() as u32),
        },
        compression: 0u128,
    }
}

/// The bits of the value at position `k` among packed pattern indices.
proof fn lemma_packed_u32_slot(values: Seq<u32>, min: u32, bit_count: nat, k: int)
    requires
        0 <= k < values.len(),
    ensures
        0 <= k * bit_count,
        (k + 1) * bit_count <= values.len() * bit_count,
        packed_u32_bits(values, min, bit_count).subrange(k * bit_count, k * bit_count + bit_count)
            == low_bits((values[k] - min) as nat, bit_count),
    decreases values.len(),
{
    let n = values.len();
    let p = packed_u32_bits(values.drop_last(), min, bit_count);
    lemma_packed_u32_len(values.drop_last(), min, bit_count);
    assert(0 <= k * bit_count) by (nonlinear_arith) requires 0 <= k;
    assert((k + 1) * bit_count <= n * bit_count) by (nonlinear_arith) requires k < n;
    assert(k * bit_count + bit_count == (k + 1) * bit_count) by (nonlinear_arith);
    if k == n - 1 {
        assert(p.len() == k * bit_count);
        assert(packed_u32_bits(values, min, bit_count).subrange(k * bit_count, k * bit_count + bit_count)
            =~= low_bits((values[k] - min) as nat, bit_count));
    } else {
        lemma_packed_u32_slot(values.drop_last(), min, bit_count, k);
        assert(packed_u32_bits(values, min, bit_count).subrange(k * bit_count, k * bit_count + bit_count)
            =~= p.subrange(k * bit_count, k * bit_count + bit_count));
    }
}

/// Pattern indices written into a compressed track and read back give the same values, when
/// every value lies less than `2^bit_count` above the smallest one (larger ranges lose their
/// high bits).
pub proof fn lemma_u32_track_roundtrip(values: Seq<u32>, flags: CompressionFlags, track: CompressedTrackData<u32, U32Compression>)
    requires
        written_u32_track(values, flags, track),
        track.compression.max - track.compression.min < pow2(track.compression.bit_count as nat),
    ensures
        track.header.bits_per_entry == track.compression.bit_count,
        track.header.default_data is Some,
        track.header.compressed_data matches Some(buffer) && {
            let bc = track.compression.bit_count as nat;
            let bits = bytes_to_bits(buffer@);
            &&& decoded_count(bc, values.len()) == values.len()
            &&& values.len() * bc <= bits.len()
            &&& unpack_u32_values(bits, track.compression.min, bc, values.len()) == values
        },
{
    let buffer = track.header.compressed_data->0;
    let bc = track.compression.bit_count as nat;
    let min = track.compression.min;
    let bits = bytes_to_bits(buffer@);
    let n = values.len();
    assert(n * bc <= bits.len()) by (nonlinear_arith)
        requires bits.len() == buffer@.len() * 8, buffer@.len() == (n * bc + 7) / 8;
    lemma_packed_u32_len(values, min, bc);
    assert forall|k: int| 0 <= k < n implies #[trigger] unpack_u32_values(bits, min, bc, n)[k] == values[k] by {
        lemma_packed_u32_slot(values, min, bc, k);
        let v = (values[k] - min) as nat;
        assert(bits.subrange(k * bc, k * bc + bc) =~= low_bits(v, bc)) by {
            assert forall|j: int| 0 <= j < bc implies bits.subrange(k * bc, k * bc + bc)[j] == low_bits(v, bc)[j] by {
                assert(byte_bit(buffer@, k * bc + j) == packed_u32_bits(values, min, bc)[k * bc + j]);
                assert(packed_u32_bits(values, min, bc).subrange(k * bc, k * bc + bc)[j] == packed_u32_bits(values, min, bc)[k * bc + j]);
            }
        }
        lemma_low_bits_value(v, bc);
        assert(values[k] <= track.compression.max);
        vstd::arithmetic::div_mod::lemma_small_mod(v, pow2(bc));
    }
    assert(unpack_u32_values(bits, min, bc, n) =~= values);
}

/// Booleans written into a compressed track and read back keep their truth values: each read
/// value is `1` where the written one was nonzero and `0` elsewhere, so booleans of `0` and `1`
/// come back unchanged.
pub proof fn lemma_boolean_track_roundtrip(values: Seq<Boolean>, flags: CompressionFlags, track: CompressedTrackData<Boolean, u128>)
    requires
        written_boolean_track(values, flags, track),
    ensures
        track.header.bits_per_entry == 1,
        track.header.default_data is Some,
        track.header.compressed_data matches Some(buffer) && {
            let bits = bytes_to_bits(buffer@);
            &&& values.len() <= bits.len()
            &&& forall|k: int| 0 <= k < values.len() ==>
                #[trigger] unpack_boolean_values(bits, values.len())[k] == Boolean(if values[k].0 != 0 { 1u8 } else { 0u8 })
            &&& (forall|k: int| 0 <= k < values.len() ==> #[trigger] values[k].0 <= 1)
                ==> unpack_boolean_values(bits, values.len()) == values
        },
{
    let buffer = track.header.compressed_data->0;
    let bits = bytes_to_bits(buffer@);
    let n = values.len();
    assert forall|k: int| 0 <= k < n implies #[trigger] unpack_boolean_values(bits, n)[k] == Boolean(if values[k].0 != 0 { 1u8 } else { 0u8 }) by {
        assert(byte_bit(buffer@, k) == packed_boolean_bits(values)[k]);
    }
    if forall|k: int| 0 <= k < n ==> #[trigger] values[k].0 <= 1 {
        assert forall|k: int| 0 <= k < n implies #[trigger] unpack_boolean_values(bits, n)[k] == values[k] by {
            assert(unpack_boolean_values(bits, n)[k] == Boolean(if values[k].0 != 0 { 1u8 } else { 0u8 }));
        }
        assert(unpack_boolean_values(bits, n) =~= values);
    }
}


/// The number of values in a compressed version 1.2 block, given by the block's second
/// header word: mostly by its upper three bytes, otherwise by the whole word.
pub open spec fn block_value_count(unk2: u32) -> nat {
    let value = unk2 & 0xFFFFFF00u32;
    match value {
        0x10000100 => 1,
        0x11002100 => 5,
        0x11003000 => 6,
        0x11020100 => 1,
        0x12000400 => 4,
        0x12000500 => 5,
        0x12000600 => 6,
        0x12000700 => 7,
        0x12000800 => 8,
        0x12001300 => 5,
        0x12001400 => 6,
        0x12001500 => 7,
        0x12001600 => 8,
        0x12001700 => 9,
        0x12002200 => 6,
        0x12002300 => 7,
        0x12002400 => 8,
        0x12002500 => 9,
        0x12002600 => 10,
        0x12003100 => 7,
        0x12003200 => 8,
        0x12003300 => 9,
        0x12003400 => 10,
        0x12003500 => 11,
        0x12004100 => 9,
        0x12004200 => 10,
        0x12006000 => 12,
        0x12004300 => 11,
        0x12004400 => 12,
        0x12005100 => 11,
        0x12005200 => 12,
        0x12005300 => 13,
        0x12006100 => 13,
        0x12006200 => 14,
        0x12007000 => 14,
        0x12007100 => 15,
        0x12008000 => 16,
        0x12040100 => 1,
        0x12060100 => 1,
        0x12200200 => 3,
        0x12200300 => 4,
        0x12200400 => 5,
        0x12200500 => 6,
        0x12200600 => 7,
        0x12220000 => 1,
        0x12220100 => 2,
        0x12240000 => 1,
        0x12240100 => 2,
        0x12260000 => 1,
        0x12400000 => 2,
        0x12400100 => 3,
        0x12400200 => 4,
        0x12400300 => 5,
        0x12400400 => 6,
        0x12420000 => 2,
        0x12420100 => 3,
        0x12004000 => 8,
        0x12005000 => 10,
        0x12440000 => 2,
        0x12600000 => 3,
        0x12600100 => 4,
        0x12600200 => 5,
        0x12620000 => 3,
        _ => match unk2 {
            0x100010FF => 2,
            0x110002FF => 2,
            0x110003FF => 3,
            0x110011FF => 3,
            0x110012FF => 4,
            0x110020FF => 4,
            0x11020001 => 0,
            0x110200FF => 0,
            0x112000FF => 1,
            0x112001FF => 2,
            0x12002542 => 9,
            0x1200313A => 7,
            0x12003141 => 6,
            0x12003358 => 8,
            0x12003442 => 10,
            0x120043D1 => 11,
            0x12006057 => 12,
            0x12040001 => 0,
            0x12080001 => 0,
            0x12080050 => 0,
            0x12080060 => 0,
            0x1280002E => 4,
            _ => 0,
        },
    }
}

/// The number of values in a compressed version 1.2 block with the second header word `unk2`.
pub fn v12_compressed_block_value_count(unk2: u32) -> (r: usize)
    ensures
        r == block_value_count(unk2),
{
    let value: u32 = unk2 & 0xFFFFFF00u32;
    match value {
        0x10000100 => 1,
        0x11002100 => 5,
        0x11003000 => 6,
        0x11020100 => 1,
        0x12000400 => 4,
        0x12000500 => 5,
        0x12000600 => 6,
        0x12000700 => 7,
        0x12000800 => 8,
        0x12001300 => 5,
        0x12001400 => 6,
        0x12001500 => 7,
        0x12001600 => 8,
        0x12001700 => 9,
        0x12002200 => 6,
        0x12002300 => 7,
        0x12002400 => 8,
        0x12002500 => 9,
        0x12002600 => 10,
        0x12003100 => 7,
        0x12003200 => 8,
        0x12003300 => 9,
        0x12003400 => 10,
        0x12003500 => 11,
        0x12004100 => 9,
        0x12004200 => 10,
        0x12006000 => 12,
        0x12004300 => 11,
        0x12004400 => 12,
        0x12005100 => 11,
        0x12005200 => 12,
        0x12005300 => 13,
        0x12006100 => 13,
        0x12006200 => 14,
        0x12007000 => 14,
        0x12007100 => 15,
        0x12008000 => 16,
        0x12040100 => 1,
        0x12060100 => 1,
        0x12200200 => 3,
        0x12200300 => 4,
        0x12200400 => 5,
        0x12200500 => 6,
        0x12200600 => 7,
        0x12220000 => 1,
        0x12220100 => 2,
        0x12240000 => 1,
        0x12240100 => 2,
        0x12260000 => 1,
        0x12400000 => 2,
        0x12400100 => 3,
        0x12400200 => 4,
        0x12400300 => 5,
        0x12400400 => 6,
        0x12420000 => 2,
        0x12420100 => 3,
        0x12004000 => 8,
        0x12005000 => 10,
        0x12440000 => 2,
        0x12600000 => 3,
        0x12600100 => 4,
        0x12600200 => 5,
        0x12620000 => 3,
        _ => match unk2 {
            0x100010FF => 2,
            0x110002FF => 2,
            0x110003FF => 3,
            0x110011FF => 3,
            0x110012FF => 4,
            0x110020FF => 4,
            0x11020001 => 0,
            0x110200FF => 0,
            0x112000FF => 1,
            0x112001FF => 2,
            0x12002542 => 9,
            0x1200313A => 7,
            0x12003141 => 6,
            0x12003358 => 8,
            0x12003442 => 10,
            0x120043D1 => 11,
            0x12006057 => 12,
            0x12040001 => 0,
            0x12080001 => 0,
            0x12080050 => 0,
            0x12080060 => 0,
            0x1280002E => 4,
            _ => 0,
        },
    }
}


/// A compressed version 1.2 block: two header words, then as many values as the second
/// header word gives.
#[derive(Debug, Clone, PartialEq, Eq)]
pub struct V12CompressedBlock {
    pub unk1: u32,
    pub unk2: u32,
    pub values: Vec<u32>,
}

/// The blocks stored from byte `off` to the end of `data`, as their header words and
/// values: blocks follow one another until the bytes end, and a block that the bytes end
/// inside is not kept.
pub open spec fn v12_blocks_from(data: Seq<u8>, off: nat) -> Seq<(u32, u32, Seq<u32>)>
    decreases data.len() - off,
{
    if off + 8 > data.len() {
        Seq::empty()
    } else {
        let unk2 = le_u32_at(data, (off + 4) as int);
        let n = block_value_count(unk2);
        if off + 8 + 4 * n > data.len() {
            Seq::empty()
        } else {
            let values = Seq::new(n, |k: int| le_u32_at(data, off + 8 + 4 * k));
            seq![(le_u32_at(data, off as int), unk2, values)] + v12_blocks_from(data, off + 8 + 4 * n)
        }
    }
}

/// The header words and values of each block.
pub open spec fn v12_block_views(blocks: Seq<V12CompressedBlock>) -> Seq<(u32, u32, Seq<u32>)> {
    Seq::new(blocks.len(), |i: int| (blocks[i].unk1, blocks[i].unk2, blocks[i].values@))
}

/// Reads the compressed version 1.2 blocks from byte `offset` to the end of `data`,
/// stopping at the end of the bytes; a block that the bytes end inside is dropped.
pub fn read_v12_compressed_blocks(data: &[u8], offset: usize) -> (r: Vec<V12CompressedBlock>)
    ensures
        v12_block_views(r@) == v12_blocks_from(data@, offset as nat),
{
    let len: usize = data.len();
    let mut blocks: Vec<V12CompressedBlock> = Vec::new();
    let mut off: usize = offset;
    while off <= len && 8 <= len - off
        invariant
            len == data@.len(),
            v12_block_views(blocks@) + v12_blocks_from(data@, off as nat) == v12_blocks_from(data@, offset as nat),
        decreases len - off,
    {
        let unk1 = match read_u32_le(data, off) { Ok(v) => v, Err(_) => 0 };
        let unk2 = match read_u32_le(data, off + 4) { Ok(v) => v, Err(_) => 0 };
        let n = v12_compressed_block_value_count(unk2);
        if n > (len - off - 8) / 4 {
            proof {
                assert(off + 8 + 4 * n > len) by (nonlinear_arith)
                    requires n > ((len - off - 8) as int) / 4, off + 8 <= len;
                assert(v12_blocks_from(data@, off as nat) =~= Seq::empty());
                assert(v12_block_views(blocks@) + Seq::<(u32, u32, Seq<u32>)>::empty() =~= v12_block_views(blocks@));
            }
            return blocks;
        }
        proof {
            assert(off + 8 + 4 * n <= len) by (nonlinear_arith)
                requires n <= ((len - off - 8) as int) / 4, off + 8 <= len;
        }
        let mut values: Vec<u32> = Vec::new();
        let mut k: usize = 0;
        while k < n
            invariant
                len == data@.len(),
                off + 8 + 4 * n <= len,
                k <= n,
                values@ =~= Seq::new(k as nat, |m: int| le_u32_at(data@, off + 8 + 4 * m)),
            decreases n - k,
        {
            let v = match read_u32_le(data, off + 8 + 4 * k) { Ok(v) => v, Err(_) => 0 };
            values.push(v);
            k = k + 1;
        }
        let ghost before = blocks@;
        blocks.push(V12CompressedBlock { unk1, unk2, values });
        proof {
            assert(v12_block_views(blocks@) =~= v12_block_views(before).push(
                (unk1, unk2, Seq::new(n as nat, |m: int| le_u32_at(data@, off + 8 + 4 * m)))));
            assert(v12_block_views(blocks@) + v12_blocks_from(data@, (off + 8 + 4 * n) as nat)
                =~= v12_block_views(before) + v12_blocks_from(data@, off as nat));
        }
        off = off + 8 + 4 * n;
    }
    proof {
        assert(v12_blocks_from(data@, off as nat) =~= Seq::empty());
        assert(v12_block_views(blocks@) + Seq::<(u32, u32, Seq<u32>)>::empty() =~= v12_block_views(blocks@));
    }
    blocks
}

} // verus!
