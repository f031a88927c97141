//! The byte layout of a compressed track of version 2.0 and later animations: a 16-byte
//! header, the compression parameters, then the default value and the compressed buffer
//! that the header points to by their offsets from the start of the track.
use vstd::prelude::*;
use crate::anim_data::error::Error;
use crate::anim_data::compression::{
    Boolean, CompressedHeader, CompressedTrackData, CompressionFlags, F32Compression, U32Compression, DEFAULT_F32_BIT_COUNT,
    flags_bits,
    flags_from_bits, lemma_flags_roundtrip,
};
use crate::anim_data::bitutils::max_bit_count;
use crate::anim_data::buffers::{
    create_compressed_track_boolean, create_compressed_track_u32, lemma_boolean_track_roundtrip, unpack_boolean_values,
    written_boolean_track, written_u32_track,
};
use crate::anim_data::bitutils::bytes_to_bits;
use crate::anim_data::buffers::uncompressed::{lemma_words_le_bytes_word, push_words_le, words_le_bytes};
use crate::anim_data::v1::common::{le_u16_at, le_u32_at, read_u16_le, read_u32_le};
use crate::bytes::{u16_le_bytes, u32_le_bytes, push_u16_le, push_u32_le, lemma_u16_le_roundtrip, lemma_u32_le_roundtrip};

verus! {

/// The number of bytes of the header and the compression parameters.
pub open spec fn head_size() -> nat {
    32
}

/// The little-endian 64-bit value at `off`.
pub open spec fn le_u64_at(data: Seq<u8>, off: int) -> u64 {
    (le_u32_at(data, off) + le_u32_at(data, off + 4) * 0x1_0000_0000) as u64
}

/// The little-endian 128-bit value at `off`.
pub open spec fn le_u128_at(data: Seq<u8>, off: int) -> u128 {
    (le_u64_at(data, off) + le_u64_at(data, off + 8) * 0x1_0000_0000_0000_0000) as u128
}

/// The data that a nonzero offset points to: everything from the offset to the end, which
/// is nothing when the offset lies past the end. A zero offset points to nothing.
pub open spec fn pointed_bytes(data: Seq<u8>, off: u32) -> Option<Seq<u8>> {
    if off == 0 {
        None
    } else if off <= data.len() {
        Some(data.subrange(off as int, data.len() as int))
    } else {
        Some(Seq::<u8>::empty())
    }
}

/// The header fields stored in the first 16 bytes: a 16-bit value, the flags, the offset
/// of the default value, the bits per entry, the offset of the compressed buffer and the
/// frame count. The default value is read by the caller, as its type decides its size.
pub open spec fn header_matches<T>(h: CompressedHeader<T>, data: Seq<u8>) -> bool {
    &&& h.unk_4 == le_u16_at(data, 0)
    &&& h.flags == flags_from_bits(le_u16_at(data, 2))
    &&& h.bits_per_entry == le_u16_at(data, 6)
    &&& h.frame_count == le_u32_at(data, 12)
    &&& match (h.compressed_data, pointed_bytes(data, le_u32_at(data, 8))) {
        (None, None) => true,
        (Some(b), Some(s)) => b@ == s,
        _ => false,
    }
}

/// Whether the bytes hold a compressed pattern index track: the header and the
/// compression, a bit count of at most 32, and the default value when its offset is set.
pub open spec fn is_compressed_track_u32(data: Seq<u8>) -> bool {
    &&& data.len() >= head_size()
    &&& le_u64_at(data, 24) <= 32
    &&& le_u16_at(data, 4) == 0 || le_u16_at(data, 4) + 4 <= data.len()
}

/// The pattern index track stored in `data`, as [`is_compressed_track_u32`] lays it out.
pub open spec fn compressed_track_u32_matches(t: CompressedTrackData<u32, U32Compression>, data: Seq<u8>) -> bool {
    &&& header_matches(t.header, data)
    &&& t.header.default_data == (if le_u16_at(data, 4) == 0 { None } else { Some(le_u32_at(data, le_u16_at(data, 4) as int)) })
    &&& t.compression == U32Compression { min: le_u32_at(data, 16), max: le_u32_at(data, 20), bit_count: le_u64_at(data, 24) }
}

/// Whether the bytes hold a compressed boolean track: the header and the compression, and
/// the default value when its offset is set.
pub open spec fn is_compressed_track_boolean(data: Seq<u8>) -> bool {
    &&& data.len() >= head_size()
    &&& le_u16_at(data, 4) == 0 || le_u16_at(data, 4) + 1 <= data.len()
}

/// The boolean track stored in `data`, as [`is_compressed_track_boolean`] lays it out.
pub open spec fn compressed_track_boolean_matches(t: CompressedTrackData<Boolean, u128>, data: Seq<u8>) -> bool {
    &&& header_matches(t.header, data)
    &&& t.header.default_data == (if le_u16_at(data, 4) == 0 { None } else { Some(Boolean(data[le_u16_at(data, 4) as int])) })
    &&& t.compression == le_u128_at(data, 16)
}

/// The little-endian 64-bit value at `off`.
fn read_u64_at(data: &[u8], off: usize) -> (r: u64)
    requires
        off + 8 <= data@.len(),
    ensures
        r == le_u64_at(data@, off as int),
{
    let _len = data.len();
    let lo = match read_u32_le(data, off) { Ok(v) => v, Err(_) => 0 };
    let hi = match read_u32_le(data, off + 4) { Ok(v) => v, Err(_) => 0 };
    lo as u64 + (hi as u64) * 0x1_0000_0000
}

/// The bytes from `off` to the end, or nothing when `off` lies past the end; `None` for
/// a zero offset.
fn read_pointed_bytes(data: &[u8], off: u32) -> (r: Option<Vec<u8>>)
    ensures
        match (r, pointed_bytes(data@, off)) {
            (None, None) => true,
            (Some(b), Some(s)) => b@ == s,
            _ => false,
        },
{
    if off == 0 {
        return None;
    }
    let len = data.len();
    let mut out: Vec<u8> = Vec::new();
    if (off as usize) <= len {
        let start = off as usize;
        let mut i: usize = start;
        while i < len
            invariant
                len == data@.len(),
                start <= i <= len,
                out@ == data@.subrange(start as int, i as int),
            decreases len - i,
        {
            out.push(data[i]);
            i = i + 1;
            proof {
                assert(out@ =~= data@.subrange(start as int, i as int));
            }
        }
    }
    proof {
        assert(off as usize > len ==> out@ =~= Seq::<u8>::empty());
    }
    Some(out)
}

/// The header fields of the first 16 bytes; the default value is set by the caller.
fn read_header<T>(data: &[u8]) -> (r: CompressedHeader<T>)
    requires
        data@.len() >= 16,
    ensures
        header_matches(r, data@),
        r.default_data is None,
{
    let unk_4 = match read_u16_le(data, 0) { Ok(v) => v, Err(_) => 0 };
    let flags = match read_u16_le(data, 2) { Ok(v) => v, Err(_) => 0 };
    let bits_per_entry = match read_u16_le(data, 6) { Ok(v) => v, Err(_) => 0 };
    let compressed_offset = match read_u32_le(data, 8) { Ok(v) => v, Err(_) => 0 };
    let frame_count = match read_u32_le(data, 12) { Ok(v) => v, Err(_) => 0 };
    CompressedHeader {
        unk_4,
        flags: CompressionFlags::from_bits(flags),
        default_data: None,
        bits_per_entry,
        compressed_data: read_pointed_bytes(data, compressed_offset),
        frame_count,
    }
}

/// Reads a compressed pattern index track: its header, its compression and the default
/// value and compressed buffer that the header points to.
///
/// Fails with [`Error::InvalidData`] when the bytes end before the compression does or
/// before the default value does, or when the bit count is above 32.
pub fn parse_compressed_track_u32(data: &[u8]) -> (r: Result<CompressedTrackData<u32, U32Compression>, Error>)
    ensures
        (r is Ok) <==> is_compressed_track_u32(data@),
        r matches Err(e) ==> e is InvalidData,
        r matches Ok(t) ==> compressed_track_u32_matches(t, data@),
{
    if data.len() < 32 {
        return Err(Error::InvalidData);
    }
    let bit_count = read_u64_at(data, 24);
    if bit_count > 32 {
        return Err(Error::InvalidData);
    }
    let default_offset = match read_u16_le(data, 4) { Ok(v) => v, Err(_) => 0 };
    let default_data = if default_offset == 0 {
        None
    } else if (default_offset as usize) > data.len() {
        return Err(Error::InvalidData);
    } else {
        match read_u32_le(data, default_offset as usize) {
            Ok(v) => Some(v),
            Err(e) => return Err(e),
        }
    };
    let min = match read_u32_le(data, 16) { Ok(v) => v, Err(_) => 0 };
    let max = match read_u32_le(data, 20) { Ok(v) => v, Err(_) => 0 };
    let mut header = read_header(data);
    header.default_data = default_data;
    Ok(CompressedTrackData { header, compression: U32Compression { min, max, bit_count } })
}

/// Reads a compressed boolean track: its header, its compression and the default value
/// and compressed buffer that the header points to.
///
/// Fails with [`Error::InvalidData`] when the bytes end before the compression does or
/// before the default value does.
pub fn parse_compressed_track_boolean(data: &[u8]) -> (r: Result<CompressedTrackData<Boolean, u128>, Error>)
    ensures
        (r is Ok) <==> is_compressed_track_boolean(data@),
        r matches Err(e) ==> e is InvalidData,
        r matches Ok(t) ==> compressed_track_boolean_matches(t, data@),
{
    if data.len() < 32 {
        return Err(Error::InvalidData);
    }
    let default_offset = match read_u16_le(data, 4) { Ok(v) => v, Err(_) => 0 };
    let default_data = if default_offset == 0 {
        None
    } else if (default_offset as usize) < data.len() {
        Some(Boolean(data[default_offset as usize]))
    } else {
        return Err(Error::InvalidData);
    };
    let lo = read_u64_at(data, 16);
    let hi = read_u64_at(data, 24);
    let compression = lo as u128 + (hi as u128) * 0x1_0000_0000_0000_0000;
    let mut header = read_header(data);
    header.default_data = default_data;
    Ok(CompressedTrackData { header, compression })
}

/// The eight little-endian bytes of `x`.
pub open spec fn u64_le_bytes(x: u64) -> Seq<u8> {
    u32_le_bytes((x % 0x1_0000_0000) as u32) + u32_le_bytes((x / 0x1_0000_0000) as u32)
}

/// The sixteen little-endian bytes of `x`.
pub open spec fn u128_le_bytes(x: u128) -> Seq<u8> {
    u64_le_bytes((x % 0x1_0000_0000_0000_0000) as u64) + u64_le_bytes((x / 0x1_0000_0000_0000_0000) as u64)
}

/// The offset of the default value: right after the header and the compression, which
/// take `head` bytes, or zero when absent.
pub open spec fn default_offset<T>(h: CompressedHeader<T>, head: nat) -> u16 {
    if h.default_data is Some { head as u16 } else { 0 }
}

/// The offset of the compressed buffer: right after the default value, which takes
/// `default_size` bytes when present, or zero when absent.
pub open spec fn compressed_offset<T>(h: CompressedHeader<T>, head: nat, default_size: nat) -> u32 {
    if h.compressed_data is Some {
        (head + if h.default_data is Some { default_size } else { 0 }) as u32
    } else {
        0
    }
}

/// The 16 header bytes of a track whose header and compression take `head` bytes and whose
/// default value takes `default_size` bytes.
pub open spec fn header_bytes<T>(h: CompressedHeader<T>, head: nat, default_size: nat) -> Seq<u8> {
    u16_le_bytes(h.unk_4) + u16_le_bytes(flags_bits(h.flags)) + u16_le_bytes(default_offset(h, head))
        + u16_le_bytes(h.bits_per_entry) + u32_le_bytes(compressed_offset(h, head, default_size))
        + u32_le_bytes(h.frame_count)
}

/// The bytes of the compressed buffer, if any.
pub open spec fn buffer_bytes(b: Option<Vec<u8>>) -> Seq<u8> {
    match b {
        Some(b) => b@,
        None => Seq::<u8>::empty(),
    }
}

/// The bytes of a compressed pattern index track: the header, the compression, the
/// default value and the compressed buffer.
pub open spec fn compressed_track_u32_bytes(t: CompressedTrackData<u32, U32Compression>) -> Seq<u8> {
    header_bytes(t.header, 32, 4) + u32_le_bytes(t.compression.min) + u32_le_bytes(t.compression.max)
        + u64_le_bytes(t.compression.bit_count)
        + (match t.header.default_data { Some(d) => u32_le_bytes(d), None => Seq::<u8>::empty() })
        + buffer_bytes(t.header.compressed_data)
}

/// The bytes of a compressed boolean track: the header, the compression, the default
/// value and the compressed buffer.
pub open spec fn compressed_track_boolean_bytes(t: CompressedTrackData<Boolean, u128>) -> Seq<u8> {
    header_bytes(t.header, 32, 1) + u128_le_bytes(t.compression)
        + (match t.header.default_data { Some(d) => seq![d.0], None => Seq::<u8>::empty() })
        + buffer_bytes(t.header.compressed_data)
}

/// Appends the little-endian bytes of `x`.
fn push_u64_le(out: &mut Vec<u8>, x: u64)
    ensures
        final(out)@ == old(out)@ + u64_le_bytes(x),
{
    push_u32_le(out, (x % 0x1_0000_0000) as u32);
    push_u32_le(out, (x / 0x1_0000_0000) as u32);
    proof {
        assert(final(out)@ =~= old(out)@ + u64_le_bytes(x));
    }
}

/// Appends the bytes of the compressed buffer, if any.
fn push_buffer(out: &mut Vec<u8>, b: &Option<Vec<u8>>)
    ensures
        final(out)@ == old(out)@ + buffer_bytes(*b),
{
    match b {
        Some(bytes) => {
            let mut i: usize = 0;
            while i < bytes.len()
                invariant
                    i <= bytes@.len(),
                    out@ == old(out)@ + bytes@.take(i as int),
                decreases bytes@.len() - i,
            {
                out.push(bytes[i]);
                i = i + 1;
                proof {
                    assert(out@ =~= old(out)@ + bytes@.take(i as int));
                }
            }
            proof {
                assert(bytes@.take(bytes@.len() as int) =~= bytes@);
            }
        },
        None => {
            proof {
                assert(out@ =~= old(out)@ + buffer_bytes(*b));
            }
        },
    }
}

/// Appends the 16 header bytes for a header and compression of `head` bytes and a default
/// value of `default_size` bytes.
fn push_header<T>(out: &mut Vec<u8>, h: &CompressedHeader<T>, head: u16, default_size: u32)
    requires
        default_size <= 64,
    ensures
        final(out)@ == old(out)@ + header_bytes(*h, head as nat, default_size as nat),
{
    let default_offset: u16 = if h.default_data.is_some() { head } else { 0 };
    let compressed_offset: u32 = if h.compressed_data.is_some() {
        if h.default_data.is_some() { head as u32 + default_size } else { head as u32 }
    } else {
        0
    };
    push_u16_le(out, h.unk_4);
    push_u16_le(out, h.flags.into_bits());
    push_u16_le(out, default_offset);
    push_u16_le(out, h.bits_per_entry);
    push_u32_le(out, compressed_offset);
    push_u32_le(out, h.frame_count);
    proof {
        assert(final(out)@ =~= old(out)@ + header_bytes(*h, head as nat, default_size as nat));
    }
}

/// Writes a compressed pattern index track: the header, the compression, the default
/// value right after them and the compressed buffer right after that, the header holding
/// their offsets (zero for an absent one).
pub fn compressed_track_u32_to_bytes(t: &CompressedTrackData<u32, U32Compression>) -> (r: Vec<u8>)
    ensures
        r@ == compressed_track_u32_bytes(*t),
{
    let mut out: Vec<u8> = Vec::new();
    push_header(&mut out, &t.header, 32, 4);
    push_u32_le(&mut out, t.compression.min);
    push_u32_le(&mut out, t.compression.max);
    push_u64_le(&mut out, t.compression.bit_count);
    match t.header.default_data {
        Some(d) => push_u32_le(&mut out, d),
        None => {},
    }
    push_buffer(&mut out, &t.header.compressed_data);
    proof {
        assert(out@ =~= compressed_track_u32_bytes(*t));
    }
    out
}

/// Writes a compressed boolean track: the header, the compression, the default value
/// right after them and the compressed buffer right after that, the header holding their
/// offsets (zero for an absent one).
pub fn compressed_track_boolean_to_bytes(t: &CompressedTrackData<Boolean, u128>) -> (r: Vec<u8>)
    ensures
        r@ == compressed_track_boolean_bytes(*t),
{
    let mut out: Vec<u8> = Vec::new();
    push_header(&mut out, &t.header, 32, 1);
    push_u64_le(&mut out, (t.compression % 0x1_0000_0000_0000_0000) as u64);
    push_u64_le(&mut out, (t.compression / 0x1_0000_0000_0000_0000) as u64);
    match t.header.default_data {
        Some(d) => out.push(d.0),
        None => {},
    }
    push_buffer(&mut out, &t.header.compressed_data);
    proof {
        assert(out@ =~= compressed_track_boolean_bytes(*t));
    }
    out
}

/// Reading back the eight bytes of a value gives the value.
proof fn lemma_u64_le_roundtrip(x: u64, data: Seq<u8>, off: int)
    requires
        0 <= off,
        off + 8 <= data.len(),
        data.subrange(off, off + 8) == u64_le_bytes(x),
    ensures
        le_u64_at(data, off) == x,
{
    let lo = (x % 0x1_0000_0000) as u32;
    let hi = (x / 0x1_0000_0000) as u32;
    let s = data.subrange(off, off + 8);
    assert forall|k: int| 0 <= k < 8 implies #[trigger] s[k] == data[off + k] by {}
    assert(s[0] == data[off] && s[1] == data[off + 1] && s[2] == data[off + 2] && s[3] == data[off + 3]);
    assert(s[4] == data[off + 4] && s[5] == data[off + 5] && s[6] == data[off + 6] && s[7] == data[off + 7]);
    assert(data[off] == u32_le_bytes(lo)[0]);
    assert(data[off + 1] == u32_le_bytes(lo)[1]);
    assert(data[off + 2] == u32_le_bytes(lo)[2]);
    assert(data[off + 3] == u32_le_bytes(lo)[3]);
    assert(data[off + 4] == u32_le_bytes(hi)[0]);
    assert(data[off + 5] == u32_le_bytes(hi)[1]);
    assert(data[off + 6] == u32_le_bytes(hi)[2]);
    assert(data[off + 7] == u32_le_bytes(hi)[3]);
    lemma_u32_le_roundtrip(lo);
    lemma_u32_le_roundtrip(hi);
}

/// The header fields and the buffer of a written track read back from its bytes, when the
/// default value takes `default_size` bytes at the offset that the header gives it.
proof fn lemma_header_roundtrip<T>(h: CompressedHeader<T>, head: nat, default_size: nat, data: Seq<u8>)
    requires
        16 <= head <= 0xFFFF,
        default_size <= 64,
        data.len() == head + (if h.default_data is Some { default_size } else { 0 }) + buffer_bytes(h.compressed_data).len(),
        data.subrange(0, 16) == header_bytes(h, head, default_size),
        data.subrange(data.len() - buffer_bytes(h.compressed_data).len(), data.len() as int) == buffer_bytes(h.compressed_data),
    ensures
        header_matches(h, data),
        le_u16_at(data, 4) == default_offset(h, head),
{
    let hb = header_bytes(h, head, default_size);
    assert(data[0] == hb[0] && data[1] == hb[1]);
    assert(data[2] == hb[2] && data[3] == hb[3]);
    assert(data[4] == hb[4] && data[5] == hb[5]);
    assert(data[6] == hb[6] && data[7] == hb[7]);
    assert(data[8] == hb[8] && data[9] == hb[9] && data[10] == hb[10] && data[11] == hb[11]);
    assert(data[12] == hb[12] && data[13] == hb[13] && data[14] == hb[14] && data[15] == hb[15]);
    lemma_u16_le_roundtrip(h.unk_4);
    lemma_u16_le_roundtrip(flags_bits(h.flags));
    lemma_u16_le_roundtrip(default_offset(h, head));
    lemma_u16_le_roundtrip(h.bits_per_entry);
    lemma_u32_le_roundtrip(compressed_offset(h, head, default_size));
    lemma_u32_le_roundtrip(h.frame_count);
    lemma_flags_roundtrip(h.flags);
    assert(le_u32_at(data, 8) == compressed_offset(h, head, default_size));
    match h.compressed_data {
        Some(b) => {
            assert(data.subrange(compressed_offset(h, head, default_size) as int, data.len() as int) =~= b@);
        },
        None => {},
    }
}

/// Reading the bytes of a written pattern index track gives back the track: the header
/// fields, the compression, the default value and the compressed buffer. The bit count
/// must be at most 32, as reading refuses larger ones.
pub proof fn lemma_compressed_track_u32_roundtrip(t: CompressedTrackData<u32, U32Compression>)
    requires
        t.compression.bit_count <= 32,
    ensures
        is_compressed_track_u32(compressed_track_u32_bytes(t)),
        compressed_track_u32_matches(t, compressed_track_u32_bytes(t)),
{
    let data = compressed_track_u32_bytes(t);
    let d = match t.header.default_data { Some(d) => u32_le_bytes(d), None => Seq::<u8>::empty() };
    let buf = buffer_bytes(t.header.compressed_data);
    assert(data.subrange(0, 16) =~= header_bytes(t.header, 32, 4));
    assert(data.subrange(data.len() - buf.len(), data.len() as int) =~= buf);
    lemma_header_roundtrip(t.header, 32, 4, data);
    assert(data.subrange(16, 20) =~= u32_le_bytes(t.compression.min));
    assert(data.subrange(20, 24) =~= u32_le_bytes(t.compression.max));
    assert(data.subrange(24, 32) =~= u64_le_bytes(t.compression.bit_count));
    assert(data[16] == u32_le_bytes(t.compression.min)[0] && data[17] == u32_le_bytes(t.compression.min)[1]);
    assert(data[18] == u32_le_bytes(t.compression.min)[2] && data[19] == u32_le_bytes(t.compression.min)[3]);
    assert(data[20] == u32_le_bytes(t.compression.max)[0] && data[21] == u32_le_bytes(t.compression.max)[1]);
    assert(data[22] == u32_le_bytes(t.compression.max)[2] && data[23] == u32_le_bytes(t.compression.max)[3]);
    lemma_u32_le_roundtrip(t.compression.min);
    lemma_u32_le_roundtrip(t.compression.max);
    lemma_u64_le_roundtrip(t.compression.bit_count, data, 24);
    match t.header.default_data {
        Some(v) => {
            assert(data[32] == u32_le_bytes(v)[0] && data[33] == u32_le_bytes(v)[1]);
            assert(data[34] == u32_le_bytes(v)[2] && data[35] == u32_le_bytes(v)[3]);
            lemma_u32_le_roundtrip(v);
        },
        None => {},
    }
}

/// Reading the bytes of a written boolean track gives back the track: the header fields,
/// the compression, the default value and the compressed buffer.
pub proof fn lemma_compressed_track_boolean_roundtrip(t: CompressedTrackData<Boolean, u128>)
    ensures
        is_compressed_track_boolean(compressed_track_boolean_bytes(t)),
        compressed_track_boolean_matches(t, compressed_track_boolean_bytes(t)),
{
    let data = compressed_track_boolean_bytes(t);
    let buf = buffer_bytes(t.header.compressed_data);
    let lo = (t.compression % 0x1_0000_0000_0000_0000) as u64;
    let hi = (t.compression / 0x1_0000_0000_0000_0000) as u64;
    assert(data.subrange(0, 16) =~= header_bytes(t.header, 32, 1));
    assert(data.subrange(data.len() - buf.len(), data.len() as int) =~= buf);
    lemma_header_roundtrip(t.header, 32, 1, data);
    assert(data.subrange(16, 24) =~= u64_le_bytes(lo));
    assert(data.subrange(24, 32) =~= u64_le_bytes(hi));
    lemma_u64_le_roundtrip(lo, data, 16);
    lemma_u64_le_roundtrip(hi, data, 24);
}

/// The byte that stores each boolean: `1` for `true` and `0` for `false`.
pub open spec fn booleans_of(values: Seq<bool>) -> Seq<Boolean> {
    Seq::new(values.len(), |i: int| Boolean(if values[i] { 1u8 } else { 0u8 }))
}

/// Boolean compression is lossless: the bytes of a written boolean track parse, and any
/// track parsed from them has one bit per entry, a default value and a buffer whose first
/// bits, one per value, read back as the written booleans.
pub proof fn lemma_compressed_booleans_lossless(values: Seq<bool>, t: CompressedTrackData<Boolean, u128>, parsed: CompressedTrackData<Boolean, u128>)
    requires
        written_boolean_track(booleans_of(values), flags_from_bits(0), t),
        compressed_track_boolean_matches(parsed, compressed_track_boolean_bytes(t)),
    ensures
        is_compressed_track_boolean(compressed_track_boolean_bytes(t)),
        parsed.header.bits_per_entry == 1,
        parsed.header.default_data is Some,
        parsed.header.compressed_data matches Some(buffer) && {
            let bits = bytes_to_bits(buffer@);
            &&& values.len() <= bits.len()
            &&& unpack_boolean_values(bits, values.len()).map_values(|b: Boolean| b.0 != 0) == values
        },
{
    lemma_compressed_track_boolean_roundtrip(t);
    lemma_boolean_track_roundtrip(booleans_of(values), flags_from_bits(0), t);
    let data = compressed_track_boolean_bytes(t);
    assert(le_u16_at(data, 4) == default_offset(t.header, 32));
    let buffer = t.header.compressed_data->0;
    let pb = parsed.header.compressed_data->0;
    assert(pb@ == buffer@);
    let bits = bytes_to_bits(buffer@);
    assert(unpack_boolean_values(bits, values.len()).map_values(|b: Boolean| b.0 != 0) =~= values) by {
        assert forall|k: int| 0 <= k < values.len() implies
            (#[trigger] unpack_boolean_values(bits, values.len())[k]).0 != 0 == values[k] by {
            assert(unpack_boolean_values(bits, values.len())[k] == Boolean(if booleans_of(values)[k].0 != 0 { 1u8 } else { 0u8 }));
        }
    }
}

/// Writes pattern indices as a compressed track with cleared flags: the track that
/// [`create_compressed_track_u32`] creates, laid out as [`compressed_track_u32_to_bytes`]
/// writes it.
pub fn write_compressed_pattern_indices(values: &[u32]) -> (r: Vec<u8>)
    requires
        values@.len() * DEFAULT_F32_BIT_COUNT <= max_bit_count(),
    ensures
        exists|t: CompressedTrackData<u32, U32Compression>|
            #[trigger] written_u32_track(values@, flags_from_bits(0), t) && r@ == compressed_track_u32_bytes(t),
{
    let flags = CompressionFlags::new();
    assert(flags_from_bits(0) == flags);
    let track = create_compressed_track_u32(values, flags);
    compressed_track_u32_to_bytes(&track)
}

/// Writes booleans as a compressed track with cleared flags and one bit per value: the
/// track that [`create_compressed_track_boolean`] creates, laid out as
/// [`compressed_track_boolean_to_bytes`] writes it.
pub fn write_compressed_booleans(values: &[bool]) -> (r: Vec<u8>)
    requires
        values@.len() <= max_bit_count(),
    ensures
        exists|t: CompressedTrackData<Boolean, u128>|
            #[trigger] written_boolean_track(booleans_of(values@), flags_from_bits(0), t) && r@ == compressed_track_boolean_bytes(t),
{
    let mut bytes: Vec<Boolean> = Vec::new();
    let mut i: usize = 0;
    while i < values.len()
        invariant
            i <= values@.len(),
            bytes@ =~= booleans_of(values@.take(i as int)),
        decreases values@.len() - i,
    {
        bytes.push(Boolean::from_bool(values[i]));
        i = i + 1;
    }
    assert(values@.take(values@.len() as int) =~= values@);
    let flags = CompressionFlags::new();
    assert(flags_from_bits(0) == flags);
    let track = create_compressed_track_boolean(bytes.as_slice(), flags);
    compressed_track_boolean_to_bytes(&track)
}


/// The compression of floats stored at `off`: the bit patterns of the minimum and the
/// maximum, then a 64-bit bit count.
pub open spec fn f32_compression_at(data: Seq<u8>, off: int) -> F32Compression {
    F32Compression { min: le_u32_at(data, off), max: le_u32_at(data, off + 4), bit_count: le_u64_at(data, off + 8) }
}

/// Whether the bytes hold a compressed float track with `n` float compressions after the
/// header and a default value of `m` words: the header and the compressions, a bit count of
/// at most 32 for each compression, and the default value when its offset is set.
pub open spec fn is_compressed_float_track(data: Seq<u8>, n: nat, m: nat) -> bool {
    &&& data.len() >= 16 + 16 * n
    &&& forall|j: int| 0 <= j < n ==> #[trigger] f32_compression_at(data, 16 + 16 * j).bit_count <= 32
    &&& le_u16_at(data, 4) == 0 || le_u16_at(data, 4) + 4 * m <= data.len()
}

/// The compressed float track stored in `data`, as [`is_compressed_float_track`] lays it
/// out: the header, the compressions, and the default value as words.
pub open spec fn compressed_float_track_matches(h: CompressedHeader<Vec<u32>>, compressions: Seq<F32Compression>, data: Seq<u8>, n: nat, m: nat) -> bool {
    &&& header_matches(h, data)
    &&& compressions == Seq::new(n, |j: int| f32_compression_at(data, 16 + 16 * j))
    &&& match h.default_data {
        None => le_u16_at(data, 4) == 0,
        Some(d) => le_u16_at(data, 4) != 0 && d@ == Seq::new(m, |k: int| le_u32_at(data, le_u16_at(data, 4) + 4 * k)),
    }
}

/// Reads a compressed float track with `n` float compressions and a default value of `m`
/// words: its header, its compressions and the default value and compressed buffer that
/// the header points to.
///
/// Fails with [`Error::InvalidData`] when the bytes end before the compressions do or
/// before the default value does, or when a bit count is above 32.
pub fn parse_compressed_float_track(data: &[u8], n: usize, m: usize) -> (r: Result<(CompressedHeader<Vec<u32>>, Vec<F32Compression>), Error>)
    requires
        n <= 16,
        m <= 16,
    ensures
        (r is Ok) <==> is_compressed_float_track(data@, n as nat, m as nat),
        r matches Err(e) ==> e is InvalidData,
        r matches Ok((h, c)) ==> compressed_float_track_matches(h, c@, data@, n as nat, m as nat),
{
    let len: usize = data.len();
    if len < 16 + 16 * n {
        return Err(Error::InvalidData);
    }
    let mut compressions: Vec<F32Compression> = Vec::new();
    let mut j: usize = 0;
    while j < n
        invariant
            len == data@.len(),
            n <= 16,
            len >= 16 + 16 * n,
            j <= n,
            compressions@ =~= Seq::new(j as nat, |i: int| f32_compression_at(data@, 16 + 16 * i)),
            forall|i: int| 0 <= i < j ==> #[trigger] f32_compression_at(data@, 16 + 16 * i).bit_count <= 32,
        decreases n - j,
    {
        let off = 16 + 16 * j;
        let min = match read_u32_le(data, off) { Ok(v) => v, Err(_) => 0 };
        let max = match read_u32_le(data, off + 4) { Ok(v) => v, Err(_) => 0 };
        let bit_count = read_u64_at(data, off + 8);
        if bit_count > 32 {
            proof {
                assert(f32_compression_at(data@, 16 + 16 * j).bit_count > 32);
            }
            return Err(Error::InvalidData);
        }
        compressions.push(F32Compression { min, max, bit_count });
        j = j + 1;
    }
    let default_offset = match read_u16_le(data, 4) { Ok(v) => v, Err(_) => 0 };
    let default_data = if default_offset == 0 {
        None
    } else if (default_offset as usize) + 4 * m > len {
        return Err(Error::InvalidData);
    } else {
        let mut words: Vec<u32> = Vec::new();
        let mut k: usize = 0;
        while k < m
            invariant
                len == data@.len(),
                m <= 16,
                default_offset as usize + 4 * m <= len,
                k <= m,
                words@ =~= Seq::new(k as nat, |i: int| le_u32_at(data@, default_offset + 4 * i)),
            decreases m - k,
        {
            let w = match read_u32_le(data, default_offset as usize + 4 * k) { Ok(v) => v, Err(_) => 0 };
            words.push(w);
            k = k + 1;
        }
        Some(words)
    };
    let mut header = read_header(data);
    header.default_data = default_data;
    Ok((header, compressions))
}

/// The bytes of a compression of floats: the minimum, the maximum and the bit count.
pub open spec fn f32_compression_bytes(c: F32Compression) -> Seq<u8> {
    u32_le_bytes(c.min) + u32_le_bytes(c.max) + u64_le_bytes(c.bit_count)
}

/// The bytes of the compressions in order.
pub open spec fn compressions_bytes(c: Seq<F32Compression>) -> Seq<u8>
    decreases c.len(),
{
    if c.len() == 0 {
        Seq::empty()
    } else {
        compressions_bytes(c.drop_last()) + f32_compression_bytes(c.last())
    }
}

/// The bytes of a compressed float track: the header, the compressions, the default value
/// and the compressed buffer.
pub open spec fn compressed_float_track_bytes(h: CompressedHeader<Vec<u32>>, compressions: Seq<F32Compression>, m: nat) -> Seq<u8> {
    header_bytes(h, 16 + 16 * compressions.len(), 4 * m) + compressions_bytes(compressions)
        + (match h.default_data { Some(d) => words_le_bytes(d@), None => Seq::<u8>::empty() })
        + buffer_bytes(h.compressed_data)
}

/// Writes a compressed float track whose default value has `m` words: the header, the
/// compressions, the default value right after them and the compressed buffer right after
/// that, the header holding their offsets (zero for an absent one).
pub fn compressed_float_track_to_bytes(h: &CompressedHeader<Vec<u32>>, compressions: &Vec<F32Compression>, m: usize) -> (r: Vec<u8>)
    requires
        m <= 16,
        compressions@.len() <= 16,
        h.default_data matches Some(d) ==> d@.len() == m,
    ensures
        r@ == compressed_float_track_bytes(*h, compressions@, m as nat),
{
    let mut out: Vec<u8> = Vec::new();
    push_header(&mut out, h, (16 + 16 * compressions.len()) as u16, (4 * m) as u32);
    let mut j: usize = 0;
    let ghost start = out@;
    while j < compressions.len()
        invariant
            j <= compressions@.len(),
            out@ == start + compressions_bytes(compressions@.take(j as int)),
        decreases compressions@.len() - j,
    {
        let c = compressions[j];
        push_u32_le(&mut out, c.min);
        push_u32_le(&mut out, c.max);
        push_u64_le(&mut out, c.bit_count);
        proof {
            assert(compressions@.take(j + 1).drop_last() =~= compressions@.take(j as int));
        }
        j = j + 1;
        proof {
            assert(out@ =~= start + compressions_bytes(compressions@.take(j as int)));
        }
    }
    proof {
        assert(compressions@.take(compressions@.len() as int) =~= compressions@);
    }
    match &h.default_data {
        Some(d) => push_words_le(&mut out, d),
        None => {},
    }
    push_buffer(&mut out, &h.compressed_data);
    proof {
        assert(out@ =~= compressed_float_track_bytes(*h, compressions@, m as nat));
    }
    out
}

/// The bytes of compressions take 16 bytes each.
proof fn lemma_compressions_bytes_len(c: Seq<F32Compression>)
    ensures
        compressions_bytes(c).len() == 16 * c.len(),
    decreases c.len(),
{
    if c.len() > 0 {
        lemma_compressions_bytes_len(c.drop_last());
    }
}

/// Compression `j` takes the 16 bytes from `16 * j`.
proof fn lemma_compressions_bytes_at(c: Seq<F32Compression>, j: int)
    requires
        0 <= j < c.len(),
    ensures
        compressions_bytes(c).subrange(16 * j, 16 * j + 16) == f32_compression_bytes(c[j]),
    decreases c.len(),
{
    lemma_compressions_bytes_len(c.drop_last());
    let prefix = compressions_bytes(c.drop_last());
    if j == c.len() - 1 {
        assert(compressions_bytes(c).subrange(16 * j, 16 * j + 16) =~= f32_compression_bytes(c[j]));
    } else {
        lemma_compressions_bytes_at(c.drop_last(), j);
        assert(compressions_bytes(c).subrange(16 * j, 16 * j + 16) =~= prefix.subrange(16 * j, 16 * j + 16));
    }
}

/// Reading back the 16 bytes of a compression gives the compression.
proof fn lemma_f32_compression_roundtrip(c: F32Compression, data: Seq<u8>, off: int)
    requires
        0 <= off,
        off + 16 <= data.len(),
        data.subrange(off, off + 16) == f32_compression_bytes(c),
    ensures
        f32_compression_at(data, off) == c,
{
    let b = f32_compression_bytes(c);
    assert forall|k: int| 0 <= k < 16 implies #[trigger] data[off + k] == b[k] by {
        assert(data.subrange(off, off + 16)[k] == data[off + k]);
    }
    assert(u64_le_bytes(c.bit_count).len() == 8);
    assert(b.subrange(0, 4) =~= u32_le_bytes(c.min));
    assert(b.subrange(4, 8) =~= u32_le_bytes(c.max));
    assert(b.subrange(8, 16) =~= u64_le_bytes(c.bit_count));
    assert forall|k: int| 0 <= k < 4 implies #[trigger] data[off + k] == u32_le_bytes(c.min)[k] && data[off + 4 + k] == u32_le_bytes(c.max)[k] by {
        assert(data[off + k] == b[k]);
        assert(b.subrange(0, 4)[k] == b[k]);
        assert(data[off + (4 + k)] == b[4 + k]);
        assert(b.subrange(4, 8)[k] == b[4 + k]);
    }
    assert(data.subrange(off + 8, off + 16) =~= b.subrange(8, 16));
    assert(data[off] == u32_le_bytes(c.min)[0] && data[off + 1] == u32_le_bytes(c.min)[1]);
    assert(data[off + 2] == u32_le_bytes(c.min)[2] && data[off + 3] == u32_le_bytes(c.min)[3]);
    assert(data[off + 4 + 0] == u32_le_bytes(c.max)[0] && data[off + 4 + 1] == u32_le_bytes(c.max)[1]);
    assert(data[off + 4 + 2] == u32_le_bytes(c.max)[2] && data[off + 4 + 3] == u32_le_bytes(c.max)[3]);
    lemma_u32_le_roundtrip(c.min);
    lemma_u32_le_roundtrip(c.max);
    lemma_u64_le_roundtrip(c.bit_count, data, off + 8);
}

/// The words stored from byte `off` read back one by one.
proof fn lemma_words_at(data: Seq<u8>, off: int, words: Seq<u32>)
    requires
        0 <= off,
        off + 4 * words.len() <= data.len(),
        data.subrange(off, off + 4 * words.len()) == words_le_bytes(words),
    ensures
        forall|k: int| 0 <= k < words.len() ==> #[trigger] le_u32_at(data, off + 4 * k) == words[k],
{
    assert forall|k: int| 0 <= k < words.len() implies #[trigger] le_u32_at(data, off + 4 * k) == words[k] by {
        lemma_words_le_bytes_word(words, k);
        let w = words_le_bytes(words);
        let s = data.subrange(off, off + 4 * words.len());
        assert(data[off + 4 * k] == s[4 * k]);
        assert(data[off + 4 * k + 1] == s[4 * k + 1]);
        assert(data[off + 4 * k + 2] == s[4 * k + 2]);
        assert(data[off + 4 * k + 3] == s[4 * k + 3]);
    }
}

/// The compressions of a written float track read back from the bytes after the header.
proof fn lemma_float_track_compressions(data: Seq<u8>, prefix: Seq<u8>, compressions: Seq<F32Compression>, rest: Seq<u8>)
    requires
        prefix.len() == 16,
        compressions.len() <= 16,
        data == prefix + compressions_bytes(compressions) + rest,
    ensures
        Seq::new(compressions.len(), |j: int| f32_compression_at(data, 16 + 16 * j)) == compressions,
{
    let cb = compressions_bytes(compressions);
    lemma_compressions_bytes_len(compressions);
    assert forall|j: int| 0 <= j < compressions.len() implies #[trigger] f32_compression_at(data, 16 + 16 * j) == compressions[j] by {
        lemma_compressions_bytes_at(compressions, j);
        assert(data.subrange(16 + 16 * j, 16 + 16 * j + 16) =~= cb.subrange(16 * j, 16 * j + 16));
        lemma_f32_compression_roundtrip(compressions[j], data, 16 + 16 * j);
    }
    assert(Seq::new(compressions.len(), |j: int| f32_compression_at(data, 16 + 16 * j)) =~= compressions);
}

/// Reading the bytes of a written float track gives back the track: the header fields, the
/// compressions, the default value and the compressed buffer. Bit counts must be at most
/// 32, as reading refuses larger ones.
#[verifier::spinoff_prover]
pub proof fn lemma_compressed_float_track_roundtrip(h: CompressedHeader<Vec<u32>>, compressions: Seq<F32Compression>, m: nat)
    requires
        compressions.len() <= 16,
        m <= 16,
        forall|j: int| 0 <= j < compressions.len() ==> (#[trigger] compressions[j]).bit_count <= 32,
        h.default_data matches Some(d) ==> d@.len() == m,
    ensures
        is_compressed_float_track(compressed_float_track_bytes(h, compressions, m), compressions.len(), m),
        compressed_float_track_matches(h, compressions, compressed_float_track_bytes(h, compressions, m), compressions.len(), m),
{
    let n = compressions.len();
    let head: nat = 16 + 16 * n;
    let data = compressed_float_track_bytes(h, compressions, m);
    let hb = header_bytes(h, head, 4 * m);
    let cb = compressions_bytes(compressions);
    let d = match h.default_data { Some(d) => words_le_bytes(d@), None => Seq::<u8>::empty() };
    let buf = buffer_bytes(h.compressed_data);
    lemma_compressions_bytes_len(compressions);
    assert(d.len() == if h.default_data is Some { 4 * m } else { 0 });
    assert(data =~= hb + cb + d + buf);
    assert(header_matches(h, data) && le_u16_at(data, 4) == default_offset(h, head)) by {
        assert(data.subrange(0, 16) =~= hb);
        assert(data.subrange(data.len() - buf.len(), data.len() as int) =~= buf);
        lemma_header_roundtrip(h, head, 4 * m, data);
    }
    assert(Seq::new(n, |j: int| f32_compression_at(data, 16 + 16 * j)) == compressions) by {
        assert(data =~= hb + cb + (d + buf));
        lemma_float_track_compressions(data, hb, compressions, d + buf);
    }
    assert forall|j: int| 0 <= j < n implies #[trigger] f32_compression_at(data, 16 + 16 * j).bit_count <= 32 by {
        assert(Seq::new(n, |i: int| f32_compression_at(data, 16 + 16 * i))[j] == compressions[j]);
    }
    match h.default_data {
        Some(dv) => {
            assert(default_offset(h, head) == head as u16);
            assert(data.subrange(head as int, (head + 4 * m) as int) =~= d);
            lemma_words_at(data, head as int, dv@);
            assert(dv@ =~= Seq::new(m, |k: int| le_u32_at(data, le_u16_at(data, 4) + 4 * k)));
        },
        None => {},
    }
}

} // verus!
