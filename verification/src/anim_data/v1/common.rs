//! Integer layout helpers shared by the version 1.2 curve decoders: little-endian reads,
//! block sizes and the extent of residual data.
//!
//! Floats are read as their `f32` bit patterns.
use vstd::prelude::*;
use crate::bytes::{u16_from_le, u32_from_le};
use crate::anim_data::error::Error;

verus! {

/// Reads the header of a version 1.2 curve: the format code in the first four bytes, the key
/// count and the bit pattern of a float. Fails when the curve is shorter than `header_len`
/// bytes or holds another format.
pub fn read_curve_header(bytes: &[u8], format: u32, header_len: usize) -> (r: Result<(usize, u32), Error>)
    requires
        header_len >= 12,
    ensures
        bytes@.len() < header_len || le_u32_at(bytes@, 0) != format ==> (r matches Err(Error::InvalidData)),
        bytes@.len() >= header_len && le_u32_at(bytes@, 0) == format
            ==> r == Ok::<(usize, u32), Error>((le_u32_at(bytes@, 4) as usize, le_u32_at(bytes@, 8))),
{
    if bytes.len() < header_len {
        return Err(Error::InvalidData);
    }
    let code = match read_u32_le(bytes, 0) {
        Ok(v) => v,
        Err(e) => return Err(e),
    };
    if code != format {
        return Err(Error::InvalidData);
    }
    let key_count = match read_u32_le(bytes, 4) {
        Ok(v) => v as usize,
        Err(e) => return Err(e),
    };
    let unk1 = match read_f32_le(bytes, 8) {
        Ok(v) => v,
        Err(e) => return Err(e),
    };
    Ok((key_count, unk1))
}

/// The little-endian 16-bit value at `off`.
pub open spec fn le_u16_at(data: Seq<u8>, off: int) -> u16 {
    u16_from_le(data[off], data[off + 1])
}

/// The little-endian 32-bit value at `off`.
pub open spec fn le_u32_at(data: Seq<u8>, off: int) -> u32 {
    u32_from_le(data[off], data[off + 1], data[off + 2], data[off + 3])
}

/// Reads a little-endian `u16` at `off`, or fails when fewer than two bytes remain.
pub fn read_u16_le(data: &[u8], off: usize) -> (r: Result<u16, Error>)
    requires
        off <= data@.len(),
    ensures
        off + 2 <= data@.len() ==> r == Ok::<u16, Error>(le_u16_at(data@, off as int)),
        off + 2 > data@.len() ==> (r matches Err(Error::InvalidData)),
{
    if data.len() - off < 2 {
        return Err(Error::InvalidData);
    }
    Ok(data[off] as u16 + (data[off + 1] as u16) * 256)
}

/// Reads a little-endian `u32` at `off`, or fails when fewer than four bytes remain.
pub fn read_u32_le(data: &[u8], off: usize) -> (r: Result<u32, Error>)
    requires
        off <= data@.len(),
    ensures
        off + 4 <= data@.len() ==> r == Ok::<u32, Error>(le_u32_at(data@, off as int)),
        off + 4 > data@.len() ==> (r matches Err(Error::InvalidData)),
{
    if data.len() - off < 4 {
        return Err(Error::InvalidData);
    }
    Ok(data[off] as u32 + (data[off + 1] as u32) * 256 + (data[off + 2] as u32) * 65536
        + (data[off + 3] as u32) * 16777216)
}

/// Reads the bit pattern of a little-endian `f32` at `off`, or fails when fewer than four
/// bytes remain.
pub fn read_f32_le(data: &[u8], off: usize) -> (r: Result<u32, Error>)
    requires
        off <= data@.len(),
    ensures
        off + 4 <= data@.len() ==> r == Ok::<u32, Error>(le_u32_at(data@, off as int)),
        off + 4 > data@.len() ==> (r matches Err(Error::InvalidData)),
{
    read_u32_le(data, off)
}

/// Reads the bit patterns of three consecutive little-endian `f32` values at `off`, or fails
/// when fewer than twelve bytes remain.
pub fn read_vec3_f32_le(data: &[u8], off: usize) -> (r: Result<[u32; 3], Error>)
    requires
        off <= data@.len(),
    ensures
        off + 12 <= data@.len() ==> (r matches Ok(v) && v@ == seq![
            le_u32_at(data@, off as int), le_u32_at(data@, off + 4), le_u32_at(data@, off + 8)]),
        off + 12 > data@.len() ==> (r matches Err(Error::InvalidData)),
{
    assert(data@.len() == data.len());
    let x = match read_f32_le(data, off) {
        Ok(value) => value,
        Err(e) => return Err(e),
    };
    let y = match read_f32_le(data, off + 4) {
        Ok(value) => value,
        Err(e) => return Err(e),
    };
    let z = match read_f32_le(data, off + 8) {
        Ok(value) => value,
        Err(e) => return Err(e),
    };
    let v = [x, y, z];
    assert(v@ =~= seq![x, y, z]);
    Ok(v)
}

/// Reads the bit patterns of four consecutive little-endian `f32` values at `off`, or fails
/// when fewer than sixteen bytes remain.
pub fn read_vec4_f32_le(data: &[u8], off: usize) -> (r: Result<[u32; 4], Error>)
    requires
        off <= data@.len(),
    ensures
        off + 16 <= data@.len() ==> (r matches Ok(v) && v@ == seq![
            le_u32_at(data@, off as int), le_u32_at(data@, off + 4), le_u32_at(data@, off + 8),
            le_u32_at(data@, off + 12)]),
        off + 16 > data@.len() ==> (r matches Err(Error::InvalidData)),
{
    assert(data@.len() == data.len());
    let x = match read_f32_le(data, off) {
        Ok(value) => value,
        Err(e) => return Err(e),
    };
    let y = match read_f32_le(data, off + 4) {
        Ok(value) => value,
        Err(e) => return Err(e),
    };
    let z = match read_f32_le(data, off + 8) {
        Ok(value) => value,
        Err(e) => return Err(e),
    };
    let w = match read_f32_le(data, off + 12) {
        Ok(value) => value,
        Err(e) => return Err(e),
    };
    let v = [x, y, z, w];
    assert(v@ =~= seq![x, y, z, w]);
    Ok(v)
}

/// The smallest multiple of `align` that is at least `x` (or `x` itself when `align` is zero).
pub open spec fn spec_align_up(x: int, align: int) -> int {
    if align == 0 {
        x
    } else if x % align == 0 {
        x
    } else {
        x + (align - x % align)
    }
}

/// Rounds `x` up to the next multiple of `align`.
pub fn align_up(x: usize, align: usize) -> (r: usize)
    requires
        spec_align_up(x as int, align as int) <= usize::MAX,
    ensures
        r == spec_align_up(x as int, align as int),
        align > 0 ==> r % align == 0,
        x <= r,
        align > 0 ==> r < x + align,
{
    if align == 0 {
        return x;
    }
    let m = x % align;
    if m == 0 {
        x
    } else {
        proof {
            assert((x + (align - m)) % (align as int) == 0) by (nonlinear_arith)
                requires
                    m == x % align,
                    align > 0,
            {
                assert(x == (x / align) * align + m);
                assert(x + (align - m) == (x / align + 1) * align);
            }
        }
        x + (align - m)
    }
}


/// The number of 33-key blocks of a curve with `key_count` keys.
pub open spec fn block_count(key_count: int) -> int {
    if key_count <= 1 { 1 } else { (key_count - 1) / 33 + 1 }
}

/// The number of keys in block `block_idx`: 33 except in the last block, which holds the
/// remaining keys after the first.
pub open spec fn block_len(key_count: int, block_idx: int) -> int {
    if key_count <= 1 {
        1
    } else if block_idx == (key_count - 1) / 33 {
        key_count - 33 * block_idx - 1
    } else {
        33
    }
}

/// The number of blocks of a curve with `key_count` keys in the type 9 layout.
pub open spec fn block_count_type9(key_count: int) -> int {
    if key_count <= 1 { 1 } else { (key_count - 2) / 33 + 1 }
}

/// The number of keys in block `block_idx` in the type 9 layout.
pub open spec fn block_len_type9(key_count: int, block_idx: int) -> int {
    if key_count <= 1 {
        1
    } else if block_idx == block_count_type9(key_count) - 1 {
        key_count - 33 * block_idx - 1
    } else {
        33
    }
}

/// The number of blocks of a curve with `key_count` keys.
pub fn compute_block_count(key_count: usize) -> (r: usize)
    ensures
        r == block_count(key_count as int),
{
    if key_count <= 1 {
        1
    } else {
        (key_count - 1) / 33 + 1
    }
}

/// The number of keys in block `block_idx` of a curve with `key_count` keys.
pub fn compute_block_len(key_count: usize, block_idx: usize) -> (r: usize)
    ensures
        r == block_len(key_count as int, block_idx as int),
{
    if key_count <= 1 {
        return 1;
    }
    let last_block = (key_count - 1) / 33;
    if block_idx == last_block {
        key_count - 33 * block_idx - 1
    } else {
        33
    }
}

/// The number of blocks of a curve with `key_count` keys in the type 9 layout.
pub fn compute_block_count_type9(key_count: usize) -> (r: usize)
    ensures
        r == block_count_type9(key_count as int),
{
    if key_count <= 1 {
        1
    } else {
        (key_count - 2) / 33 + 1
    }
}

/// The number of keys in block `block_idx` in the type 9 layout.
pub fn compute_block_len_type9(key_count: usize, block_idx: usize) -> (r: usize)
    ensures
        r == block_len_type9(key_count as int, block_idx as int),
{
    if key_count <= 1 {
        1
    } else {
        let last_block = compute_block_count_type9(key_count) - 1;
        if block_idx == last_block {
            key_count - 33 * block_idx - 1
        } else {
            33
        }
    }
}

/// The number of blocks of a rotation curve with `key_count` keys in the 4309 layout.
pub fn compute_block_count_4309(key_count: usize) -> (r: usize)
    ensures
        r == block_count(key_count as int),
{
    if key_count <= 1 {
        1
    } else {
        (key_count - 1) / 33 + 1
    }
}

/// The number of keys in block `block_idx` of a rotation curve in the 4309 layout.
pub fn compute_block_len_4309(key_count: usize, block_idx: usize) -> (r: usize)
    ensures
        r == block_len(key_count as int, block_idx as int),
{
    if key_count <= 1 {
        return 1;
    }
    let last_block = (key_count - 1) / 33;
    if block_idx == last_block {
        key_count - 33 * block_idx - 1
    } else {
        33
    }
}

/// The total number of keys in the first `n` blocks.
pub open spec fn block_len_total(key_count: int, n: int) -> int
    decreases n,
{
    if n <= 0 { 0 } else { block_len_total(key_count, n - 1) + block_len(key_count, n - 1) }
}

/// The total number of keys in the first `n` blocks of the type 9 layout.
pub open spec fn block_len_total_type9(key_count: int, n: int) -> int
    decreases n,
{
    if n <= 0 { 0 } else { block_len_total_type9(key_count, n - 1) + block_len_type9(key_count, n - 1) }
}

proof fn lemma_full_blocks(key_count: int, n: int)
    requires
        key_count > 1,
        0 <= n <= (key_count - 1) / 33,
    ensures
        block_len_total(key_count, n) == 33 * n,
    decreases n,
{
    if n > 0 {
        lemma_full_blocks(key_count, n - 1);
    }
}

proof fn lemma_full_blocks_type9(key_count: int, n: int)
    requires
        key_count > 1,
        0 <= n <= (key_count - 2) / 33,
    ensures
        block_len_total_type9(key_count, n) == 33 * n,
    decreases n,
{
    if n > 0 {
        lemma_full_blocks_type9(key_count, n - 1);
    }
}

/// The blocks of a curve with more than one key split the keys after the first: every block
/// holds at most 33 keys and together they hold `key_count - 1`.
pub proof fn lemma_blocks_cover_keys(key_count: int)
    requires
        key_count > 1,
    ensures
        block_len_total(key_count, block_count(key_count)) == key_count - 1,
        forall|b: int| 0 <= b < block_count(key_count) ==> 0 <= #[trigger] block_len(key_count, b) <= 33,
        block_len_total_type9(key_count, block_count_type9(key_count)) == key_count - 1,
        forall|b: int| 0 <= b < block_count_type9(key_count) ==> 1 <= #[trigger] block_len_type9(key_count, b) <= 33,
{
    let last = (key_count - 1) / 33;
    lemma_full_blocks(key_count, last);
    let last9 = (key_count - 2) / 33;
    lemma_full_blocks_type9(key_count, last9);
}


/// The end of the residual data of one component that starts at `off`: eight header bytes,
/// then eight bytes for each group of 16-bit coefficients, four for each group of 8-bit
/// coefficients and four for each pair of 4-bit coefficient groups. `None` when the data
/// ends early, when the header gives no groups or more than eight, or when its weight counts
/// exceed eight.
pub open spec fn residual_data_end(data: Seq<u8>, off: int) -> Option<int> {
    if off + 8 > data.len() {
        None
    } else {
        let b5 = data[off + 5] as int;
        let b6 = data[off + 6] as int;
        let b7 = data[off + 7] as int;
        let groups = b5 / 16 + b5 % 16 + b6 % 16 + b6 / 16;
        let end = off + 8 + 8 * (b5 / 16) + 4 * (b5 % 16) + 4 * ((b6 / 16) / 2);
        if groups == 0 || groups > 8 || b7 / 16 + b7 % 16 > 8 || end > data.len() {
            None
        } else {
            Some(end)
        }
    }
}

/// The end of a residual component at `off` for key `local_idx` of a block of `block_len`
/// keys: the first key and keys past the block store nothing.
pub open spec fn residual_component_end_of(data: Seq<u8>, off: int, local_idx: int, block_len: int) -> Option<int> {
    if local_idx == 0 || local_idx >= block_len {
        Some(off)
    } else {
        residual_data_end(data, off)
    }
}

/// The end of `comp_bits` residual components stored one after another from `off`.
pub open spec fn residual_vector_end_of(data: Seq<u8>, off: int, local_idx: int, comp_bits: nat, block_len: int) -> Option<int>
    decreases comp_bits,
{
    if comp_bits == 0 {
        Some(off)
    } else {
        match residual_vector_end_of(data, off, local_idx, (comp_bits - 1) as nat, block_len) {
            Some(o) => residual_component_end_of(data, o, local_idx, block_len),
            None => None,
        }
    }
}

/// The header of the residual data of one component.
#[derive(Debug, Clone, Copy, PartialEq, Eq)]
pub struct ResidualHeader {
    /// The base amplitude, in units of `1 / 65536` of the base scale.
    pub amplitude: u16,
    /// The slope, in units of `1 / 65536` of the base amplitude.
    pub slope: u16,
    /// The scale of the slope for the remaining weights, in units of `1 / 255`.
    pub slope_scale: u8,
    /// Groups of four 16-bit coefficients.
    pub short_groups: usize,
    /// Groups of four 8-bit coefficients.
    pub byte_groups: usize,
    /// Groups that store no coefficients.
    pub empty_groups: usize,
    /// Groups of four 4-bit coefficients, stored in pairs.
    pub nibble_groups: usize,
    /// Weights equal to the base amplitude.
    pub base_weights: usize,
    /// Weights equal to the slope.
    pub slope_weights: usize,
    /// The position after the component's data.
    pub end: usize,
}

impl ResidualHeader {
    /// The number of coefficient groups, which selects the basis size.
    pub open spec fn group_count(&self) -> int {
        self.short_groups + self.byte_groups + self.empty_groups + self.nibble_groups
    }
}

/// Reads the header of a residual component at `off` and checks that its data fits.
pub fn read_residual_header(data: &[u8], off: usize) -> (r: Result<ResidualHeader, Error>)
    requires
        off <= data@.len(),
    ensures
        residual_data_end(data@, off as int) is None ==> (r matches Err(Error::InvalidData)),
        residual_data_end(data@, off as int) matches Some(end) ==> (r matches Ok(h) && {
            &&& h.amplitude == le_u16_at(data@, off as int)
            &&& h.slope == le_u16_at(data@, off + 2)
            &&& h.slope_scale == data@[off + 4]
            &&& h.short_groups == data@[off + 5] / 16
            &&& h.byte_groups == data@[off + 5] % 16
            &&& h.empty_groups == data@[off + 6] % 16
            &&& h.nibble_groups == data@[off + 6] / 16
            &&& h.base_weights == data@[off + 7] / 16
            &&& h.slope_weights == data@[off + 7] % 16
            &&& h.end == end
            &&& 1 <= h.group_count() <= 8
            &&& h.base_weights + h.slope_weights <= 8
        }),
{
    assert(data@.len() == data.len());
    if data.len() - off < 8 {
        return Err(Error::InvalidData);
    }
    let amplitude = data[off] as u16 + (data[off + 1] as u16) * 256;
    let slope = data[off + 2] as u16 + (data[off + 3] as u16) * 256;
    let slope_scale = data[off + 4];
    let byte5 = data[off + 5];
    let byte6 = data[off + 6];
    let byte7 = data[off + 7];
    let short_groups = (byte5 / 16) as usize;
    let byte_groups = (byte5 % 16) as usize;
    let empty_groups = (byte6 % 16) as usize;
    let nibble_groups = (byte6 / 16) as usize;
    let groups = short_groups + byte_groups + empty_groups + nibble_groups;
    if groups == 0 || groups > 8 {
        return Err(Error::InvalidData);
    }
    let base_weights = (byte7 / 16) as usize;
    let slope_weights = (byte7 % 16) as usize;
    if base_weights + slope_weights > 8 {
        return Err(Error::InvalidData);
    }
    let size = 8 * short_groups + 4 * byte_groups + 4 * (nibble_groups / 2);
    if data.len() - (off + 8) < size {
        return Err(Error::InvalidData);
    }
    Ok(ResidualHeader {
        amplitude,
        slope,
        slope_scale,
        short_groups,
        byte_groups,
        empty_groups,
        nibble_groups,
        base_weights,
        slope_weights,
        end: off + 8 + size,
    })
}

/// The position after the residual component at `off` for key `local_idx` of a block of
/// `block_len` keys, or an error when its header is invalid or its data does not fit.
pub fn residual_component_end(data: &[u8], off: usize, local_idx: usize, block_len: usize) -> (r: Result<usize, Error>)
    requires
        off <= data@.len(),
    ensures
        residual_component_end_of(data@, off as int, local_idx as int, block_len as int) matches Some(end)
            ==> r == Ok::<usize, Error>(end as usize) && off <= end <= data@.len(),
        residual_component_end_of(data@, off as int, local_idx as int, block_len as int) is None
            ==> (r matches Err(Error::InvalidData)),
{
    if local_idx == 0 || local_idx >= block_len {
        return Ok(off);
    }
    match read_residual_header(data, off) {
        Ok(h) => Ok(h.end),
        Err(e) => Err(e),
    }
}

/// The position after `comp_bits` residual components stored one after another from `start`.
pub fn residual_vector_end(data: &[u8], start: usize, local_idx: usize, comp_bits: usize, block_len: usize) -> (r: Result<usize, Error>)
    requires
        start <= data@.len(),
    ensures
        residual_vector_end_of(data@, start as int, local_idx as int, comp_bits as nat, block_len as int) matches Some(end)
            ==> r == Ok::<usize, Error>(end as usize) && start <= end <= data@.len(),
        residual_vector_end_of(data@, start as int, local_idx as int, comp_bits as nat, block_len as int) is None
            ==> (r matches Err(Error::InvalidData)),
{
    assert(data@.len() == data.len());
    let mut curr = start;
    let mut c: usize = 0;
    while c < comp_bits
        invariant
            c <= comp_bits,
            start <= curr <= data@.len(),
            data@.len() == data.len(),
            residual_vector_end_of(data@, start as int, local_idx as int, c as nat, block_len as int) == Some(curr as int),
        decreases comp_bits - c,
    {
        let ghost prev = curr;
        match residual_component_end(data, curr, local_idx, block_len) {
            Ok(next) => {
                proof {
                    assert(residual_component_end_of(data@, prev as int, local_idx as int, block_len as int) == Some(next as int));
                    assert(residual_vector_end_of(data@, start as int, local_idx as int, (c + 1) as nat, block_len as int)
                        == residual_component_end_of(data@, prev as int, local_idx as int, block_len as int));
                }
                curr = next;
            },
            Err(e) => {
                proof {
                    lemma_vector_end_none_stays(data@, start as int, local_idx as int, (c + 1) as nat, comp_bits as nat, block_len as int);
                }
                return Err(e);
            },
        }
        c = c + 1;
    }
    Ok(curr)
}

/// The quantized coefficients of one group of four residual coefficients.
#[derive(Debug, Clone, Copy, PartialEq, Eq)]
pub enum CoefficientGroup {
    /// Four signed 16-bit coefficients, in units of `1 / 32767`.
    Short([i16; 4]),
    /// Four signed 8-bit coefficients, in units of `1 / 127`.
    Byte([i8; 4]),
    /// Four 4-bit coefficients, biased by 8, in units of `1 / 7`.
    Nibble([u8; 4]),
}

/// The weight that scales a group of residual coefficients.
#[derive(Debug, Clone, Copy, PartialEq, Eq)]
pub enum ResidualWeight {
    /// The base amplitude.
    Base,
    /// The slope.
    Slope,
    /// The slope scaled by the slope scale.
    ScaledSlope,
}

/// The signed value of the 16-bit two's complement `u`.
pub open spec fn signed16(u: u16) -> int {
    if u < 0x8000 { u as int } else { u - 0x10000 }
}

/// The signed value of the 8-bit two's complement `u`.
pub open spec fn signed8(u: u8) -> int {
    if u < 0x80 { u as int } else { u - 0x100 }
}

/// The weight of coefficient group `g` of a residual whose header gives `base` groups weighted
/// by the base amplitude and then `slope` groups weighted by the slope; the weights repeat
/// every eight groups.
pub open spec fn residual_weight_of(base: int, slope: int, g: int) -> ResidualWeight {
    if g % 8 < base {
        ResidualWeight::Base
    } else if g % 8 < base + slope {
        ResidualWeight::Slope
    } else {
        ResidualWeight::ScaledSlope
    }
}

/// The coefficient group `g` of the residual whose header is at `off`: the groups of 16-bit
/// coefficients, then those of 8-bit coefficients, then the 4-bit groups in pairs of four
/// bytes, the high nibbles of each pair's bytes forming its first group and the low nibbles
/// its second. An odd last 4-bit group is not stored.
pub open spec fn coefficient_group_at(data: Seq<u8>, off: int, g: int) -> CoefficientGroup {
    let shorts = (data[off + 5] / 16) as int;
    let bytes = (data[off + 5] % 16) as int;
    if g < shorts {
        let b = off + 8 + 8 * g;
        CoefficientGroup::Short([
            signed16(le_u16_at(data, b)) as i16, signed16(le_u16_at(data, b + 2)) as i16,
            signed16(le_u16_at(data, b + 4)) as i16, signed16(le_u16_at(data, b + 6)) as i16,
        ])
    } else if g < shorts + bytes {
        let b = off + 8 + 8 * shorts + 4 * (g - shorts);
        CoefficientGroup::Byte([signed8(data[b]) as i8, signed8(data[b + 1]) as i8, signed8(data[b + 2]) as i8, signed8(data[b + 3]) as i8])
    } else {
        let p = (g - shorts - bytes) / 2;
        let b = off + 8 + 8 * shorts + 4 * bytes + 4 * p;
        if (g - shorts - bytes) % 2 == 0 {
            CoefficientGroup::Nibble([data[b] / 16, data[b + 1] / 16, data[b + 2] / 16, data[b + 3] / 16])
        } else {
            CoefficientGroup::Nibble([data[b] % 16, data[b + 1] % 16, data[b + 2] % 16, data[b + 3] % 16])
        }
    }
}

/// The stored coefficient groups of the residual whose header is at `off`, each with its
/// weight, in the order they are added up.
pub open spec fn residual_groups_of(data: Seq<u8>, off: int) -> Seq<(CoefficientGroup, ResidualWeight)> {
    let shorts = (data[off + 5] / 16) as int;
    let bytes = (data[off + 5] % 16) as int;
    let nibbles = (data[off + 6] / 16) as int;
    Seq::new((shorts + bytes + 2 * (nibbles / 2)) as nat, |g: int|
        (coefficient_group_at(data, off, g), residual_weight_of((data[off + 7] / 16) as int, (data[off + 7] % 16) as int, g)))
}

/// The signed 16-bit value at `off`.
fn read_i16_le(data: &[u8], off: usize) -> (r: i16)
    requires
        off + 2 <= data@.len(),
    ensures
        r as int == signed16(le_u16_at(data@, off as int)),
{
    let u = data[off] as u16 + (data[off + 1] as u16) * 256;
    assert(u == le_u16_at(data@, off as int)) by {
        assert(u == u16_from_le(data@[off as int], data@[off + 1]));
    }
    if u < 0x8000 {
        u as i16
    } else {
        ((u as i32) - 0x10000) as i16
    }
}

/// The signed 8-bit value of the byte `b`.
fn signed_byte(b: u8) -> (r: i8)
    ensures
        r as int == signed8(b),
{
    if b < 0x80 {
        b as i8
    } else {
        ((b as i16) - 0x100) as i8
    }
}

/// Reads the header of a residual component at `off` and its stored coefficient groups,
/// each with the weight that scales it.
pub fn read_residual_coefficients(data: &[u8], off: usize) -> (r: Result<(ResidualHeader, Vec<(CoefficientGroup, ResidualWeight)>), Error>)
    requires
        off <= data@.len(),
    ensures
        residual_data_end(data@, off as int) is None ==> (r matches Err(Error::InvalidData)),
        residual_data_end(data@, off as int) matches Some(end) ==> (r matches Ok((h, groups)) && {
            &&& h.amplitude == le_u16_at(data@, off as int)
            &&& h.slope == le_u16_at(data@, off + 2)
            &&& h.slope_scale == data@[off + 4]
            &&& h.short_groups == data@[off + 5] / 16
            &&& h.byte_groups == data@[off + 5] % 16
            &&& h.empty_groups == data@[off + 6] % 16
            &&& h.nibble_groups == data@[off + 6] / 16
            &&& h.base_weights == data@[off + 7] / 16
            &&& h.slope_weights == data@[off + 7] % 16
            &&& h.end == end
            &&& 1 <= h.group_count() <= 8
            &&& h.base_weights + h.slope_weights <= 8
            &&& groups@ == residual_groups_of(data@, off as int)
        }),
{
    let h = read_residual_header(data, off)?;
    let ghost spec = residual_groups_of(data@, off as int);
    let mut groups: Vec<(CoefficientGroup, ResidualWeight)> = Vec::new();
    let total = h.short_groups + h.byte_groups + 2 * (h.nibble_groups / 2);
    let mut g: usize = 0;
    while g < total
        invariant
            total == spec.len(),
            total <= 8,
            h.short_groups == data@[off + 5] / 16,
            h.byte_groups == data@[off + 5] % 16,
            h.nibble_groups == data@[off + 6] / 16,
            h.base_weights == data@[off + 7] / 16,
            h.slope_weights == data@[off + 7] % 16,
            h.end <= data@.len(),
            h.end == off + 8 + 8 * h.short_groups + 4 * h.byte_groups + 4 * (h.nibble_groups / 2),
            spec == residual_groups_of(data@, off as int),
            g <= total,
            groups@ =~= spec.take(g as int),
        decreases total - g,
    {
        let group = if g < h.short_groups {
            let b = off + 8 + 8 * g;
            CoefficientGroup::Short([read_i16_le(data, b), read_i16_le(data, b + 2), read_i16_le(data, b + 4), read_i16_le(data, b + 6)])
        } else if g < h.short_groups + h.byte_groups {
            let b = off + 8 + 8 * h.short_groups + 4 * (g - h.short_groups);
            CoefficientGroup::Byte([signed_byte(data[b]), signed_byte(data[b + 1]), signed_byte(data[b + 2]), signed_byte(data[b + 3])])
        } else {
            let k = g - h.short_groups - h.byte_groups;
            let b = off + 8 + 8 * h.short_groups + 4 * h.byte_groups + 4 * (k / 2);
            if k % 2 == 0 {
                CoefficientGroup::Nibble([data[b] / 16, data[b + 1] / 16, data[b + 2] / 16, data[b + 3] / 16])
            } else {
                CoefficientGroup::Nibble([data[b] % 16, data[b + 1] % 16, data[b + 2] % 16, data[b + 3] % 16])
            }
        };
        let weight = if g % 8 < h.base_weights {
            ResidualWeight::Base
        } else if g % 8 < h.base_weights + h.slope_weights {
            ResidualWeight::Slope
        } else {
            ResidualWeight::ScaledSlope
        };
        proof {
            assert(group == coefficient_group_at(data@, off as int, g as int));
            assert(spec[g as int] == (group, weight));
        }
        groups.push((group, weight));
        g = g + 1;
    }
    proof {
        assert(spec.take(g as int) =~= spec);
    }
    Ok((h, groups))
}

proof fn lemma_vector_end_none_stays(data: Seq<u8>, off: int, local_idx: int, c: nat, n: nat, block_len: int)
    requires
        c <= n,
        residual_vector_end_of(data, off, local_idx, c, block_len) is None,
    ensures
        residual_vector_end_of(data, off, local_idx, n, block_len) is None,
    decreases n - c,
{
    if c < n {
        lemma_vector_end_none_stays(data, off, local_idx, c + 1, n, block_len);
    }
}


/// The sum of the values.
pub open spec fn seq_sum(values: Seq<usize>) -> int
    decreases values.len(),
{
    if values.len() == 0 { 0 } else { seq_sum(values.drop_last()) + values.last() }
}

/// The residual sizes of blocks `block_idx..blocks` of a curve with `key_count` keys whose
/// residual data starts at `cursor`, in units of four bytes, and the position after them.
/// A block of at most one key stores nothing; the size of any other block is that of the
/// residuals of its second key, which must be a nonzero multiple of four. `None` when a
/// block's residuals are invalid.
pub open spec fn block_qcounts_from(data: Seq<u8>, cursor: int, comp_bits: nat, key_count: int, block_idx: int, blocks: int)
    -> Option<(Seq<usize>, int)>
    decreases blocks - block_idx,
{
    if block_idx >= blocks {
        Some((Seq::<usize>::empty(), cursor))
    } else {
        let len = block_len(key_count, block_idx);
        if len <= 1 {
            match block_qcounts_from(data, cursor, comp_bits, key_count, block_idx + 1, blocks) {
                Some((q, end)) => Some((seq![0usize] + q, end)),
                None => None,
            }
        } else {
            match residual_vector_end_of(data, cursor, 1, comp_bits, len) {
                None => None,
                Some(next) => {
                    let delta = next - cursor;
                    if delta == 0 || delta % 4 != 0 {
                        None
                    } else {
                        match block_qcounts_from(data, next, comp_bits, key_count, block_idx + 1, blocks) {
                            Some((q, end)) => Some((seq![(delta / 4) as usize] + q, end)),
                            None => None,
                        }
                    }
                },
            }
        }
    }
}

/// The residual sizes of all blocks of a curve with `key_count` keys, in units of four
/// bytes, and the position after them: a single empty block for at most one key.
pub open spec fn block_qcounts_of(data: Seq<u8>, start: int, comp_bits: nat, key_count: int) -> Option<(Seq<usize>, int)> {
    if key_count <= 1 {
        Some((seq![0usize], start))
    } else {
        block_qcounts_from(data, start, comp_bits, key_count, 0, block_count(key_count))
    }
}

/// `prefix` before the sizes of an optional result.
pub open spec fn prepend_qcounts(prefix: Seq<usize>, rest: Option<(Seq<usize>, int)>) -> Option<(Seq<usize>, int)> {
    match rest {
        Some((q, end)) => Some((prefix + q, end)),
        None => None,
    }
}

proof fn lemma_seq_sum_append(a: Seq<usize>, b: Seq<usize>)
    ensures
        seq_sum(a + b) == seq_sum(a) + seq_sum(b),
    decreases b.len(),
{
    if b.len() == 0 {
        assert(a + b =~= a);
    } else {
        lemma_seq_sum_append(a, b.drop_last());
        assert((a + b).drop_last() =~= a + b.drop_last());
    }
}

/// The sizes account for the data between the start and the end position.
proof fn lemma_qcounts_from_end(data: Seq<u8>, cursor: int, comp_bits: nat, key_count: int, block_idx: int, blocks: int)
    requires
        0 <= cursor <= data.len(),
        data.len() <= usize::MAX,
        block_qcounts_from(data, cursor, comp_bits, key_count, block_idx, blocks) is Some,
    ensures
        ({
            let (q, end) = block_qcounts_from(data, cursor, comp_bits, key_count, block_idx, blocks)->0;
            &&& cursor + 4 * seq_sum(q) == end
            &&& end <= data.len()
        }),
    decreases blocks - block_idx,
{
    if block_idx < blocks {
        let len = block_len(key_count, block_idx);
        if len <= 1 {
            lemma_qcounts_from_end(data, cursor, comp_bits, key_count, block_idx + 1, blocks);
            let (q, end) = block_qcounts_from(data, cursor, comp_bits, key_count, block_idx + 1, blocks)->0;
            lemma_seq_sum_append(seq![0usize], q);
            reveal_with_fuel(seq_sum, 2);
            assert(seq_sum(seq![0usize]) == 0);
        } else {
            let next = residual_vector_end_of(data, cursor, 1, comp_bits, len)->0;
            lemma_vector_end_bounds(data, cursor, 1, comp_bits, len);
            lemma_qcounts_from_end(data, next, comp_bits, key_count, block_idx + 1, blocks);
            let (q, end) = block_qcounts_from(data, next, comp_bits, key_count, block_idx + 1, blocks)->0;
            let delta = next - cursor;
            lemma_seq_sum_append(seq![(delta / 4) as usize], q);
            reveal_with_fuel(seq_sum, 2);
            assert(seq_sum(seq![(delta / 4) as usize]) == delta / 4);
            assert(4 * (delta / 4) == delta);
        }
    }
}

proof fn lemma_vector_end_bounds(data: Seq<u8>, off: int, local_idx: int, comp_bits: nat, block_len: int)
    requires
        off <= data.len(),
        residual_vector_end_of(data, off, local_idx, comp_bits, block_len) is Some,
    ensures
        off <= residual_vector_end_of(data, off, local_idx, comp_bits, block_len)->0 <= data.len(),
    decreases comp_bits,
{
    if comp_bits > 0 {
        lemma_vector_end_bounds(data, off, local_idx, (comp_bits - 1) as nat, block_len);
    }
}

/// The residual sizes of the blocks of a curve, in units of four bytes, with each block's
/// size taken from the residuals of its second key.
fn block_qcounts(payload: &[u8], residual_start0: usize, comp_bits: usize, key_count: usize) -> (r: Result<Vec<usize>, Error>)
    requires
        residual_start0 <= payload@.len(),
    ensures
        block_qcounts_of(payload@, residual_start0 as int, comp_bits as nat, key_count as int) matches Some((q, end))
            ==> (r matches Ok(v) && v@ == q && residual_start0 + 4 * seq_sum(q) == end && end <= payload@.len()),
        block_qcounts_of(payload@, residual_start0 as int, comp_bits as nat, key_count as int) is None
            ==> (r matches Err(Error::InvalidData)),
{
    assert(payload@.len() == payload.len());
    if key_count <= 1 {
        let mut q = Vec::new();
        q.push(0usize);
        proof {
            reveal_with_fuel(seq_sum, 2);
            assert(q@ =~= seq![0usize]);
        }
        return Ok(q);
    }
    let blocks = compute_block_count(key_count);
    let ghost full = block_qcounts_from(payload@, residual_start0 as int, comp_bits as nat, key_count as int, 0, blocks as int);
    let mut q_counts: Vec<usize> = Vec::new();
    let mut cursor = residual_start0;
    let mut block_idx: usize = 0;
    proof {
        assert(q_counts@ + Seq::<usize>::empty() =~= Seq::<usize>::empty());
        match block_qcounts_from(payload@, cursor as int, comp_bits as nat, key_count as int, 0, blocks as int) {
            Some((q, end)) => { assert(q_counts@ + q =~= q); },
            None => {},
        }
    }
    while block_idx < blocks
        invariant
            key_count > 1,
            blocks == block_count(key_count as int),
            block_idx <= blocks,
            residual_start0 <= cursor <= payload@.len(),
            payload@.len() == payload.len(),
            full == block_qcounts_from(payload@, residual_start0 as int, comp_bits as nat, key_count as int, 0, blocks as int),
            full == prepend_qcounts(q_counts@, block_qcounts_from(payload@, cursor as int, comp_bits as nat, key_count as int, block_idx as int, blocks as int)),
        decreases blocks - block_idx,
    {
        let ghost rest_next_len1 = block_qcounts_from(payload@, cursor as int, comp_bits as nat, key_count as int, block_idx + 1, blocks as int);
        let block_len = compute_block_len(key_count, block_idx);
        if block_len <= 1 {
            proof {
                match rest_next_len1 {
                    Some((q2, e2)) => { assert(q_counts@ + (seq![0usize] + q2) =~= q_counts@.push(0usize) + q2); },
                    None => {},
                }
            }
            q_counts.push(0);
            block_idx = block_idx + 1;
            continue;
        }
        let end_off = match residual_vector_end(payload, cursor, 1, comp_bits, block_len) {
            Ok(e) => e,
            Err(e) => return Err(e),
        };
        let delta = end_off - cursor;
        if delta == 0 || delta % 4 != 0 {
            return Err(Error::InvalidData);
        }
        proof {
            let rest = block_qcounts_from(payload@, end_off as int, comp_bits as nat, key_count as int, block_idx + 1, blocks as int);
            match rest {
                Some((q2, e2)) => { assert(q_counts@ + (seq![(delta / 4) as usize] + q2) =~= q_counts@.push((delta / 4) as usize) + q2); },
                None => {},
            }
        }
        q_counts.push(delta / 4);
        cursor = end_off;
        block_idx = block_idx + 1;
    }
    proof {
        assert(q_counts@ + Seq::<usize>::empty() =~= q_counts@);
        lemma_qcounts_from_end(payload@, residual_start0 as int, comp_bits as nat, key_count as int, 0, blocks as int);
    }
    Ok(q_counts)
}

/// The residual sizes of the blocks of a curve, in units of four bytes.
pub fn compute_block_qcounts(payload: &[u8], residual_start0: usize, comp_bits: usize, key_count: usize) -> (r: Result<Vec<usize>, Error>)
    requires
        residual_start0 <= payload@.len(),
    ensures
        block_qcounts_of(payload@, residual_start0 as int, comp_bits as nat, key_count as int) matches Some((q, end))
            ==> (r matches Ok(v) && v@ == q && residual_start0 + 4 * seq_sum(q) == end && end <= payload@.len()),
        block_qcounts_of(payload@, residual_start0 as int, comp_bits as nat, key_count as int) is None
            ==> (r matches Err(Error::InvalidData)),
{
    block_qcounts(payload, residual_start0, comp_bits, key_count)
}

/// The residual sizes of the blocks of a rotation curve in the 4309 layout, in units of four bytes.
pub fn compute_block_qcounts_4309(payload: &[u8], residual_start0: usize, comp_bits: usize, key_count: usize) -> (r: Result<Vec<usize>, Error>)
    requires
        residual_start0 <= payload@.len(),
    ensures
        block_qcounts_of(payload@, residual_start0 as int, comp_bits as nat, key_count as int) matches Some((q, end))
            ==> (r matches Ok(v) && v@ == q && residual_start0 + 4 * seq_sum(q) == end && end <= payload@.len()),
        block_qcounts_of(payload@, residual_start0 as int, comp_bits as nat, key_count as int) is None
            ==> (r matches Err(Error::InvalidData)),
{
    block_qcounts(payload, residual_start0, comp_bits, key_count)
}


/// `comp_bits` gives valid residual sizes for a 4309 rotation curve.
pub open spec fn comp_bits_fits(data: Seq<u8>, start: int, key_count: int, comp_bits: nat) -> bool {
    block_qcounts_of(data, start, comp_bits, key_count) is Some
}

/// The bytes left after the residuals when read with `comp_bits` components.
pub open spec fn comp_bits_slack(data: Seq<u8>, start: int, key_count: int, comp_bits: nat) -> int {
    data.len() - (block_qcounts_of(data, start, comp_bits, key_count)->0).1
}

/// `a` is preferred to `b`: it leaves fewer bytes, or as many with more components.
pub open spec fn comp_bits_preferred(data: Seq<u8>, start: int, key_count: int, a: nat, b: nat) -> bool {
    ||| comp_bits_slack(data, start, key_count, a) < comp_bits_slack(data, start, key_count, b)
    ||| comp_bits_slack(data, start, key_count, a) == comp_bits_slack(data, start, key_count, b) && a > b
}

/// The component count picked among the first `n` of four, three, two and one: a count
/// that fits replaces the one picked so far when it leaves fewer bytes, or as many with
/// more components.
pub open spec fn picked_comp_bits_upto(data: Seq<u8>, start: int, key_count: int, n: int) -> Option<nat>
    decreases n,
{
    if n <= 0 {
        None
    } else {
        let prev = picked_comp_bits_upto(data, start, key_count, n - 1);
        let c = (4 - (n - 1)) as nat;
        if !comp_bits_fits(data, start, key_count, c) {
            prev
        } else {
            match prev {
                None => Some(c),
                Some(b) => if comp_bits_preferred(data, start, key_count, c, b) { Some(c) } else { prev },
            }
        }
    }
}

/// The component count picked for a 4409-style residual stream.
pub open spec fn picked_comp_bits_4309(data: Seq<u8>, start: int, key_count: int) -> Option<nat> {
    picked_comp_bits_upto(data, start, key_count, 4)
}

pub proof fn lemma_seq_sum_prefix(values: Seq<usize>, i: int)
    requires
        0 <= i < values.len(),
    ensures
        seq_sum(values.take(i + 1)) == seq_sum(values.take(i)) + values[i],
        seq_sum(values.take(i + 1)) <= seq_sum(values),
{
    assert(values.take(i + 1).drop_last() =~= values.take(i));
    lemma_seq_sum_append(values.take(i + 1), values.skip(i + 1));
    assert(values.take(i + 1) + values.skip(i + 1) =~= values);
    lemma_seq_sum_nonneg(values.skip(i + 1));
}

proof fn lemma_seq_sum_nonneg(values: Seq<usize>)
    ensures
        seq_sum(values) >= 0,
    decreases values.len(),
{
    if values.len() > 0 {
        lemma_seq_sum_nonneg(values.drop_last());
    }
}

/// Where the residual of a key lies: its block of 33 keys, its position in the block, the
/// number of keys that the block interpolates over (at least one) and the offset of the
/// block's residual data.
#[derive(Debug, Clone, Copy, PartialEq, Eq)]
pub struct KeyResidual {
    pub block: usize,
    pub local: usize,
    pub block_len: usize,
    pub offset: usize,
}

/// The residual of key `k` of a curve with `key_count` keys whose blocks' residual data
/// follow one another from `residual_off`, block `b` taking `4 * q_counts[b]` bytes.
pub open spec fn key_residual_of(key_count: int, residual_off: int, q_counts: Seq<usize>, k: int) -> (int, int, int, int) {
    let b = k / 33;
    let len = block_len(key_count, b);
    (b, k % 33, if len < 1 { 1 } else { len }, residual_off + 4 * seq_sum(q_counts.take(b)))
}

/// The residual of each key of a curve with `key_count` keys whose blocks' residual data
/// follow one another from `residual_off`, block `b` taking `4 * q_counts[b]` bytes.
pub fn key_residuals(key_count: usize, residual_off: usize, q_counts: &[usize]) -> (r: Vec<KeyResidual>)
    requires
        key_count == 0 || (key_count - 1) / 33 <= q_counts@.len(),
        residual_off + 4 * seq_sum(q_counts@) <= usize::MAX,
    ensures
        r@.len() == key_count,
        forall|k: int| 0 <= k < key_count ==> {
            let e = #[trigger] r@[k];
            (e.block as int, e.local as int, e.block_len as int, e.offset as int)
                == key_residual_of(key_count as int, residual_off as int, q_counts@, k)
        },
{
    let ghost q = q_counts@;
    let mut starts: Vec<usize> = Vec::new();
    starts.push(residual_off);
    let mut b: usize = 0;
    proof {
        lemma_seq_sum_nonneg(q);
        assert(q.take(0) =~= Seq::<usize>::empty());
    }
    while b < q_counts.len()
        invariant
            q == q_counts@,
            residual_off + 4 * seq_sum(q) <= usize::MAX,
            b <= q.len(),
            starts@.len() == b + 1,
            forall|i: int| 0 <= i <= b ==> #[trigger] starts@[i] == residual_off + 4 * seq_sum(q.take(i)),
        decreases q.len() - b,
    {
        proof {
            lemma_seq_sum_prefix(q, b as int);
            lemma_seq_sum_nonneg(q.take(b as int));
        }
        let next = starts[b] + 4 * q_counts[b];
        starts.push(next);
        b = b + 1;
    }
    let mut r: Vec<KeyResidual> = Vec::new();
    let mut k: usize = 0;
    while k < key_count
        invariant
            key_count == 0 || (key_count - 1) / 33 <= q.len(),
            starts@.len() == q.len() + 1,
            forall|i: int| 0 <= i <= q.len() ==> #[trigger] starts@[i] == residual_off + 4 * seq_sum(q.take(i)),
            k <= key_count,
            r@.len() == k,
            forall|m: int| 0 <= m < k ==> {
                let e = #[trigger] r@[m];
                (e.block as int, e.local as int, e.block_len as int, e.offset as int)
                    == key_residual_of(key_count as int, residual_off as int, q, m)
            },
        decreases key_count - k,
    {
        let block = k / 33;
        let len = compute_block_len(key_count, block);
        let block_len = if len < 1 { 1 } else { len };
        r.push(KeyResidual { block, local: k % 33, block_len, offset: starts[block] });
        k = k + 1;
    }
    r
}

/// The sum of the values.
fn sum_usize(values: &Vec<usize>) -> (r: usize)
    requires
        seq_sum(values@) <= usize::MAX,
    ensures
        r == seq_sum(values@),
{
    let mut sum: usize = 0;
    let mut i: usize = 0;
    while i < values.len()
        invariant
            i <= values@.len(),
            seq_sum(values@) <= usize::MAX,
            sum == seq_sum(values@.take(i as int)),
        decreases values@.len() - i,
    {
        proof {
            lemma_seq_sum_prefix(values@, i as int);
        }
        sum = sum + values[i];
        i = i + 1;
    }
    assert(values@.take(values@.len() as int) =~= values@);
    sum
}

/// Picks the number of residual components of a 4309 rotation curve: among four, three, two
/// and one, the count whose residual sizes are valid and leave the fewest bytes after the
/// residuals, preferring more components between counts that leave as many. Returns the
/// count, the residual sizes and the position after the residuals, or an error when no
/// count is valid.
#[verifier::rlimit(40)]
#[verifier::spinoff_prover]
pub fn try_pick_comp_bits_4309(payload: &[u8], residual_start0: usize, key_count: usize) -> (r: Result<(usize, Vec<usize>, usize), Error>)
    requires
        residual_start0 <= payload@.len(),
    ensures
        (forall|c: nat| 1 <= c <= 4 ==> !#[trigger] comp_bits_fits(payload@, residual_start0 as int, key_count as int, c))
            ==> (r matches Err(Error::InvalidData)),
        (exists|c: nat| 1 <= c <= 4 && #[trigger] comp_bits_fits(payload@, residual_start0 as int, key_count as int, c))
            ==> (r matches Ok((comp_bits, q, end)) && {
                let qs = block_qcounts_of(payload@, residual_start0 as int, comp_bits as nat, key_count as int)->0;
                &&& 1 <= comp_bits <= 4
                &&& comp_bits_fits(payload@, residual_start0 as int, key_count as int, comp_bits as nat)
                &&& q@ == qs.0
                &&& end == qs.1
                &&& forall|c: nat| 1 <= c <= 4 && c != comp_bits
                    && #[trigger] comp_bits_fits(payload@, residual_start0 as int, key_count as int, c)
                    ==> comp_bits_preferred(payload@, residual_start0 as int, key_count as int, comp_bits as nat, c)
            }),
        r matches Ok((comp_bits, q, end)) ==> picked_comp_bits_4309(payload@, residual_start0 as int, key_count as int) == Some(comp_bits as nat)
            && end <= payload@.len(),
        r is Err ==> picked_comp_bits_4309(payload@, residual_start0 as int, key_count as int) is None,
{
    assert(payload@.len() == payload.len());
    let candidates: [usize; 4] = [4, 3, 2, 1];
    let mut best: Option<(usize, Vec<usize>, usize)> = None;
    let mut best_slack: usize = 0;
    let mut best_comp_bits: usize = 0;
    let mut i: usize = 0;
    while i < 4
        invariant
            i <= 4,
            candidates@ == seq![4usize, 3usize, 2usize, 1usize],
            payload@.len() == payload.len(),
            residual_start0 <= payload@.len(),
            forall|c: nat| 4 - i < c <= 4 ==> (#[trigger] comp_bits_fits(payload@, residual_start0 as int, key_count as int, c) ==> best is Some),
            best is None ==> forall|c: nat| 4 - i < c <= 4 ==> !#[trigger] comp_bits_fits(payload@, residual_start0 as int, key_count as int, c),
            best is None ==> picked_comp_bits_upto(payload@, residual_start0 as int, key_count as int, i as int) is None,
            best matches Some((cb, q, end)) ==> picked_comp_bits_upto(payload@, residual_start0 as int, key_count as int, i as int) == Some(cb as nat)
                && end <= payload@.len(),
            best matches Some((cb, q, end)) ==> {
                let qs = block_qcounts_of(payload@, residual_start0 as int, cb as nat, key_count as int)->0;
                &&& 4 - i < cb <= 4
                &&& cb == best_comp_bits
                &&& comp_bits_fits(payload@, residual_start0 as int, key_count as int, cb as nat)
                &&& q@ == qs.0
                &&& end == qs.1
                &&& best_slack == comp_bits_slack(payload@, residual_start0 as int, key_count as int, cb as nat)
                &&& forall|c: nat| 4 - i < c <= 4 && c != cb
                    && #[trigger] comp_bits_fits(payload@, residual_start0 as int, key_count as int, c)
                    ==> comp_bits_preferred(payload@, residual_start0 as int, key_count as int, cb as nat, c)
            },
        decreases 4 - i,
    {
        let comp_bits = candidates[i];
        assert(comp_bits == 4 - i);
        let q_counts = match compute_block_qcounts_4309(payload, residual_start0, comp_bits, key_count) {
            Ok(q) => q,
            Err(_) => {
                i = i + 1;
                continue;
            },
        };
        let sum = sum_usize(&q_counts);
        let end_off = residual_start0 + 4 * sum;
        if end_off > payload.len() {
            i = i + 1;
            continue;
        }
        let slack = payload.len() - end_off;
        let replace = match best {
            None => true,
            Some(_) => slack < best_slack || (slack == best_slack && comp_bits > best_comp_bits),
        };
        if replace {
            best = Some((comp_bits, q_counts, end_off));
            best_slack = slack;
            best_comp_bits = comp_bits;
        }
        i = i + 1;
    }
    match best {
        Some(b) => Ok(b),
        None => Err(Error::InvalidData),
    }
}


/// Walks the residuals of the first `block_count` blocks of a 4409 rotation curve from
/// `residual_off` and returns the position after them, or an error when a block's residuals
/// are invalid or their size is not a nonzero multiple of four.
pub fn walk_residual_4409(payload: &[u8], residual_off: usize, comp_bits: usize, key_count: usize, block_count: usize) -> (r: Result<usize, Error>)
    requires
        residual_off <= payload@.len(),
    ensures
        block_qcounts_from(payload@, residual_off as int, comp_bits as nat, key_count as int, 0, block_count as int) matches Some((q, end))
            ==> r == Ok::<usize, Error>(end as usize) && residual_off <= end <= payload@.len(),
        block_qcounts_from(payload@, residual_off as int, comp_bits as nat, key_count as int, 0, block_count as int) is None
            ==> (r matches Err(Error::InvalidData)),
{
    assert(payload@.len() == payload.len());
    let ghost full = block_qcounts_from(payload@, residual_off as int, comp_bits as nat, key_count as int, 0, block_count as int);
    let ghost mut q_counts = Seq::<usize>::empty();
    let mut cursor = residual_off;
    let mut block_idx: usize = 0;
    proof {
        match full {
            Some((q, end)) => { assert(q_counts + q =~= q); },
            None => {},
        }
    }
    while block_idx < block_count
        invariant
            block_idx <= block_count,
            residual_off <= cursor <= payload@.len(),
            payload@.len() == payload.len(),
            full == block_qcounts_from(payload@, residual_off as int, comp_bits as nat, key_count as int, 0, block_count as int),
            full == prepend_qcounts(q_counts, block_qcounts_from(payload@, cursor as int, comp_bits as nat, key_count as int, block_idx as int, block_count as int)),
        decreases block_count - block_idx,
    {
        let block_len = compute_block_len(key_count, block_idx);
        if block_len <= 1 {
            proof {
                match block_qcounts_from(payload@, cursor as int, comp_bits as nat, key_count as int, block_idx + 1, block_count as int) {
                    Some((q2, e2)) => { assert(q_counts + (seq![0usize] + q2) =~= q_counts.push(0usize) + q2); },
                    None => {},
                }
                q_counts = q_counts.push(0usize);
            }
            block_idx = block_idx + 1;
            continue;
        }
        let end_off = match residual_vector_end(payload, cursor, 1, comp_bits, block_len) {
            Ok(e) => e,
            Err(e) => return Err(e),
        };
        let delta = end_off - cursor;
        if delta == 0 || (delta % 4) != 0 {
            return Err(Error::InvalidData);
        }
        proof {
            match block_qcounts_from(payload@, end_off as int, comp_bits as nat, key_count as int, block_idx + 1, block_count as int) {
                Some((q2, e2)) => { assert(q_counts + (seq![(delta / 4) as usize] + q2) =~= q_counts.push((delta / 4) as usize) + q2); },
                None => {},
            }
            q_counts = q_counts.push((delta / 4) as usize);
        }
        cursor = end_off;
        block_idx = block_idx + 1;
    }
    proof {
        assert(q_counts + Seq::<usize>::empty() =~= q_counts);
    }
    Ok(cursor)
}


/// Where the parts of a curve in one of the type 9 formats (3209, 3309 and 4209) are.
#[derive(Debug, Clone, PartialEq, Eq)]
pub struct Type9Layout {
    /// The position of the base scale, after the frame indices.
    pub base_scale_off: usize,
    /// The number of blocks.
    pub block_count: usize,
    /// The position of the endpoints.
    pub endpoint_base: usize,
    /// The position of the residuals of each block.
    pub residual_starts: Vec<usize>,
}

/// The position after the frame indices, rounded up to a multiple of four.
pub open spec fn type9_scale_off(key_count: int, index_size: int) -> int {
    spec_align_up(12 + index_size * key_count, 4)
}

/// The layout of a type 9 curve with `key_count` keys, `index_size` bytes per frame index and
/// `endpoint_size` bytes per endpoint, as the base scale position, the block count, the
/// endpoint position and the residual start of each block. After the 12-byte header come the
/// frame indices, the base scale, the 16-bit block count, one 16-bit residual offset in words
/// for every block after the first, the endpoints at the next multiple of four and the
/// residuals. `None` when a part does not fit or the block count does not match the key count.
pub open spec fn type9_layout_of(bytes: Seq<u8>, key_count: int, index_size: int, endpoint_size: int)
    -> Option<(int, int, int, Seq<int>)>
{
    let len = bytes.len() as int;
    let pos = type9_scale_off(key_count, index_size);
    if 12 + index_size * key_count > len || pos + 8 > len {
        None
    } else {
        let bc = le_u16_at(bytes, pos + 4) as int;
        let eb = spec_align_up(pos + 4 + 2 * bc, 4);
        let ro = eb + (bc + 1) * endpoint_size;
        if bc != block_count_type9(key_count) || bc == 0 || pos + 6 + 2 * (bc - 1) > len || ro > len {
            None
        } else {
            Some((pos, bc, eb, Seq::new(bc as nat, |i: int| if i == 0 { ro } else {
                ro + 4 * le_u16_at(bytes, pos + 6 + 2 * (i - 1)) as int
            })))
        }
    }
}

/// Reads the layout of a type 9 curve with `key_count` keys, `index_size` bytes per frame
/// index and `endpoint_size` bytes per endpoint, or fails when a part does not fit or the
/// block count does not match the key count.
pub fn read_type9_layout(bytes: &[u8], key_count: usize, index_size: usize, endpoint_size: usize) -> (r: Result<Type9Layout, Error>)
    requires
        1 <= key_count <= u32::MAX,
        index_size == 1 || index_size == 2,
        endpoint_size == 12 || endpoint_size == 16,
        12 <= bytes@.len() <= usize::MAX - 0x40000,
    ensures
        type9_layout_of(bytes@, key_count as int, index_size as int, endpoint_size as int) matches Some((pos, bc, eb, starts))
            ==> (r matches Ok(l) && l.base_scale_off == pos && l.block_count == bc && l.endpoint_base == eb
                && l.residual_starts@.map_values(|x: usize| x as int) == starts),
        type9_layout_of(bytes@, key_count as int, index_size as int, endpoint_size as int) is None
            ==> (r matches Err(Error::InvalidData)),
{
    let len = bytes.len();
    assert(bytes@.len() == len);
    let room = (len - 12) / index_size;
    if key_count > room {
        assert(12 + index_size * key_count > len) by (nonlinear_arith)
            requires key_count > room, room == (len - 12) / (index_size as int), index_size > 0, len >= 12;
        return Err(Error::InvalidData);
    }
    assert(index_size * key_count <= len - 12) by (nonlinear_arith)
        requires key_count <= room, room == (len - 12) / (index_size as int), index_size > 0, len >= 12;
    let pos = align_up(12 + index_size * key_count, 4);
    if len < 8 || pos > len - 8 {
        return Err(Error::InvalidData);
    }
    let block_count = match read_u16_le(bytes, pos + 4) {
        Ok(v) => v as usize,
        Err(e) => return Err(e),
    };
    let expected_blocks = compute_block_count_type9(key_count);
    if block_count != expected_blocks || block_count == 0 {
        return Err(Error::InvalidData);
    }
    if len - (pos + 6) < 2 * (block_count - 1) {
        return Err(Error::InvalidData);
    }
    let mut block_words: Vec<usize> = Vec::new();
    let mut i: usize = 0;
    while i < block_count - 1
        invariant
            1 <= block_count <= 65535,
            i <= block_count - 1,
            pos + 6 + 2 * (block_count - 1) <= len,
            len == bytes@.len(),
            block_words@.len() == i,
            forall|m: int| 0 <= m < i ==> #[trigger] block_words@[m] == le_u16_at(bytes@, pos + 6 + 2 * m) as usize,
            forall|m: int| 0 <= m < i ==> #[trigger] block_words@[m] <= 65535,
        decreases block_count - 1 - i,
    {
        let w = match read_u16_le(bytes, pos + 6 + 2 * i) {
            Ok(v) => v as usize,
            Err(e) => return Err(e),
        };
        block_words.push(w);
        i = i + 1;
    }
    let endpoint_base = align_up(pos + 4 + 2 * block_count, 4);
    assert((block_count + 1) * endpoint_size <= 65536 * 16) by (nonlinear_arith)
        requires block_count <= 65535, endpoint_size <= 16;
    let endpoints_size = (block_count + 1) * endpoint_size;
    if endpoint_base > len || len - endpoint_base < endpoints_size {
        return Err(Error::InvalidData);
    }
    let residual_off = endpoint_base + endpoints_size;
    let mut residual_starts: Vec<usize> = Vec::new();
    residual_starts.push(residual_off);
    let mut j: usize = 0;
    while j < block_words.len()
        invariant
            j <= block_words@.len(),
            block_words@.len() == block_count - 1,
            residual_off <= len,
            len <= usize::MAX - 0x40000,
            forall|m: int| 0 <= m < block_count - 1 ==> #[trigger] block_words@[m] == le_u16_at(bytes@, pos + 6 + 2 * m) as usize,
            forall|m: int| 0 <= m < block_count - 1 ==> #[trigger] block_words@[m] <= 65535,
            residual_starts@.len() == j + 1,
            residual_starts@[0] == residual_off,
            forall|m: int| 1 <= m <= j ==> #[trigger] residual_starts@[m] == residual_off + 4 * block_words@[m - 1],
        decreases block_words@.len() - j,
    {
        residual_starts.push(residual_off + 4 * block_words[j]);
        j = j + 1;
    }
    let layout = Type9Layout { base_scale_off: pos, block_count, endpoint_base, residual_starts };
    proof {
        let (spos, sbc, seb, sstarts) = type9_layout_of(bytes@, key_count as int, index_size as int, endpoint_size as int)->0;
        assert(layout.residual_starts@.map_values(|x: usize| x as int) =~= sstarts);
    }
    Ok(layout)
}


/// The layout of a single-block curve (the 3208, 3308 and 4208 formats) with `key_count` keys,
/// `index_size` bytes per frame index and `endpoint_size` bytes per endpoint, as the base scale
/// position and the residual position. After the 12-byte header come the frame indices, the
/// base scale at the next multiple of four, the two endpoints and the residuals. `None` when
/// there are more than `max_keys` keys or a part does not fit.
pub open spec fn single_block_layout_of(len: int, key_count: int, index_size: int, endpoint_size: int, max_keys: int)
    -> Option<(int, int)>
{
    let pos = spec_align_up(12 + index_size * key_count, 4);
    if key_count > max_keys || 12 + index_size * key_count > len || pos + 4 + 2 * endpoint_size > len {
        None
    } else {
        Some((pos, pos + 4 + 2 * endpoint_size))
    }
}

/// Reads the layout of a single-block curve with `key_count` keys, or fails when there are
/// more than `max_keys` keys or a part does not fit.
pub fn read_single_block_layout(bytes: &[u8], key_count: usize, index_size: usize, endpoint_size: usize, max_keys: usize)
    -> (r: Result<(usize, usize), Error>)
    requires
        index_size == 1 || index_size == 2,
        endpoint_size == 12 || endpoint_size == 16,
        max_keys <= 64,
        12 <= bytes@.len() <= usize::MAX - 64,
    ensures
        single_block_layout_of(bytes@.len() as int, key_count as int, index_size as int, endpoint_size as int, max_keys as int)
            matches Some((pos, ro)) ==> r == Ok::<(usize, usize), Error>((pos as usize, ro as usize)),
        single_block_layout_of(bytes@.len() as int, key_count as int, index_size as int, endpoint_size as int, max_keys as int)
            is None ==> (r matches Err(Error::InvalidData)),
{
    let len = bytes.len();
    assert(bytes@.len() == len);
    if key_count > max_keys {
        return Err(Error::InvalidData);
    }
    if 12 + index_size * key_count > len {
        return Err(Error::InvalidData);
    }
    let pos = align_up(12 + index_size * key_count, 4);
    if pos + 4 + 2 * endpoint_size > len {
        return Err(Error::InvalidData);
    }
    Ok((pos, pos + 4 + 2 * endpoint_size))
}


/// The offset of the key values of a curve that stores a frame index of `index_size` bytes
/// per key after its 12-byte header, then, from the next multiple of four, `key_count`
/// values of `value_size` bytes; `None` when the values do not fit in `len` bytes.
pub open spec fn indexed_keys_offset_of(len: int, key_count: int, index_size: int, value_size: int) -> Option<int> {
    let offset = spec_align_up(12 + index_size * key_count, 4);
    if offset + key_count * value_size <= len {
        Some(offset)
    } else {
        None
    }
}

/// Finds the key values of a curve of `len` bytes with `key_count` keys of `value_size`
/// bytes each, after one frame index of `index_size` bytes per key.
pub fn indexed_keys_offset(len: usize, key_count: usize, index_size: usize, value_size: usize) -> (r: Result<usize, Error>)
    requires
        index_size <= 2,
        value_size <= 16,
        18 * key_count + 16 <= usize::MAX,
    ensures
        indexed_keys_offset_of(len as int, key_count as int, index_size as int, value_size as int) matches Some(o)
            ==> r == Ok::<usize, Error>(o as usize),
        indexed_keys_offset_of(len as int, key_count as int, index_size as int, value_size as int) is None
            ==> (r matches Err(Error::InvalidData)),
{
    proof {
        assert(index_size * key_count <= 2 * key_count) by (nonlinear_arith)
            requires index_size <= 2;
        assert(key_count * value_size <= key_count * 16) by (nonlinear_arith)
            requires value_size <= 16;
    }
    let offset = align_up(12 + index_size * key_count, 4);
    if offset + key_count * value_size <= len {
        Ok(offset)
    } else {
        Err(Error::InvalidData)
    }
}



/// The keys of a curve with a frame index per key: the float of its header, as its bit
/// pattern, the stored frame index of each key and the words of each key value.
#[derive(Debug, Clone, PartialEq, Eq)]
pub struct IndexedKeys {
    pub unk1: u32,
    pub frame_indices: Vec<usize>,
    pub values: Vec<Vec<u32>>,
}

/// The stored frame index of key `i`: an 8-bit or a 16-bit value after the header.
pub open spec fn frame_index_at(bytes: Seq<u8>, index_size: int, i: int) -> usize {
    if index_size == 2 { le_u16_at(bytes, 12 + 2 * i) as usize } else { bytes[12 + i] as usize }
}

/// The `width` words of key value `i` of the values stored from `off`.
pub open spec fn key_value_at(bytes: Seq<u8>, off: int, width: int, i: int) -> Seq<u32> {
    Seq::new(width as nat, |c: int| le_u32_at(bytes, off + 4 * width * i + 4 * c))
}

/// Reads the keys of a curve in `format` with a frame index of `index_size` bytes per key
/// and key values of `width` words: the header, the frame indices after it, then, from the
/// next multiple of four, the key values.
///
/// Fails with [`Error::InvalidData`] when the bytes are shorter than the header, hold
/// another format, or end before the last key value.
pub fn read_indexed_keys(bytes: &[u8], format: u32, index_size: usize, width: usize) -> (r: Result<IndexedKeys, Error>)
    requires
        index_size == 1 || index_size == 2,
        1 <= width <= 4,
        bytes@.len() >= 12 ==> 18 * (le_u32_at(bytes@, 4) as int) + 16 <= usize::MAX,
    ensures
        bytes@.len() < 12 || le_u32_at(bytes@, 0) != format ==> (r matches Err(Error::InvalidData)),
        bytes@.len() >= 12 && le_u32_at(bytes@, 0) == format ==> {
            let key_count = le_u32_at(bytes@, 4) as int;
            match indexed_keys_offset_of(bytes@.len() as int, key_count, index_size as int, 4 * width as int) {
                None => r matches Err(Error::InvalidData),
                Some(off) => r matches Ok(k) && {
                    &&& k.unk1 == le_u32_at(bytes@, 8)
                    &&& k.frame_indices@ == Seq::new(key_count as nat, |i: int| frame_index_at(bytes@, index_size as int, i))
                    &&& k.values@.len() == key_count
                    &&& forall|i: int| 0 <= i < key_count ==> (#[trigger] k.values@[i])@ == key_value_at(bytes@, off, width as int, i)
                },
            }
        },
{
    let (key_count, unk1) = read_curve_header(bytes, format, 12)?;
    let off = indexed_keys_offset(bytes.len(), key_count, index_size, 4 * width)?;
    proof {
        assert(index_size * key_count <= 2 * key_count) by (nonlinear_arith)
            requires index_size <= 2;
        assert(key_count * (4 * width) <= key_count * 16) by (nonlinear_arith)
            requires width <= 4;
    }
    let mut frame_indices: Vec<usize> = Vec::new();
    let mut i: usize = 0;
    while i < key_count
        invariant
            index_size == 1 || index_size == 2,
            12 + index_size * key_count <= off,
            off <= bytes@.len(),
            i <= key_count,
            frame_indices@ =~= Seq::new(i as nat, |m: int| frame_index_at(bytes@, index_size as int, m)),
        decreases key_count - i,
    {
        proof {
            assert(index_size * i + index_size <= index_size * key_count) by (nonlinear_arith)
                requires i < key_count, index_size >= 0;
        }
        let index = if index_size == 2 {
            match read_u16_le(bytes, 12 + 2 * i) {
                Ok(v) => v as usize,
                Err(e) => return Err(e),
            }
        } else {
            bytes[12 + i] as usize
        };
        frame_indices.push(index);
        i = i + 1;
    }
    let mut values: Vec<Vec<u32>> = Vec::new();
    let mut k: usize = 0;
    let mut base: usize = off;
    while k < key_count
        invariant
            1 <= width <= 4,
            off + key_count * (4 * width) <= bytes@.len(),
            k <= key_count,
            base == off + 4 * width * k,
            values@.len() == k,
            forall|m: int| 0 <= m < k ==> (#[trigger] values@[m])@ == key_value_at(bytes@, off as int, width as int, m),
        decreases key_count - k,
    {
        proof {
            assert((k + 1) * (4 * width) <= key_count * (4 * width)) by (nonlinear_arith)
                requires k < key_count, width >= 1;
            assert((k + 1) * (4 * width) == 4 * width * k + 4 * width) by (nonlinear_arith);
            assert(4 * width * (k + 1) == 4 * width * k + 4 * width) by (nonlinear_arith);
            assert(base + 4 * width <= bytes@.len());
        }
        let mut value: Vec<u32> = Vec::new();
        let mut c: usize = 0;
        while c < width
            invariant
                1 <= width <= 4,
                base == off + 4 * width * k,
                base + 4 * width <= bytes@.len(),
                bytes@.len() == bytes.len(),
                c <= width,
                value@ =~= key_value_at(bytes@, off as int, width as int, k as int).take(c as int),
            decreases width - c,
        {
            let w = match read_u32_le(bytes, base + 4 * c) {
                Ok(v) => v,
                Err(e) => return Err(e),
            };
            value.push(w);
            c = c + 1;
        }
        proof {
            assert(key_value_at(bytes@, off as int, width as int, k as int).take(c as int) =~= key_value_at(bytes@, off as int, width as int, k as int));
        }
        values.push(value);
        k = k + 1;
        base = base + 4 * width;
    }
    Ok(IndexedKeys { unk1, frame_indices, values })
}

/// Where the value of one frame of a curve with sparse keys comes from.
#[derive(Debug, Clone, Copy, PartialEq, Eq)]
pub enum FrameSource {
    /// The default value of a curve without keys.
    Default,
    /// The value of the key with this index.
    Key(usize),
    /// The value of key `from` blended towards key `from + 1` by `step / span`.
    Blend { from: usize, step: usize, span: usize },
}

/// The last frame that the pair of keys `i` and `i + 1` covers: the frame of key `i + 1`,
/// or the last frame when that lies beyond it.
pub open spec fn pair_end(frame_indices: Seq<usize>, total_frames: nat, i: int) -> int {
    if frame_indices[i + 1] >= total_frames { total_frames - 1 } else { frame_indices[i + 1] as int }
}

/// Whether the pair of keys `i` and `i + 1` covers frame `f`: the second key comes after
/// the first and `f` lies between the first and [`pair_end`].
pub open spec fn pair_covers(frame_indices: Seq<usize>, total_frames: nat, i: int, f: int) -> bool {
    &&& frame_indices[i + 1] > frame_indices[i]
    &&& frame_indices[i] <= f <= pair_end(frame_indices, total_frames, i)
}

/// The source of frame `f` after the first `n` pairs of keys are applied in order, each
/// pair overwriting the frames it covers with a blend from its first key (or with its first
/// key when it covers a single frame); frames that no pair covers take the first key.
pub open spec fn pairs_source(frame_indices: Seq<usize>, total_frames: nat, f: int, n: int) -> FrameSource
    decreases n,
{
    if n <= 0 {
        FrameSource::Key(0)
    } else if pair_covers(frame_indices, total_frames, n - 1, f) {
        let f0 = frame_indices[n - 1] as int;
        let span = pair_end(frame_indices, total_frames, n - 1) - f0;
        if span == 0 {
            FrameSource::Key((n - 1) as usize)
        } else {
            FrameSource::Blend { from: (n - 1) as usize, step: (f - f0) as usize, span: span as usize }
        }
    } else {
        pairs_source(frame_indices, total_frames, f, n - 1)
    }
}

/// The source of each of `total_frames` frames of a curve with keys at `frame_indices`
/// and `key_count` key values: the default for a curve without keys; otherwise the last
/// key from the frame of the last key on, and before it the source that the pairs of
/// consecutive keys give.
pub open spec fn sparse_frame_sources_of(frame_indices: Seq<usize>, key_count: nat, total_frames: nat) -> Seq<FrameSource> {
    if key_count == 0 || frame_indices.len() == 0 {
        seq![FrameSource::Default]
    } else {
        Seq::new(total_frames, |f: int|
            if f >= frame_indices.last() {
                FrameSource::Key((key_count - 1) as usize)
            } else {
                pairs_source(frame_indices, total_frames, f, frame_indices.len() - 1)
            })
    }
}

/// The source names key values that exist, and a blend steps at most the whole way.
pub open spec fn frame_source_valid(s: FrameSource, key_count: nat) -> bool {
    match s {
        FrameSource::Default => true,
        FrameSource::Key(i) => i < key_count,
        FrameSource::Blend { from, step, span } => from + 1 < key_count && 0 < span && step <= span,
    }
}

/// The source that the pairs of keys give to a frame names existing key values.
proof fn lemma_pairs_source_valid(frame_indices: Seq<usize>, total_frames: nat, key_count: nat, f: int, n: int)
    requires
        key_count > 0,
        n <= frame_indices.len() - 1,
        forall|i: int| 0 <= i < frame_indices.len() - 1 ==> #[trigger] pair_in_range(frame_indices, total_frames, key_count, i),
    ensures
        frame_source_valid(pairs_source(frame_indices, total_frames, f, n), key_count),
    decreases n,
{
    if n > 0 {
        assert(pair_in_range(frame_indices, total_frames, key_count, n - 1));
        lemma_pairs_source_valid(frame_indices, total_frames, key_count, f, n - 1);
    }
}

/// A pair of keys that covers frames starts inside the animation and has a value for its
/// first key, and for its second key when it covers more than one frame.
pub open spec fn pair_in_range(frame_indices: Seq<usize>, total_frames: nat, key_count: nat, i: int) -> bool {
    frame_indices[i + 1] > frame_indices[i] ==> {
        &&& frame_indices[i] < total_frames
        &&& i < key_count
        &&& pair_end(frame_indices, total_frames, i) > frame_indices[i] ==> i + 1 < key_count
    }
}

/// Finds where the value of each frame comes from for a curve with keys at the frames
/// `frame_indices` and `key_count` key values, expanded to `total_frames` frames: values
/// between two keys blend linearly from the first to the second, frames before the first
/// key take the first key, and frames from the last key on take the last key value.
pub fn sparse_frame_sources(frame_indices: &[usize], key_count: usize, total_frames: usize) -> (r: Vec<FrameSource>)
    requires
        key_count > 0 ==> forall|i: int| 0 <= i < frame_indices@.len() - 1
            ==> #[trigger] pair_in_range(frame_indices@, total_frames as nat, key_count as nat, i),
    ensures
        r@ == sparse_frame_sources_of(frame_indices@, key_count as nat, total_frames as nat),
        forall|f: int| 0 <= f < r@.len() ==> frame_source_valid(#[trigger] r@[f], key_count as nat),
{
    let n = frame_indices.len();
    if key_count == 0 || n == 0 {
        return vec![FrameSource::Default];
    }
    let ghost fi = frame_indices@;
    let ghost total = total_frames as nat;
    let mut frames: Vec<FrameSource> = Vec::new();
    let mut f: usize = 0;
    while f < total_frames
        invariant
            f <= total_frames,
            frames@ =~= Seq::new(f as nat, |g: int| FrameSource::Key(0)),
        decreases total_frames - f,
    {
        frames.push(FrameSource::Key(0));
        f = f + 1;
    }
    let mut i: usize = 0;
    while i + 1 < n
        invariant
            n == fi.len(),
            fi == frame_indices@,
            total == total_frames,
            n >= 1,
            i + 1 <= n,
            key_count > 0,
            forall|k: int| 0 <= k < n - 1 ==> #[trigger] pair_in_range(fi, total_frames as nat, key_count as nat, k),
            frames@.len() == total_frames,
            forall|g: int| 0 <= g < total_frames ==> #[trigger] frames@[g] == pairs_source(fi, total, g, i as int),
        decreases n - i,
    {
        let f0 = frame_indices[i];
        let next = frame_indices[i + 1];
        if next <= f0 {
            proof {
                assert forall|g: int| 0 <= g < total_frames implies #[trigger] frames@[g] == pairs_source(fi, total, g, i + 1) by {
                    assert(!pair_covers(fi, total, i as int, g));
                }
            }
            i = i + 1;
            continue;
        }
        assert(pair_in_range(fi, total_frames as nat, key_count as nat, i as int));
        let f1 = if next >= total_frames { total_frames - 1 } else { next };
        let span = f1 - f0;
        if span == 0 {
            let ghost before = frames@;
            frames.set(f0, FrameSource::Key(i));
            proof {
                assert forall|g: int| 0 <= g < total_frames implies #[trigger] frames@[g] == pairs_source(fi, total, g, i + 1) by {
                    if g == f0 {
                        assert(pair_covers(fi, total, i as int, g));
                    } else {
                        assert(!pair_covers(fi, total, i as int, g));
                        assert(frames@[g] == before[g]);
                    }
                }
            }
        } else {
            let ghost before = frames@;
            let mut g: usize = f0;
            while g <= f1
                invariant
                    n == fi.len(),
                    fi == frame_indices@,
                    total == total_frames,
                    i + 1 < n,
                    f0 == fi[i as int],
                    f0 < f1,
                    f1 < total_frames,
                    f1 == pair_end(fi, total, i as int),
                    fi[i + 1] > fi[i as int],
                    span == f1 - f0,
                    f0 <= g <= f1 + 1,
                    frames@.len() == total_frames,
                    forall|h: int| 0 <= h < total_frames ==> #[trigger] frames@[h] == (if f0 <= h < g {
                        FrameSource::Blend { from: i, step: (h - f0) as usize, span }
                    } else {
                        before[h]
                    }),
                decreases f1 + 1 - g,
            {
                frames.set(g, FrameSource::Blend { from: i, step: g - f0, span });
                g = g + 1;
            }
            proof {
                assert forall|h: int| 0 <= h < total_frames implies #[trigger] frames@[h] == pairs_source(fi, total, h, i + 1) by {
                    if f0 <= h <= f1 {
                        assert(pair_covers(fi, total, i as int, h));
                    } else {
                        assert(!pair_covers(fi, total, i as int, h));
                    }
                }
            }
        }
        i = i + 1;
    }
    let last = frame_indices[n - 1];
    let last_key = key_count - 1;
    let ghost before = frames@;
    let mut g: usize = if last < total_frames { last } else { total_frames };
    while g < total_frames
        invariant
            n == fi.len(),
            fi == frame_indices@,
            last == fi[n - 1],
            last_key == key_count - 1,
            g <= total_frames,
            last < total_frames ==> last <= g,
            last >= total_frames ==> g == total_frames,
            frames@.len() == total_frames,
            forall|h: int| 0 <= h < total_frames ==> #[trigger] frames@[h] == (if last <= h < g {
                FrameSource::Key(last_key)
            } else {
                before[h]
            }),
        decreases total_frames - g,
    {
        frames.set(g, FrameSource::Key(last_key));
        g = g + 1;
    }
    proof {
        assert(frames@ =~= sparse_frame_sources_of(frame_indices@, key_count as nat, total_frames as nat));
        assert forall|h: int| 0 <= h < frames@.len() implies frame_source_valid(#[trigger] frames@[h], key_count as nat) by {
            lemma_pairs_source_valid(fi, total, key_count as nat, h, n - 1);
        }
    }
    frames
}

} // verus!
