//! The layout of version 1.2 rotation curves in the 4409 format: a header, one endpoint
//! quaternion per block boundary and the residuals of each block.
//!
//! The endpoints and residuals hold floats; this module finds where they are.
use vstd::prelude::*;
use crate::anim_data::error::Error;
use crate::anim_data::v1::common::{
    le_u16_at, le_u32_at, read_u16_le, read_u32_le, read_f32_le, block_qcounts_from, walk_residual_4409,
};

verus! {

/// The header of a 4409 rotation curve. Floats are carried as their bit patterns.
#[derive(Debug, Clone, Copy, PartialEq, Eq)]
pub struct Rotate4409Header {
    pub key_count: usize,
    pub unk1: u32,
    pub base_scale: u32,
    pub bits: u16,
}

/// Reads the header of a 4409 rotation curve: the format code `0x4409`, the key count, two
/// floats and a 16-bit value at offset 18. Fails when the curve is shorter than the header
/// or holds another format.
pub fn read_rotate_4409_header(bytes: &[u8]) -> (r: Result<Rotate4409Header, Error>)
    ensures
        bytes@.len() < 0x14 || le_u32_at(bytes@, 0) != 0x4409 ==> (r matches Err(Error::InvalidData)),
        bytes@.len() >= 0x14 && le_u32_at(bytes@, 0) == 0x4409 ==> (r matches Ok(h) && {
            &&& h.key_count == le_u32_at(bytes@, 4)
            &&& h.unk1 == le_u32_at(bytes@, 8)
            &&& h.base_scale == le_u32_at(bytes@, 12)
            &&& h.bits == le_u16_at(bytes@, 18)
        }),
{
    if bytes.len() < 0x14 {
        return Err(Error::InvalidData);
    }
    let format = match read_u32_le(bytes, 0) {
        Ok(v) => v,
        Err(e) => return Err(e),
    };
    if format != 0x4409 {
        return Err(Error::InvalidData);
    }
    let key_count = match read_u32_le(bytes, 4) {
        Ok(v) => v as usize,
        Err(e) => return Err(e),
    };
    let unk1 = match read_f32_le(bytes, 8) {
        Ok(v) => v,
        Err(e) => return Err(e),
    };
    let base_scale = match read_f32_le(bytes, 12) {
        Ok(v) => v,
        Err(e) => return Err(e),
    };
    let bits = match read_u16_le(bytes, 18) {
        Ok(v) => v,
        Err(e) => return Err(e),
    };
    Ok(Rotate4409Header { key_count, unk1, base_scale, bits })
}

/// The number of blocks of a 4409 curve: none for a single key.
pub open spec fn block_count_4409(key_count: int) -> int {
    if key_count <= 1 { 0 } else { (key_count - 1) / 33 + 1 }
}

/// The two possible positions of the endpoints.
pub open spec fn endpoint_base_4409(choice: int) -> int {
    if choice == 0 { 0x14 } else { 0x18 }
}

/// The position of the residuals after the endpoints that start at the given choice of base.
pub open spec fn residual_off_4409(key_count: int, choice: int) -> int {
    endpoint_base_4409(choice) + (block_count_4409(key_count) + 1) * 16
}

/// The position after the residuals of all blocks when read with `comp_bits` components.
pub open spec fn residual_end_4409(bytes: Seq<u8>, residual_off: int, comp_bits: nat, key_count: int) -> Option<int> {
    match block_qcounts_from(bytes, residual_off, comp_bits, key_count, 0, block_count_4409(key_count)) {
        Some((q, end)) => Some(end),
        None => None,
    }
}

/// The first of four, three, two and one components whose residuals can be walked, with the
/// position after the residuals.
pub open spec fn first_comp_bits_4409(bytes: Seq<u8>, residual_off: int, key_count: int) -> Option<(nat, int)> {
    if residual_end_4409(bytes, residual_off, 4, key_count) is Some {
        Some((4nat, residual_end_4409(bytes, residual_off, 4, key_count)->0))
    } else if residual_end_4409(bytes, residual_off, 3, key_count) is Some {
        Some((3nat, residual_end_4409(bytes, residual_off, 3, key_count)->0))
    } else if residual_end_4409(bytes, residual_off, 2, key_count) is Some {
        Some((2nat, residual_end_4409(bytes, residual_off, 2, key_count)->0))
    } else if residual_end_4409(bytes, residual_off, 1, key_count) is Some {
        Some((1nat, residual_end_4409(bytes, residual_off, 1, key_count)->0))
    } else {
        None
    }
}

/// The layout found for one choice of endpoint base: the residual position, the component
/// count and the bytes left after the residuals. `None` when the endpoints do not fit, are
/// misaligned or unusable, or no component count can be walked.
pub open spec fn layout_candidate_4409(bytes: Seq<u8>, key_count: int, endpoints_ok: bool, choice: int) -> Option<(int, nat, int)> {
    let ro = residual_off_4409(key_count, choice);
    if ro > bytes.len() || endpoint_base_4409(choice) % 4 != 0 || ro % 4 != 0 || !endpoints_ok {
        None
    } else {
        match first_comp_bits_4409(bytes, ro, key_count) {
            Some((cb, end)) => Some((ro, cb, bytes.len() - end)),
            None => None,
        }
    }
}

/// `a` ranks before `b`: fewer bytes left, then more components, then an earlier position.
pub open spec fn layout_ranks_before(a: (int, nat, int), b: (int, nat, int)) -> bool {
    ||| a.2 < b.2
    ||| a.2 == b.2 && a.1 > b.1
    ||| a.2 == b.2 && a.1 == b.1 && a.0 < b.0
}

/// The layout chosen among the two endpoint bases: the best ranked candidate, the first on a tie.
pub open spec fn layout_4409(bytes: Seq<u8>, key_count: int, endpoints_ok: Seq<bool>) -> Option<(int, nat)> {
    let c0 = layout_candidate_4409(bytes, key_count, endpoints_ok[0], 0);
    let c1 = layout_candidate_4409(bytes, key_count, endpoints_ok[1], 1);
    match (c0, c1) {
        (None, None) => None,
        (Some(a), None) => Some((a.0, a.1)),
        (None, Some(b)) => Some((b.0, b.1)),
        (Some(a), Some(b)) => if layout_ranks_before(b, a) { Some((b.0, b.1)) } else { Some((a.0, a.1)) },
    }
}

/// The candidate layout for one choice of endpoint base: the residual position, the first
/// component count whose residuals can be walked, and the bytes left after the residuals.
fn layout_candidate(bytes: &[u8], key_count: usize, endpoints_ok: bool, choice: usize) -> (r: Option<(usize, usize, usize)>)
    requires
        key_count <= u32::MAX,
        choice < 2,
    ensures
        r matches Some((ro, cb, slack))
            ==> layout_candidate_4409(bytes@, key_count as int, endpoints_ok, choice as int) == Some((ro as int, cb as nat, slack as int)),
        r is None ==> layout_candidate_4409(bytes@, key_count as int, endpoints_ok, choice as int) is None,
{
    assert(bytes@.len() == bytes.len());
    let block_count: usize = if key_count <= 1 { 0 } else { (key_count - 1) / 33 + 1 };
    let endpoint_count = block_count + 1;
    let endpoint_base: usize = if choice == 0 { 0x14 } else { 0x18 };
    let residual_off = endpoint_base + endpoint_count * 16;
    assert(endpoint_base == endpoint_base_4409(choice as int));
    assert(residual_off == residual_off_4409(key_count as int, choice as int));
    if residual_off > bytes.len() || endpoint_base % 4 != 0 || residual_off % 4 != 0 || !endpoints_ok {
        return None;
    }
    let candidates: [usize; 4] = [4, 3, 2, 1];
    let mut found: Option<(usize, usize)> = None;
    let mut k: usize = 0;
    while k < 4 && found.is_none()
        invariant
            k <= 4,
            candidates@ == seq![4usize, 3usize, 2usize, 1usize],
            residual_off <= bytes@.len(),
            bytes@.len() == bytes.len(),
            block_count == block_count_4409(key_count as int),
            found is None ==> {
                &&& k > 0 ==> residual_end_4409(bytes@, residual_off as int, 4, key_count as int) is None
                &&& k > 1 ==> residual_end_4409(bytes@, residual_off as int, 3, key_count as int) is None
                &&& k > 2 ==> residual_end_4409(bytes@, residual_off as int, 2, key_count as int) is None
                &&& k > 3 ==> residual_end_4409(bytes@, residual_off as int, 1, key_count as int) is None
            },
            found matches Some((cb, end)) ==> {
                &&& first_comp_bits_4409(bytes@, residual_off as int, key_count as int) == Some((cb as nat, end as int))
                &&& end <= bytes@.len()
            },
        decreases 4 - k,
    {
        let comp_bits = candidates[k];
        assert(comp_bits == 4 - k);
        match walk_residual_4409(bytes, residual_off, comp_bits, key_count, block_count) {
            Ok(end_off) => {
                found = Some((comp_bits, end_off));
            },
            Err(_) => {},
        }
        k = k + 1;
    }
    match found {
        None => None,
        Some((comp_bits, end_off)) => Some((residual_off, comp_bits, bytes.len() - end_off)),
    }
}

/// Picks the position of the residuals and the component count of a 4409 rotation curve with
/// `key_count` keys. The endpoints start at byte `0x14` or `0x18`; `endpoints_ok` says for
/// each choice whether its endpoints could be read as usable values. For each usable choice
/// the first of four, three, two and one components whose residuals can be walked is taken,
/// and the choice that leaves the fewest bytes wins, then the one with more components.
pub fn pick_layout_4409(bytes: &[u8], key_count: usize, endpoints_ok: [bool; 2]) -> (r: Result<(usize, usize), Error>)
    requires
        key_count <= u32::MAX,
    ensures
        r matches Ok((ro, cb)) ==> layout_4409(bytes@, key_count as int, endpoints_ok@) == Some((ro as int, cb as nat)),
        r is Err ==> layout_4409(bytes@, key_count as int, endpoints_ok@) is None && (r matches Err(Error::InvalidData)),
{
    let first = layout_candidate(bytes, key_count, endpoints_ok[0], 0);
    let second = layout_candidate(bytes, key_count, endpoints_ok[1], 1);
    match (first, second) {
        (None, None) => Err(Error::InvalidData),
        (Some(a), None) => Ok((a.0, a.1)),
        (None, Some(b)) => Ok((b.0, b.1)),
        (Some(a), Some(b)) => {
            let b_first = b.2 < a.2 || (b.2 == a.2 && b.1 > a.1) || (b.2 == a.2 && b.1 == a.1 && b.0 < a.0);
            if b_first {
                Ok((b.0, b.1))
            } else {
                Ok((a.0, a.1))
            }
        },
    }
}

} // verus!
