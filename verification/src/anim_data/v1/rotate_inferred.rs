//! The layout of version 1.2 rotation curves in the 4309 format: endpoint quaternions stored
//! as four or three floats, padding, and the residuals of each block.
//!
//! The endpoints and residuals hold floats; this module finds where they are.
use vstd::prelude::*;
use vstd::slice::slice_subrange;
use crate::anim_data::error::Error;
use crate::anim_data::v1::common::{block_qcounts_of, picked_comp_bits_4309, try_pick_comp_bits_4309};
use crate::anim_data::v1::translate::LayoutCandidate;

verus! {

/// The endpoint size of the first or second choice: four floats or three floats.
pub open spec fn endpoint_size_4309(choice: int) -> int {
    if choice == 0 { 16 } else { 12 }
}

/// Candidate `t` of a 4309 curve: endpoint size choice `t / 9` and padding `4 * (t % 9)`
/// after the endpoints. `None` when the endpoints do not start inside the curve, do not fit,
/// are misaligned or unusable, when the residuals would start at or past the end or leave a
/// length that is not a multiple of four, or when no component count fits.
pub open spec fn candidate_4309(bytes: Seq<u8>, base_offset: int, endpoint_count: int, key_count: int, endpoints_ok: Seq<bool>, t: int)
    -> Option<LayoutCandidate>
{
    let choice = t / 9;
    let elem = endpoint_size_4309(choice);
    let endpoints_end = base_offset + endpoint_count * elem;
    let ro = endpoints_end + 4 * (t % 9);
    if base_offset >= bytes.len() || endpoints_end > bytes.len() || base_offset % 4 != 0 || !endpoints_ok[choice]
        || ro >= bytes.len() || (bytes.len() - ro) % 4 != 0 {
        None
    } else {
        let payload = bytes.subrange(ro, bytes.len() as int);
        match picked_comp_bits_4309(payload, 0, key_count) {
            None => None,
            Some(cb) => {
                let (q, end) = block_qcounts_of(payload, 0, cb, key_count)->0;
                Some((ro, cb, bytes.len() - (ro + end), q, elem))
            },
        }
    }
}

/// `a` ranks before `b`: fewer bytes left, then more components, then four-float endpoints,
/// then an earlier position.
pub open spec fn ranks_before_4309(a: LayoutCandidate, b: LayoutCandidate) -> bool {
    let rank_a = if a.4 == 16 { 0int } else { 1int };
    let rank_b = if b.4 == 16 { 0int } else { 1int };
    ||| a.2 < b.2
    ||| a.2 == b.2 && a.1 > b.1
    ||| a.2 == b.2 && a.1 == b.1 && rank_a < rank_b
    ||| a.2 == b.2 && a.1 == b.1 && rank_a == rank_b && a.0 < b.0
}

/// The best of the first `n` candidates, the earliest on a tie, and whether the search of the
/// current endpoint size has stopped: it stops after a candidate that leaves at most 16 bytes.
pub open spec fn search_4309(bytes: Seq<u8>, base_offset: int, endpoint_count: int, key_count: int, endpoints_ok: Seq<bool>, n: int)
    -> (Option<LayoutCandidate>, bool)
    decreases n,
{
    if n <= 0 {
        (None, false)
    } else {
        let (best, stopped_before) = search_4309(bytes, base_offset, endpoint_count, key_count, endpoints_ok, n - 1);
        let stopped = if (n - 1) % 9 == 0 { false } else { stopped_before };
        if stopped {
            (best, true)
        } else {
            match candidate_4309(bytes, base_offset, endpoint_count, key_count, endpoints_ok, n - 1) {
                None => (best, false),
                Some(c) => {
                    let next = match best {
                        None => Some(c),
                        Some(b) => if ranks_before_4309(c, b) { Some(c) } else { best },
                    };
                    (next, c.2 <= 16)
                },
            }
        }
    }
}

/// Computes candidate `t` of a 4309 curve.
fn layout_candidate_4309(bytes: &[u8], base_offset: usize, endpoint_count: usize, key_count: usize, endpoints_ok: [bool; 2], t: usize)
    -> (r: Option<(usize, usize, usize, Vec<usize>, usize)>)
    requires
        t < 18,
        base_offset + endpoint_count * 16 + 32 <= usize::MAX,
    ensures
        r matches Some((ro, cb, slack, q, elem)) ==> candidate_4309(bytes@, base_offset as int, endpoint_count as int,
            key_count as int, endpoints_ok@, t as int) == Some((ro as int, cb as nat, slack as int, q@, elem as int)),
        r is None ==> candidate_4309(bytes@, base_offset as int, endpoint_count as int, key_count as int, endpoints_ok@, t as int) is None,
{
    assert(bytes@.len() == bytes.len());
    let choice = t / 9;
    let elem: usize = if choice == 0 { 16 } else { 12 };
    assert(endpoint_count * elem <= endpoint_count * 16) by (nonlinear_arith)
        requires elem <= 16;
    let endpoints_end = base_offset + endpoint_count * elem;
    let residual_off = endpoints_end + 4 * (t % 9);
    if base_offset >= bytes.len() || endpoints_end > bytes.len() || base_offset % 4 != 0 || !endpoints_ok[choice]
        || residual_off >= bytes.len() || (bytes.len() - residual_off) % 4 != 0 {
        return None;
    }
    let payload = slice_subrange(bytes, residual_off, bytes.len());
    match try_pick_comp_bits_4309(payload, 0, key_count) {
        Err(_) => None,
        Ok((comp_bits, q_counts, end_off)) => Some((residual_off, comp_bits, bytes.len() - (residual_off + end_off), q_counts, elem)),
    }
}

/// Finds the layout of a 4309 rotation curve whose endpoints start at `base_offset`.
/// `endpoints_ok` says for each endpoint size, four or three floats, whether the endpoints
/// could be read as usable values. For each usable size, paddings of 0 to 32 bytes in steps of
/// four are tried in order, each with the component count picked for the residuals after it,
/// until one leaves at most 16 bytes. The layout that leaves the fewest bytes wins, then the
/// one with more components, then four-float endpoints, then the earliest residual position,
/// then the first found. Returns the endpoint size, the residual position, the component
/// count and the residual sizes of the blocks.
pub fn infer_4309_layout(bytes: &[u8], base_offset: usize, endpoint_count: usize, key_count: usize, endpoints_ok: [bool; 2])
    -> (r: Result<(usize, usize, usize, Vec<usize>), Error>)
    requires
        base_offset + endpoint_count * 16 + 32 <= usize::MAX,
    ensures
        r matches Ok((elem, ro, cb, q)) ==> (search_4309(bytes@, base_offset as int, endpoint_count as int, key_count as int,
            endpoints_ok@, 18).0 matches Some(c) && c.0 == ro && c.1 == cb && c.3 == q@ && c.4 == elem),
        r is Err ==> search_4309(bytes@, base_offset as int, endpoint_count as int, key_count as int, endpoints_ok@, 18).0 is None
            && (r matches Err(Error::InvalidData)),
{
    let mut best: Option<(usize, usize, usize, Vec<usize>, usize)> = None;
    let mut stopped = false;
    let mut t: usize = 0;
    while t < 18
        invariant
            t <= 18,
            base_offset + endpoint_count * 16 + 32 <= usize::MAX,
            stopped == search_4309(bytes@, base_offset as int, endpoint_count as int, key_count as int, endpoints_ok@, t as int).1,
            best matches Some((ro, cb, slack, q, elem)) ==> search_4309(bytes@, base_offset as int, endpoint_count as int,
                key_count as int, endpoints_ok@, t as int).0 == Some((ro as int, cb as nat, slack as int, q@, elem as int)),
            best is None ==> search_4309(bytes@, base_offset as int, endpoint_count as int, key_count as int, endpoints_ok@, t as int).0 is None,
        decreases 18 - t,
    {
        if t % 9 == 0 {
            stopped = false;
        }
        if !stopped {
            let candidate = layout_candidate_4309(bytes, base_offset, endpoint_count, key_count, endpoints_ok, t);
            match candidate {
                None => {},
                Some(c) => {
                    let rank_c: usize = if c.4 == 16 { 0 } else { 1 };
                    let replace = match &best {
                        None => true,
                        Some(b) => {
                            let rank_b: usize = if b.4 == 16 { 0 } else { 1 };
                            c.2 < b.2 || (c.2 == b.2 && c.1 > b.1) || (c.2 == b.2 && c.1 == b.1 && rank_c < rank_b)
                                || (c.2 == b.2 && c.1 == b.1 && rank_c == rank_b && c.0 < b.0)
                        },
                    };
                    stopped = c.2 <= 16;
                    if replace {
                        best = Some(c);
                    }
                },
            }
        }
        t = t + 1;
    }
    match best {
        Some((ro, cb, slack, q, elem)) => Ok((elem, ro, cb, q)),
        None => Err(Error::InvalidData),
    }
}

} // verus!
