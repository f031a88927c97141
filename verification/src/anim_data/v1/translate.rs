//! The layout of version 1.2 vector curves in the 3409 format: endpoint vectors stored as
//! three floats or three 16-bit values, padding, and the residuals of each block.
//!
//! The endpoints and residuals hold floats; this module finds where they are.
use vstd::prelude::*;
use crate::anim_data::error::Error;
use crate::anim_data::v1::common::{block_qcounts_of, block_count, compute_block_count, compute_block_qcounts, seq_sum};

verus! {

/// A candidate layout: the residual position, the component count, the bytes left after the
/// residuals, the residual sizes of the blocks and the endpoint size.
pub type LayoutCandidate = (int, nat, int, Seq<usize>, int);

/// The endpoint size of the first or second choice: three floats or three 16-bit values.
pub open spec fn endpoint_size_3409(choice: int) -> int {
    if choice == 0 { 12 } else { 8 }
}

/// The first of three, two, one and four components whose residual sizes are valid at `residual_off`,
/// with the sizes and the position after the residuals.
pub open spec fn first_comp_bits_3409(bytes: Seq<u8>, residual_off: int, key_count: int) -> Option<(nat, Seq<usize>, int)> {
    if block_qcounts_of(bytes, residual_off, 3, key_count) is Some {
        let (q, end) = block_qcounts_of(bytes, residual_off, 3, key_count)->0;
        Some((3nat, q, end))
    } else if block_qcounts_of(bytes, residual_off, 2, key_count) is Some {
        let (q, end) = block_qcounts_of(bytes, residual_off, 2, key_count)->0;
        Some((2nat, q, end))
    } else if block_qcounts_of(bytes, residual_off, 1, key_count) is Some {
        let (q, end) = block_qcounts_of(bytes, residual_off, 1, key_count)->0;
        Some((1nat, q, end))
    } else if block_qcounts_of(bytes, residual_off, 4, key_count) is Some {
        let (q, end) = block_qcounts_of(bytes, residual_off, 4, key_count)->0;
        Some((4nat, q, end))
    } else {
        None
    }
}

/// Candidate `t` of a 3409 curve: endpoint size choice `t / 9` and padding `4 * (t % 9)`
/// after the endpoints. `None` when the endpoints do not fit or are unusable, when the
/// residuals would start at or past the end, or when no component count is valid.
pub open spec fn candidate_3409(bytes: Seq<u8>, scan_start: int, endpoint_count: int, key_count: int, endpoints_ok: Seq<bool>, t: int)
    -> Option<LayoutCandidate>
{
    let choice = t / 9;
    let elem = endpoint_size_3409(choice);
    let endpoints_end = scan_start + endpoint_count * elem;
    let ro = endpoints_end + 4 * (t % 9);
    if endpoints_end > bytes.len() || !endpoints_ok[choice] || ro >= bytes.len() {
        None
    } else {
        match first_comp_bits_3409(bytes, ro, key_count) {
            Some((cb, q, end)) => Some((ro, cb, bytes.len() - end, q, elem)),
            None => None,
        }
    }
}

/// `a` ranks before `b`: fewer bytes left, then more components, then an earlier position.
pub open spec fn ranks_before_3409(a: LayoutCandidate, b: LayoutCandidate) -> bool {
    ||| a.2 < b.2
    ||| a.2 == b.2 && a.1 > b.1
    ||| a.2 == b.2 && a.1 == b.1 && a.0 < b.0
}

/// The best of the first `n` candidates, the earliest on a tie.
pub open spec fn best_3409(bytes: Seq<u8>, scan_start: int, endpoint_count: int, key_count: int, endpoints_ok: Seq<bool>, n: int)
    -> Option<LayoutCandidate>
    decreases n,
{
    if n <= 0 {
        None
    } else {
        let prev = best_3409(bytes, scan_start, endpoint_count, key_count, endpoints_ok, n - 1);
        match candidate_3409(bytes, scan_start, endpoint_count, key_count, endpoints_ok, n - 1) {
            None => prev,
            Some(c) => match prev {
                None => Some(c),
                Some(b) => if ranks_before_3409(c, b) { Some(c) } else { prev },
            },
        }
    }
}

/// Computes candidate `t` of a 3409 curve.
fn layout_candidate_3409(bytes: &[u8], scan_start: usize, endpoint_count: usize, key_count: usize, endpoints_ok: [bool; 2], t: usize)
    -> (r: Option<(usize, usize, usize, Vec<usize>, usize)>)
    requires
        t < 18,
        scan_start + endpoint_count * 12 + 32 <= usize::MAX,
    ensures
        r matches Some((ro, cb, slack, q, elem)) ==> candidate_3409(bytes@, scan_start as int, endpoint_count as int,
            key_count as int, endpoints_ok@, t as int) == Some((ro as int, cb as nat, slack as int, q@, elem as int)),
        r is None ==> candidate_3409(bytes@, scan_start as int, endpoint_count as int, key_count as int, endpoints_ok@, t as int) is None,
{
    assert(bytes@.len() == bytes.len());
    let choice = t / 9;
    let elem: usize = if choice == 0 { 12 } else { 8 };
    assert(endpoint_count * elem <= endpoint_count * 12) by (nonlinear_arith)
        requires elem <= 12;
    let endpoints_end = scan_start + endpoint_count * elem;
    let residual_off = endpoints_end + 4 * (t % 9);
    if endpoints_end > bytes.len() || !endpoints_ok[choice] || residual_off >= bytes.len() {
        return None;
    }
    let candidates: [usize; 4] = [3, 2, 1, 4];
    let mut found: Option<(usize, Vec<usize>)> = None;
    let mut k: usize = 0;
    while k < 4 && found.is_none()
        invariant
            k <= 4,
            candidates@ == seq![3usize, 2usize, 1usize, 4usize],
            residual_off <= bytes@.len(),
            found is None ==> {
                &&& k > 0 ==> block_qcounts_of(bytes@, residual_off as int, 3, key_count as int) is None
                &&& k > 1 ==> block_qcounts_of(bytes@, residual_off as int, 2, key_count as int) is None
                &&& k > 2 ==> block_qcounts_of(bytes@, residual_off as int, 1, key_count as int) is None
                &&& k > 3 ==> block_qcounts_of(bytes@, residual_off as int, 4, key_count as int) is None
            },
            found matches Some((cb, q)) ==> {
                let f = first_comp_bits_3409(bytes@, residual_off as int, key_count as int);
                let (fcb, fq, fend) = f->0;
                &&& f is Some
                &&& fcb == cb
                &&& fq == q@
                &&& residual_off + 4 * seq_sum(q@) == fend
                &&& fend <= bytes@.len()
            },
        decreases 4 - k,
    {
        let comp_bits = candidates[k];
        match compute_block_qcounts(bytes, residual_off, comp_bits, key_count) {
            Ok(q) => {
                found = Some((comp_bits, q));
            },
            Err(_) => {},
        }
        k = k + 1;
    }
    match found {
        None => None,
        Some((comp_bits, q)) => {
            let ghost f = first_comp_bits_3409(bytes@, residual_off as int, key_count as int);
            let mut sum: usize = 0;
            let mut i: usize = 0;
            while i < q.len()
                invariant
                    i <= q@.len(),
                    residual_off + 4 * seq_sum(q@) <= bytes@.len(),
                    bytes@.len() == bytes.len(),
                    sum == seq_sum(q@.take(i as int)),
                decreases q@.len() - i,
            {
                proof {
                    crate::anim_data::v1::common::lemma_seq_sum_prefix(q@, i as int);
                }
                sum = sum + q[i];
                i = i + 1;
            }
            assert(q@.take(q@.len() as int) =~= q@);
            let end_off = residual_off + 4 * sum;
            Some((residual_off, comp_bits, bytes.len() - end_off, q, elem))
        },
    }
}

/// The best of the candidate layouts of a 3409 curve whose endpoints start at `scan_start`.
fn search_3409(bytes: &[u8], scan_start: usize, endpoint_count: usize, key_count: usize, endpoints_ok: [bool; 2])
    -> (r: Option<(usize, usize, usize, Vec<usize>, usize)>)
    requires
        scan_start + endpoint_count * 12 + 32 <= usize::MAX,
    ensures
        r matches Some((ro, cb, slack, q, elem)) ==> best_3409(bytes@, scan_start as int, endpoint_count as int,
            key_count as int, endpoints_ok@, 18) == Some((ro as int, cb as nat, slack as int, q@, elem as int)),
        r is None ==> best_3409(bytes@, scan_start as int, endpoint_count as int, key_count as int, endpoints_ok@, 18) is None,
{
    let mut best: Option<(usize, usize, usize, Vec<usize>, usize)> = None;
    let mut t: usize = 0;
    while t < 18
        invariant
            t <= 18,
            scan_start + endpoint_count * 12 + 32 <= usize::MAX,
            best matches Some((ro, cb, slack, q, elem)) ==> best_3409(bytes@, scan_start as int, endpoint_count as int,
                key_count as int, endpoints_ok@, t as int) == Some((ro as int, cb as nat, slack as int, q@, elem as int)),
            best is None ==> best_3409(bytes@, scan_start as int, endpoint_count as int, key_count as int, endpoints_ok@, t as int) is None,
        decreases 18 - t,
    {
        let candidate = layout_candidate_3409(bytes, scan_start, endpoint_count, key_count, endpoints_ok, t);
        match candidate {
            None => {},
            Some(c) => {
                let replace = match &best {
                    None => true,
                    Some(b) => c.2 < b.2 || (c.2 == b.2 && c.1 > b.1) || (c.2 == b.2 && c.1 == b.1 && c.0 < b.0),
                };
                if replace {
                    best = Some(c);
                }
            },
        }
        t = t + 1;
    }
    best
}

/// Finds the layout of a 3409 curve whose endpoints start at `scan_start`. `endpoints_ok`
/// says for each endpoint size, three floats or three 16-bit values, whether the endpoints
/// could be read as usable values. For each usable size and each padding of 0 to 32 bytes in
/// steps of four, the first of three, two, one and four components with valid residual sizes
/// is taken; the layout that leaves the fewest bytes wins, then the one with more components,
/// then the earliest residual position, then the first found. Returns the endpoint size, the
/// component count, the residual position and the residual sizes of the blocks.
pub fn infer_3409_layout(bytes: &[u8], scan_start: usize, endpoint_count: usize, key_count: usize, endpoints_ok: [bool; 2])
    -> (r: Result<(usize, usize, usize, Vec<usize>), Error>)
    requires
        scan_start + endpoint_count * 12 + 32 <= usize::MAX,
    ensures
        r matches Ok((elem, cb, ro, q)) ==> (best_3409(bytes@, scan_start as int, endpoint_count as int, key_count as int,
            endpoints_ok@, 18) matches Some(c) && c.0 == ro && c.1 == cb && c.3 == q@ && c.4 == elem),
        r is Err ==> best_3409(bytes@, scan_start as int, endpoint_count as int, key_count as int, endpoints_ok@, 18) is None
            && (r matches Err(Error::InvalidData)),
{
    match search_3409(bytes, scan_start, endpoint_count, key_count, endpoints_ok) {
        Some((ro, cb, slack, q, elem)) => Ok((elem, cb, ro, q)),
        None => Err(Error::InvalidData),
    }
}

/// The layout chosen for a 3409 curve among endpoints at `0x14` and at `0x18`: the best ranked
/// of the layouts found for each, the first on a tie, with the choice of endpoint position.
pub open spec fn layout_3409(bytes: Seq<u8>, endpoint_count: int, key_count: int, ok_first: Seq<bool>, ok_second: Seq<bool>)
    -> Option<(int, LayoutCandidate)>
{
    let a = if 0x14 > bytes.len() { None } else { best_3409(bytes, 0x14, endpoint_count, key_count, ok_first, 18) };
    let b = if 0x18 > bytes.len() { None } else { best_3409(bytes, 0x18, endpoint_count, key_count, ok_second, 18) };
    match (a, b) {
        (None, None) => None,
        (Some(x), None) => Some((0x14, x)),
        (None, Some(y)) => Some((0x18, y)),
        (Some(x), Some(y)) => if ranks_before_3409(y, x) { Some((0x18, y)) } else { Some((0x14, x)) },
    }
}

/// Picks the layout of a 3409 curve with `key_count` keys and `endpoint_count` endpoints,
/// whose endpoints start at `0x14` or `0x18`. `ok_first` and `ok_second` say for each endpoint
/// position and size whether the endpoints could be read as usable values. Returns the
/// endpoint position, the endpoint size, the component count, the residual position and the
/// residual sizes of the blocks.
pub fn pick_layout_3409(bytes: &[u8], endpoint_count: usize, key_count: usize, ok_first: [bool; 2], ok_second: [bool; 2])
    -> (r: Result<(usize, usize, usize, usize, Vec<usize>), Error>)
    requires
        0x18 + endpoint_count * 12 + 32 <= usize::MAX,
    ensures
        r matches Ok((scan, elem, cb, ro, q)) ==> (layout_3409(bytes@, endpoint_count as int, key_count as int, ok_first@, ok_second@)
            matches Some((s, c)) && s == scan && c.0 == ro && c.1 == cb && c.3 == q@ && c.4 == elem),
        r is Err ==> layout_3409(bytes@, endpoint_count as int, key_count as int, ok_first@, ok_second@) is None
            && (r matches Err(Error::InvalidData)),
{
    let first = if 0x14 > bytes.len() { None } else { search_3409(bytes, 0x14, endpoint_count, key_count, ok_first) };
    let second = if 0x18 > bytes.len() { None } else { search_3409(bytes, 0x18, endpoint_count, key_count, ok_second) };
    match (first, second) {
        (None, None) => Err(Error::InvalidData),
        (Some(x), None) => Ok((0x14, x.4, x.1, x.0, x.3)),
        (None, Some(y)) => Ok((0x18, y.4, y.1, y.0, y.3)),
        (Some(x), Some(y)) => {
            if y.2 < x.2 || (y.2 == x.2 && y.1 > x.1) || (y.2 == x.2 && y.1 == x.1 && y.0 < x.0) {
                Ok((0x18, y.4, y.1, y.0, y.3))
            } else {
                Ok((0x14, x.4, x.1, x.0, x.3))
            }
        },
    }
}

/// The size of the endpoints of a 3408 curve: three floats per block boundary.
pub open spec fn endpoints_size_3408(key_count: int) -> int {
    (block_count(key_count) + 1) * 12
}

/// The smaller of two integers.
pub open spec fn min_int(a: int, b: int) -> int {
    if a <= b { a } else { b }
}

/// The last endpoint position that is tried: 64 bytes after the end of endpoints that
/// start right after the 12-byte header, or the end of the curve.
pub open spec fn scan_end_3408(len: int, key_count: int) -> int {
    min_int(12 + endpoints_size_3408(key_count) + 0x40, len)
}

/// `(eb, bso, ro)` is a layout position of a 3408 curve of `len` bytes: endpoints at `eb`
/// (from byte 12 in steps of four, up to the scan end) that fit, the base scale at `bso`
/// (0 to 16 bytes after the endpoints in steps of four, with four bytes left), and residuals
/// at `ro` before the end (4 to 128 bytes after the base scale in steps of four).
#[verifier::opaque]
pub open spec fn position_3408(len: int, key_count: int, eb: int, bso: int, ro: int) -> bool {
    let end_ep = eb + endpoints_size_3408(key_count);
    &&& 12 <= eb <= scan_end_3408(len, key_count)
    &&& (eb - 12) % 4 == 0
    &&& end_ep <= len
    &&& end_ep <= bso <= min_int(end_ep + 0x10, len - 4)
    &&& (bso - end_ep) % 4 == 0
    &&& bso + 4 <= ro <= min_int(bso + 0x80, len)
    &&& (ro - bso - 4) % 4 == 0
    &&& ro < len
}

/// The component count, residual sizes and bytes left for residuals at `ro`: the first of
/// three, two, one and four components with valid residual sizes.
#[verifier::opaque]
pub open spec fn candidate_3408(bytes: Seq<u8>, key_count: int, ro: int) -> Option<(nat, Seq<usize>, int)> {
    match first_comp_bits_3409(bytes, ro, key_count) {
        Some((cb, q, end)) => Some((cb, q, bytes.len() - end)),
        None => None,
    }
}

/// The candidate at `ro` ranks before the one at `ro2`: fewer bytes left, then more
/// components, then an earlier position.
pub open spec fn ranks_before_3408(bytes: Seq<u8>, key_count: int, ro: int, ro2: int) -> bool {
    let (cb, q, slack) = candidate_3408(bytes, key_count, ro)->0;
    let (cb2, q2, slack2) = candidate_3408(bytes, key_count, ro2)->0;
    ||| slack < slack2
    ||| slack == slack2 && cb > cb2
    ||| slack == slack2 && cb == cb2 && ro < ro2
}

/// The position `(e, b, r)` comes before the position `(eb, bso, ro)` in the search order.
pub open spec fn searched_before(e: int, b: int, r: int, eb: int, bso: int, ro: int) -> bool {
    ||| e < eb
    ||| e == eb && b < bso
    ||| e == eb && b == bso && r < ro
}

/// `best` is the best of the candidates at the positions searched before `(eb, bso, ro)`,
/// found first.
pub open spec fn best_so_far_3408(bytes: Seq<u8>, key_count: int, eb: int, bso: int, ro: int,
    best: Option<(int, int, int)>) -> bool
{
    let len = bytes.len() as int;
    match best {
        None => forall|e: int, b: int, r: int| #[trigger] position_3408(len, key_count, e, b, r)
            && searched_before(e, b, r, eb, bso, ro) ==> candidate_3408(bytes, key_count, r) is None,
        Some((be, bb, br)) => {
            &&& position_3408(len, key_count, be, bb, br)
            &&& searched_before(be, bb, br, eb, bso, ro)
            &&& candidate_3408(bytes, key_count, br) is Some
            &&& forall|e: int, b: int, r: int| #[trigger] position_3408(len, key_count, e, b, r)
                && searched_before(e, b, r, eb, bso, ro) && candidate_3408(bytes, key_count, r) is Some
                ==> !ranks_before_3408(bytes, key_count, r, br)
            &&& forall|e: int, b: int| #[trigger] position_3408(len, key_count, e, b, br)
                && searched_before(e, b, br, eb, bso, ro) ==> !searched_before(e, b, br, be, bb, br)
        },
    }
}

/// The candidate at `ro`.
fn layout_candidate_3408(bytes: &[u8], key_count: usize, residual_off: usize) -> (r: Option<(usize, Vec<usize>, usize)>)
    requires
        residual_off < bytes@.len(),
    ensures
        r matches Some((cb, q, slack)) ==> candidate_3408(bytes@, key_count as int, residual_off as int) == Some((cb as nat, q@, slack as int)),
        r is None ==> candidate_3408(bytes@, key_count as int, residual_off as int) is None,
{
    reveal(candidate_3408);
    assert(bytes@.len() == bytes.len());
    let candidates: [usize; 4] = [3, 2, 1, 4];
    let mut found: Option<(usize, Vec<usize>)> = None;
    let mut k: usize = 0;
    while k < 4 && found.is_none()
        invariant
            k <= 4,
            candidates@ == seq![3usize, 2usize, 1usize, 4usize],
            residual_off <= bytes@.len(),
            found is None ==> {
                &&& k > 0 ==> block_qcounts_of(bytes@, residual_off as int, 3, key_count as int) is None
                &&& k > 1 ==> block_qcounts_of(bytes@, residual_off as int, 2, key_count as int) is None
                &&& k > 2 ==> block_qcounts_of(bytes@, residual_off as int, 1, key_count as int) is None
                &&& k > 3 ==> block_qcounts_of(bytes@, residual_off as int, 4, key_count as int) is None
            },
            found matches Some((cb, q)) ==> {
                let f = first_comp_bits_3409(bytes@, residual_off as int, key_count as int);
                let (fcb, fq, fend) = f->0;
                &&& f is Some
                &&& fcb == cb
                &&& fq == q@
                &&& residual_off + 4 * seq_sum(q@) == fend
                &&& fend <= bytes@.len()
            },
        decreases 4 - k,
    {
        let comp_bits = candidates[k];
        match compute_block_qcounts(bytes, residual_off, comp_bits, key_count) {
            Ok(q) => {
                found = Some((comp_bits, q));
            },
            Err(_) => {},
        }
        k = k + 1;
    }
    match found {
        None => None,
        Some((comp_bits, q)) => {
            let mut sum: usize = 0;
            let mut i: usize = 0;
            while i < q.len()
                invariant
                    i <= q@.len(),
                    residual_off + 4 * seq_sum(q@) <= bytes@.len(),
                    bytes@.len() == bytes.len(),
                    sum == seq_sum(q@.take(i as int)),
                decreases q@.len() - i,
            {
                proof {
                    crate::anim_data::v1::common::lemma_seq_sum_prefix(q@, i as int);
                }
                sum = sum + q[i];
                i = i + 1;
            }
            assert(q@.take(q@.len() as int) =~= q@);
            let end_off = residual_off + 4 * sum;
            Some((comp_bits, q, bytes.len() - end_off))
        },
    }
}


/// The position of the best candidate so far.
pub open spec fn best_position(best: Option<(usize, usize, usize, usize, Vec<usize>, usize)>) -> Option<(int, int, int)> {
    match best {
        Some((eb, bso, cb, ro, q, slack)) => Some((eb as int, bso as int, ro as int)),
        None => None,
    }
}

/// The best candidate so far matches the candidate at its position.
pub open spec fn best_consistent(bytes: Seq<u8>, key_count: int, best: Option<(usize, usize, usize, usize, Vec<usize>, usize)>) -> bool {
    match best {
        Some((eb, bso, cb, ro, q, slack)) => candidate_3408(bytes, key_count, ro as int) == Some((cb as nat, q@, slack as int)),
        None => true,
    }
}

/// Considers the candidate at the position `(eb, bso, ro)`.
#[verifier::spinoff_prover]
fn consider_3408(bytes: &[u8], key_count: usize, eb: usize, bso: usize, ro: usize,
    best: &mut Option<(usize, usize, usize, usize, Vec<usize>, usize)>)
    requires
        ro < bytes@.len(),
        position_3408(bytes@.len() as int, key_count as int, eb as int, bso as int, ro as int),
        best_so_far_3408(bytes@, key_count as int, eb as int, bso as int, ro as int, best_position(*old(best))),
        best_consistent(bytes@, key_count as int, *old(best)),
    ensures
        best_so_far_3408(bytes@, key_count as int, eb as int, bso as int, ro + 4, best_position(*final(best))),
        best_consistent(bytes@, key_count as int, *final(best)),
{
    let ghost len = bytes@.len() as int;
    let ghost old_best = best_position(*best);
    match layout_candidate_3408(bytes, key_count, ro) {
        None => {
            proof {
                match old_best {
                    None => {
                        assert forall|e: int, b: int, r: int| #[trigger] position_3408(len, key_count as int, e, b, r)
                            && searched_before(e, b, r, eb as int, bso as int, ro + 4)
                            implies candidate_3408(bytes@, key_count as int, r) is None by {
                            if !searched_before(e, b, r, eb as int, bso as int, ro as int) {
                                reveal(position_3408);
                                assert(e == eb && b == bso && r == ro);
                            }
                        }
                    },
                    Some((be, bb, br)) => {
                        assert forall|e: int, b: int, r: int| #[trigger] position_3408(len, key_count as int, e, b, r)
                            && searched_before(e, b, r, eb as int, bso as int, ro + 4) && candidate_3408(bytes@, key_count as int, r) is Some
                            implies !ranks_before_3408(bytes@, key_count as int, r, br) by {
                            if !searched_before(e, b, r, eb as int, bso as int, ro as int) {
                                reveal(position_3408);
                                assert(e == eb && b == bso && r == ro);
                            }
                        }
                        assert forall|e: int, b: int| #[trigger] position_3408(len, key_count as int, e, b, br)
                            && searched_before(e, b, br, eb as int, bso as int, ro + 4)
                            implies !searched_before(e, b, br, be, bb, br) by {
                            if !searched_before(e, b, br, eb as int, bso as int, ro as int) {
                                reveal(position_3408);
                                assert(e == eb && b == bso && br == ro);
                            }
                        }
                    },
                }
            }
        },
        Some((cb, q, slack)) => {
            let replace = match best {
                None => true,
                Some(b) => slack < b.5 || (slack == b.5 && cb > b.2) || (slack == b.5 && cb == b.2 && ro < b.3),
            };
            proof {
                match old_best {
                    None => {},
                    Some((be, bb, br)) => {
                        assert(replace == ranks_before_3408(bytes@, key_count as int, ro as int, br));
                    },
                }
            }
            if replace {
                *best = Some((eb, bso, cb, ro, q, slack));
                proof {
                    assert forall|e: int, b: int, r: int| #[trigger] position_3408(len, key_count as int, e, b, r)
                        && searched_before(e, b, r, eb as int, bso as int, ro + 4) && candidate_3408(bytes@, key_count as int, r) is Some
                        implies !ranks_before_3408(bytes@, key_count as int, r, ro as int) by {
                        if searched_before(e, b, r, eb as int, bso as int, ro as int) {
                            match old_best {
                                None => {},
                                Some((be, bb, br)) => {
                                    assert(!ranks_before_3408(bytes@, key_count as int, r, br));
                                },
                            }
                        } else {
                            reveal(position_3408);
                            assert(r == ro);
                        }
                    }
                    assert forall|e: int, b: int| #[trigger] position_3408(len, key_count as int, e, b, ro as int)
                        && searched_before(e, b, ro as int, eb as int, bso as int, ro + 4)
                        implies !searched_before(e, b, ro as int, eb as int, bso as int, ro as int) by {
                        if searched_before(e, b, ro as int, eb as int, bso as int, ro as int) {
                            match old_best {
                                None => {},
                                Some((be, bb, br)) => {
                                    assert(!ranks_before_3408(bytes@, key_count as int, ro as int, br));
                                },
                            }
                        }
                    }
                }
            } else {
                proof {
                    let (be, bb, br) = old_best->0;
                    assert forall|e: int, b: int, r: int| #[trigger] position_3408(len, key_count as int, e, b, r)
                        && searched_before(e, b, r, eb as int, bso as int, ro + 4) && candidate_3408(bytes@, key_count as int, r) is Some
                        implies !ranks_before_3408(bytes@, key_count as int, r, br) by {
                        if !searched_before(e, b, r, eb as int, bso as int, ro as int) {
                            reveal(position_3408);
                            assert(r == ro);
                        }
                    }
                    assert forall|e: int, b: int| #[trigger] position_3408(len, key_count as int, e, b, br)
                        && searched_before(e, b, br, eb as int, bso as int, ro + 4)
                        implies !searched_before(e, b, br, be, bb, br) by {
                        if !searched_before(e, b, br, eb as int, bso as int, ro as int) {
                            reveal(position_3408);
                            assert(e == eb && b == bso);
                        }
                    }
                }
            }
        },
    }
}


/// The best candidate found before a cursor is still the best before a later cursor when no
/// position lies between them.
proof fn lemma_best_so_far_skip(bytes: Seq<u8>, key_count: int, eb: int, bso: int, ro: int, eb2: int, bso2: int, ro2: int,
    best: Option<(int, int, int)>)
    requires
        best_so_far_3408(bytes, key_count, eb, bso, ro, best),
        !searched_before(eb2, bso2, ro2, eb, bso, ro),
        forall|e: int, b: int, r: int| #[trigger] position_3408(bytes.len() as int, key_count, e, b, r)
            && searched_before(e, b, r, eb2, bso2, ro2) ==> searched_before(e, b, r, eb, bso, ro),
    ensures
        best_so_far_3408(bytes, key_count, eb2, bso2, ro2, best),
{
}

/// Finds the layout of a 3408 curve with `key_count` keys. Endpoints of three floats per block
/// boundary are tried from byte 12 in steps of four up to 64 bytes past their first
/// position, the base scale from 0 to 16 bytes after the endpoints, and the residuals from 4
/// to 128 bytes after the base scale, all in steps of four. At each residual position the
/// first of three, two, one and four components with valid residual sizes is taken. The
/// layout that leaves the fewest bytes wins, then the one with more components, then the
/// earliest residual position, then the first found. Returns the endpoint position, the base
/// scale position, the component count, the residual position and the residual sizes of the
/// blocks.
#[verifier::rlimit(60)]
#[verifier::spinoff_prover]
pub fn infer_3408_layout(bytes: &[u8], key_count: usize) -> (r: Result<(usize, usize, usize, usize, Vec<usize>), Error>)
    requires
        key_count <= u32::MAX,
        bytes@.len() + endpoints_size_3408(key_count as int) + 0x200 <= usize::MAX,
    ensures
        r matches Ok((eb, bso, cb, ro, q)) ==> {
            let len = bytes@.len() as int;
            &&& position_3408(len, key_count as int, eb as int, bso as int, ro as int)
            &&& candidate_3408(bytes@, key_count as int, ro as int) matches Some((c, qq, slack)) && c == cb && qq == q@
            &&& forall|e: int, b: int, r: int| #[trigger] position_3408(len, key_count as int, e, b, r)
                && candidate_3408(bytes@, key_count as int, r) is Some ==> !ranks_before_3408(bytes@, key_count as int, r, ro as int)
            &&& forall|e: int, b: int| #[trigger] position_3408(len, key_count as int, e, b, ro as int)
                ==> !searched_before(e, b, ro as int, eb as int, bso as int, ro as int)
        },
        r is Err ==> (r matches Err(Error::InvalidData)) && forall|e: int, b: int, r: int|
            #[trigger] position_3408(bytes@.len() as int, key_count as int, e, b, r) ==> candidate_3408(bytes@, key_count as int, r) is None,
{
    let ghost kc = key_count as int;
    let len = bytes.len();
    assert(bytes@.len() == len);
    let endpoint_count = compute_block_count(key_count) + 1;
    let endpoints_size = endpoint_count * 12;
    assert(endpoints_size == endpoints_size_3408(kc));
    let scan_limit = 12 + endpoints_size + 0x40;
    let scan_end = if scan_limit <= len { scan_limit } else { len };
    assert(scan_end == scan_end_3408(len as int, kc));
    let mut best: Option<(usize, usize, usize, usize, Vec<usize>, usize)> = None;
    let mut eb: usize = 12;
    proof {
        assert forall|e: int, b: int, r: int| #[trigger] position_3408(len as int, kc, e, b, r)
            && searched_before(e, b, r, 12, 0, 0) implies candidate_3408(bytes@, kc, r) is None by {
            reveal(position_3408);
        }
    }
    while eb <= scan_end
        invariant
            12 <= eb <= scan_end + 16,
            (eb - 12) % 4 == 0,
            len == bytes@.len(),
            kc == key_count,
            endpoints_size == endpoints_size_3408(kc),
            scan_end == scan_end_3408(len as int, kc),
            len + endpoints_size + 0x200 <= usize::MAX,
            best_so_far_3408(bytes@, kc, eb as int, 0, 0, best_position(best)),
            best_consistent(bytes@, kc, best),
        decreases scan_end + 16 - eb,
    {
        if eb + endpoints_size <= len {
            let end_ep = eb + endpoints_size;
            let low_limit = if len >= 4 { len - 4 } else { 0 };
            let hi = if end_ep + 0x10 <= low_limit { end_ep + 0x10 } else { low_limit };
            let mut bso = end_ep;
            proof {
                assert forall|e: int, b: int, r: int| #[trigger] position_3408(len as int, kc, e, b, r)
                    && searched_before(e, b, r, eb as int, bso as int, 0) implies searched_before(e, b, r, eb as int, 0, 0) by {
                    reveal(position_3408);
                }
                lemma_best_so_far_skip(bytes@, kc, eb as int, 0, 0, eb as int, bso as int, 0, best_position(best));
            }
            while bso <= hi
                invariant
                    12 <= eb <= scan_end,
                    (eb - 12) % 4 == 0,
                    end_ep == eb + endpoints_size,
                    end_ep <= len,
                    end_ep <= bso <= hi + 4,
                    (bso - end_ep) % 4 == 0,
                    hi == min_int(end_ep + 0x10, len - 4) || (len < 4 && hi == 0),
                    hi <= end_ep + 0x10,
                    len == bytes@.len(),
                    kc == key_count,
                    endpoints_size == endpoints_size_3408(kc),
                    scan_end == scan_end_3408(len as int, kc),
                    len + endpoints_size + 0x200 <= usize::MAX,
                    best_so_far_3408(bytes@, kc, eb as int, bso as int, 0, best_position(best)),
                    best_consistent(bytes@, kc, best),
                decreases hi + 4 - bso,
            {
                let hi2 = if bso + 0x80 <= len { bso + 0x80 } else { len };
                let mut ro = bso + 4;
                proof {
                    assert forall|e: int, b: int, r: int| #[trigger] position_3408(len as int, kc, e, b, r)
                        && searched_before(e, b, r, eb as int, bso as int, ro as int) implies searched_before(e, b, r, eb as int, bso as int, 0) by {
                        reveal(position_3408);
                    }
                    lemma_best_so_far_skip(bytes@, kc, eb as int, bso as int, 0, eb as int, bso as int, ro as int, best_position(best));
                }
                while ro <= hi2
                    invariant
                        12 <= eb <= scan_end,
                        (eb - 12) % 4 == 0,
                        end_ep == eb + endpoints_size,
                        end_ep <= len,
                        end_ep <= bso <= hi,
                        (bso - end_ep) % 4 == 0,
                        hi == min_int(end_ep + 0x10, len - 4) || (len < 4 && hi == 0),
                        hi <= end_ep + 0x10,
                        hi2 == min_int(bso + 0x80, len as int),
                        bso + 4 <= ro <= hi2 + 4,
                        (ro - bso - 4) % 4 == 0,
                        len == bytes@.len(),
                        kc == key_count,
                        endpoints_size == endpoints_size_3408(kc),
                        scan_end == scan_end_3408(len as int, kc),
                        len + endpoints_size + 0x200 <= usize::MAX,
                        best_so_far_3408(bytes@, kc, eb as int, bso as int, ro as int, best_position(best)),
                        best_consistent(bytes@, kc, best),
                    decreases hi2 + 4 - ro,
                {
                    if ro < len {
                        proof {
                            reveal(position_3408);
                            assert(position_3408(len as int, kc, eb as int, bso as int, ro as int));
                        }
                        consider_3408(bytes, key_count, eb, bso, ro, &mut best);
                    } else {
                        proof {
                            assert forall|e: int, b: int, r: int| #[trigger] position_3408(len as int, kc, e, b, r)
                                && searched_before(e, b, r, eb as int, bso as int, ro + 4)
                                implies searched_before(e, b, r, eb as int, bso as int, ro as int) by {
                                reveal(position_3408);
                            }
                            lemma_best_so_far_skip(bytes@, kc, eb as int, bso as int, ro as int, eb as int, bso as int, ro + 4, best_position(best));
                        }
                    }
                    ro = ro + 4;
                }
                proof {
                    assert forall|e: int, b: int, r: int| #[trigger] position_3408(len as int, kc, e, b, r)
                        && searched_before(e, b, r, eb as int, bso + 4, 0) implies searched_before(e, b, r, eb as int, bso as int, ro as int) by {
                        reveal(position_3408);
                    }
                    lemma_best_so_far_skip(bytes@, kc, eb as int, bso as int, ro as int, eb as int, bso + 4, 0, best_position(best));
                }
                bso = bso + 4;
            }
            proof {
                assert forall|e: int, b: int, r: int| #[trigger] position_3408(len as int, kc, e, b, r)
                    && searched_before(e, b, r, eb + 4, 0, 0) implies searched_before(e, b, r, eb as int, bso as int, 0) by {
                    reveal(position_3408);
                }
                lemma_best_so_far_skip(bytes@, kc, eb as int, bso as int, 0, eb + 4, 0, 0, best_position(best));
            }
        } else {
            proof {
                assert forall|e: int, b: int, r: int| #[trigger] position_3408(len as int, kc, e, b, r)
                    && searched_before(e, b, r, eb + 4, 0, 0) implies searched_before(e, b, r, eb as int, 0, 0) by {
                    reveal(position_3408);
                }
                lemma_best_so_far_skip(bytes@, kc, eb as int, 0, 0, eb + 4, 0, 0, best_position(best));
            }
        }
        eb = eb + 4;
    }
    proof {
        assert forall|e: int, b: int, r: int| #[trigger] position_3408(len as int, kc, e, b, r)
            implies searched_before(e, b, r, eb as int, 0, 0) by {
            reveal(position_3408);
        }
    }
    match best {
        Some((eb_best, bso_best, cb, ro, q, slack)) => Ok((eb_best, bso_best, cb, ro, q)),
        None => Err(Error::InvalidData),
    }
}

} // verus!
