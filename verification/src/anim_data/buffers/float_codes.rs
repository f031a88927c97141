//! The bit layout of compressed float tracks of version 2.0 and later animations. Each
//! compressed float is stored as an integer code of its compression's bit count, which maps
//! linearly onto the compression's range; a float whose compression has no bits, or a
//! range of a single value, is not stored and takes the default value. Reading gives the
//! codes of each frame, and the callers turn codes into floats.
use vstd::prelude::*;
use crate::anim_data::bitutils::{BitReader, BitReadError, bits_value, bytes_to_bits, max_bit_count};
use crate::anim_data::compression::F32Compression;
use crate::float_bits::{f32_bits_eq, f32_bits_equal};

verus! {

/// Whether a float with compression `c` is stored: `c` has bits and a range of more than
/// one value.
pub open spec fn stores_code(c: F32Compression) -> bool {
    c.bit_count != 0 && !f32_bits_eq(c.min, c.max)
}

/// The bits of the first `j` stored floats among `plan`.
pub open spec fn plan_bits(plan: Seq<F32Compression>, j: int) -> nat
    decreases j,
{
    if j <= 0 {
        0
    } else {
        plan_bits(plan, j - 1) + plan[j - 1].spec_bit_count()
    }
}

/// The codes of one frame whose floats, compressed by `plan`, are stored from bit `start`:
/// the code of each stored float, and `None` for the others.
pub open spec fn frame_codes(bits: Seq<bool>, start: nat, plan: Seq<F32Compression>) -> Seq<Option<u32>> {
    Seq::new(plan.len(), |j: int|
        if stores_code(plan[j]) {
            Some(bits_value(bits.subrange((start + plan_bits(plan, j)) as int, (start + plan_bits(plan, j + 1)) as int)) as u32)
        } else {
            None
        })
}

/// The bits of each frame: the stored floats, then a sign bit when `sign`.
pub open spec fn frame_bits(plan: Seq<F32Compression>, sign: bool) -> nat {
    plan_bits(plan, plan.len() as int) + if sign { 1nat } else { 0nat }
}

/// The sign bit of frame `k` would be the bit after the frame's floats.
pub open spec fn sign_position(plan: Seq<F32Compression>, sign: bool, k: int) -> int {
    k * frame_bits(plan, sign) + plan_bits(plan, plan.len() as int)
}

/// The floats of the first `j` plan entries take no more bits than the first `n`.
proof fn lemma_plan_bits_monotonic(plan: Seq<F32Compression>, j: int, n: int)
    requires
        j <= n,
    ensures
        plan_bits(plan, j) <= plan_bits(plan, n),
    decreases n - j,
{
    if j < n {
        lemma_plan_bits_monotonic(plan, j, n - 1);
    }
}

/// A float's stored bits are its compression's bit count when it is stored, else none.
proof fn lemma_stored_bits(c: F32Compression)
    ensures
        c.spec_bit_count() == (if stores_code(c) { c.bit_count as nat } else { 0nat }),
{
}

/// Reads the code of one float compressed by `c`, or `None` when it is not stored.
fn read_code(reader: &mut BitReader, c: &F32Compression) -> (r: Result<Option<u32>, BitReadError>)
    requires
        c.bit_count <= 32,
        old(reader)@.1 + 32 <= usize::MAX,
    ensures
        final(reader)@.0 == old(reader)@.0,
        !stores_code(*c) ==> r == Ok::<Option<u32>, BitReadError>(None) && final(reader)@.1 == old(reader)@.1,
        stores_code(*c) && old(reader)@.1 + c.bit_count <= old(reader)@.0.len() ==> (r matches Ok(Some(v))
            && v == bits_value(old(reader)@.0.subrange(old(reader)@.1 as int, old(reader)@.1 + c.bit_count)) as u32
            && final(reader)@.1 == old(reader)@.1 + c.bit_count),
        stores_code(*c) && old(reader)@.1 + c.bit_count > old(reader)@.0.len() ==>
            r == Err::<Option<u32>, BitReadError>(BitReadError::NotEnoughBits),
{
    if c.bit_count == 0 || f32_bits_equal(c.min, c.max) {
        return Ok(None);
    }
    let value = reader.read_u32(c.bit_count as usize)?;
    Ok(Some(value))
}

/// Reads the codes of one frame compressed by `plan`, then the sign bit when `sign`
/// (`false` otherwise).
fn read_frame(reader: &mut BitReader, plan: &Vec<F32Compression>, sign: bool) -> (r: Result<(Vec<Option<u32>>, bool), BitReadError>)
    requires
        forall|j: int| 0 <= j < plan@.len() ==> (#[trigger] plan@[j]).bit_count <= 32,
        old(reader)@.1 <= old(reader)@.0.len(),
        old(reader)@.1 + frame_bits(plan@, sign) + 32 <= usize::MAX,
        sign && old(reader)@.1 + plan_bits(plan@, plan@.len() as int) <= old(reader)@.0.len()
            ==> old(reader)@.1 + plan_bits(plan@, plan@.len() as int) + 1 <= old(reader)@.0.len(),
    ensures
        final(reader)@.0 == old(reader)@.0,
        old(reader)@.1 + frame_bits(plan@, sign) <= old(reader)@.0.len() ==> (r matches Ok((codes, s))
            && codes@ == frame_codes(old(reader)@.0, old(reader)@.1, plan@)
            && s == (sign && old(reader)@.0[(old(reader)@.1 + plan_bits(plan@, plan@.len() as int)) as int])
            && final(reader)@.1 == old(reader)@.1 + frame_bits(plan@, sign)),
        old(reader)@.1 + frame_bits(plan@, sign) > old(reader)@.0.len() ==> r == Err::<(Vec<Option<u32>>, bool), BitReadError>(BitReadError::NotEnoughBits),
{
    let ghost bits = reader@.0;
    let ghost start = reader@.1;
    let ghost n = plan@.len() as int;
    proof {
        lemma_plan_bits_monotonic(plan@, 0, n);
    }
    let mut codes: Vec<Option<u32>> = Vec::new();
    let mut j: usize = 0;
    while j < plan.len()
        invariant
            n == plan@.len(),
            bits == old(reader)@.0,
            start == old(reader)@.1,
            forall|m: int| 0 <= m < plan@.len() ==> (#[trigger] plan@[m]).bit_count <= 32,
            start + frame_bits(plan@, sign) + 32 <= usize::MAX,
            j <= n,
            reader@.0 == bits,
            reader@.1 == start + plan_bits(plan@, j as int),
            reader@.1 <= bits.len(),
            codes@ =~= frame_codes(bits, start, plan@).take(j as int),
        decreases n - j,
    {
        proof {
            lemma_plan_bits_monotonic(plan@, j + 1, n);
            lemma_stored_bits(plan@[j as int]);
        }
        let code = match read_code(reader, &plan[j]) {
            Ok(c) => c,
            Err(e) => {
                proof {
                    assert(start + frame_bits(plan@, sign) > bits.len());
                }
                return Err(e);
            },
        };
        codes.push(code);
        j = j + 1;
    }
    proof {
        assert(frame_codes(bits, start, plan@).take(n) =~= frame_codes(bits, start, plan@));
    }
    let mut s = false;
    if sign {
        s = match reader.read_bit() {
            Ok(b) => b,
            Err(e) => {
                return Err(e);
            },
        };
    }
    Ok((codes, s))
}

/// The codes and sign bits of `count` frames read one after another from the start of
/// `bits`.
pub open spec fn frames_match(frames: Seq<(Seq<Option<u32>>, bool)>, bits: Seq<bool>, plan: Seq<F32Compression>, sign: bool, count: nat) -> bool {
    &&& frames.len() == count
    &&& forall|k: int| 0 <= k < count ==> {
        let start = (k * frame_bits(plan, sign)) as nat;
        &&& (#[trigger] frames[k]).0 == frame_codes(bits, start, plan)
        &&& frames[k].1 == (sign && bits[(start + plan_bits(plan, plan.len() as int)) as int])
    }
}

/// The codes and sign bits of each frame, by their views.
pub open spec fn frame_views(frames: Seq<(Vec<Option<u32>>, bool)>) -> Seq<(Seq<Option<u32>>, bool)> {
    Seq::new(frames.len(), |k: int| (frames[k].0@, frames[k].1))
}

/// Reads `count` frames from `buffer`, each the codes of the floats compressed by `plan`
/// followed by a sign bit when `sign`. Fails when the buffer ends before the last frame does.
/// The buffer must not end exactly at a frame's sign bit.
pub fn read_frames(buffer: &Vec<u8>, plan: &Vec<F32Compression>, sign: bool, count: usize) -> (r: Result<Vec<(Vec<Option<u32>>, bool)>, BitReadError>)
    requires
        buffer@.len() * 8 <= max_bit_count(),
        forall|j: int| 0 <= j < plan@.len() ==> (#[trigger] plan@[j]).bit_count <= 32,
        plan@.len() <= 16,
        sign ==> forall|k: int| 0 <= k < count ==> #[trigger] sign_position(plan@, sign, k) != bytes_to_bits(buffer@).len(),
    ensures
        count * frame_bits(plan@, sign) <= bytes_to_bits(buffer@).len() ==> (r matches Ok(frames)
            && frames_match(frame_views(frames@), bytes_to_bits(buffer@), plan@, sign, count as nat)),
        count * frame_bits(plan@, sign) > bytes_to_bits(buffer@).len() ==> r == Err::<Vec<(Vec<Option<u32>>, bool)>, BitReadError>(BitReadError::NotEnoughBits),
{
    let ghost bits = bytes_to_bits(buffer@);
    let ghost fb = frame_bits(plan@, sign);
    let ghost c = plan_bits(plan@, plan@.len() as int);
    proof {
        assert forall|j: int| 0 <= j <= plan@.len() implies plan_bits(plan@, j) <= 32 * j by {
            lemma_plan_bits_bound(plan@, j);
        }
    }
    let mut reader = BitReader::from_slice(buffer.as_slice());
    let mut frames: Vec<(Vec<Option<u32>>, bool)> = Vec::new();
    let mut k: usize = 0;
    while k < count
        invariant
            bits == bytes_to_bits(buffer@),
            bits.len() <= max_bit_count(),
            fb == frame_bits(plan@, sign),
            c == plan_bits(plan@, plan@.len() as int),
            c <= 32 * 16,
            fb <= c + 1,
            forall|j: int| 0 <= j < plan@.len() ==> (#[trigger] plan@[j]).bit_count <= 32,
            sign ==> forall|m: int| 0 <= m < count ==> #[trigger] sign_position(plan@, sign, m) != bits.len(),
            k <= count,
            k * fb <= bits.len(),
            reader@.0 == bits,
            reader@.1 == k * fb,
            frames_match(frame_views(frames@), bits, plan@, sign, k as nat),
        decreases count - k,
    {
        proof {
            if sign {
                assert(sign_position(plan@, sign, k as int) != bits.len());
                assert(sign_position(plan@, sign, k as int) == k * fb + c);
            }
        }
        let frame = match read_frame(&mut reader, plan, sign) {
            Ok(f) => f,
            Err(e) => {
                proof {
                    assert(count * fb >= (k + 1) * fb) by (nonlinear_arith)
                        requires k < count;
                    assert((k + 1) * fb == k * fb + fb) by (nonlinear_arith);
                }
                return Err(e);
            },
        };
        let ghost before = frames@;
        frames.push(frame);
        proof {
            assert((k + 1) * fb == k * fb + fb) by (nonlinear_arith);
            assert(frame_views(frames@) =~= frame_views(before).push((frame.0@, frame.1)));
        }
        k = k + 1;
    }
    Ok(frames)
}

/// The floats of the first `j` plan entries take at most 32 bits each.
proof fn lemma_plan_bits_bound(plan: Seq<F32Compression>, j: int)
    requires
        0 <= j <= plan.len(),
        forall|m: int| 0 <= m < plan.len() ==> (#[trigger] plan[m]).bit_count <= 32,
    ensures
        plan_bits(plan, j) <= 32 * j,
    decreases j,
{
    if j > 0 {
        lemma_plan_bits_bound(plan, j - 1);
        assert(plan[j - 1].bit_count <= 32);
    }
}

} // verus!
