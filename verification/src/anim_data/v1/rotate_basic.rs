//! The layouts of version 1.2 rotation streams in the 4300 and 4400 formats, which store one
//! quaternion of floats per key.
use vstd::prelude::*;
use crate::anim_data::error::Error;
use crate::anim_data::v1::common::{align_up, spec_align_up};

verus! {

/// Where the quaternions of a 4300 stream are.
#[derive(Debug, Clone, Copy, PartialEq, Eq)]
pub enum Layout4300 {
    /// One 8-bit frame index per key after the 12-byte header, then the quaternions from
    /// the given position, the next multiple of four.
    Indexed(usize),
    /// The quaternions of every frame from the given position, after a header of 12 or 16 bytes.
    Raw(usize),
}

/// The layout of a 4300 stream of `len` bytes with `frame_count` keys: every frame after a
/// 16-byte header when the stream is exactly that long, as the writer lays it out; indexed
/// keys when the frame indices and quaternions fill the stream exactly; and otherwise every
/// frame after a 16-byte header when it fits and the stream is not exactly the size of a
/// 12-byte header and the quaternions, or after a 12-byte header. `None` when the
/// quaternions do not fit.
pub open spec fn layout_4300_of(len: int, frame_count: int) -> Option<Layout4300> {
    let indexed_off = spec_align_up(12 + frame_count, 4);
    if len == 16 + frame_count * 16 {
        Some(Layout4300::Raw(16))
    } else if indexed_off <= len && indexed_off + frame_count * 16 == len {
        Some(Layout4300::Indexed(indexed_off as usize))
    } else {
        let pos = if len >= 16 + frame_count * 16 && len != 12 + frame_count * 16 { 16int } else { 12int };
        if pos + frame_count * 16 > len {
            None
        } else {
            Some(Layout4300::Raw(pos as usize))
        }
    }
}

/// Chooses the layout of a 4300 stream of `len` bytes with `frame_count` keys.
pub fn layout_4300(len: usize, frame_count: usize) -> (r: Result<Layout4300, Error>)
    requires
        20 + frame_count * 17 <= usize::MAX,
    ensures
        layout_4300_of(len as int, frame_count as int) matches Some(l) ==> r == Ok::<Layout4300, Error>(l),
        layout_4300_of(len as int, frame_count as int) is None ==> (r matches Err(Error::InvalidData)),
{
    if len == 16 + frame_count * 16 {
        return Ok(Layout4300::Raw(16));
    }
    let indexed_off = align_up(12 + frame_count, 4);
    if indexed_off <= len && indexed_off + frame_count * 16 == len {
        return Ok(Layout4300::Indexed(indexed_off));
    }
    let pos: usize = if len >= 16 + frame_count * 16 && len != 12 + frame_count * 16 { 16 } else { 12 };
    if pos + frame_count * 16 > len {
        return Err(Error::InvalidData);
    }
    Ok(Layout4300::Raw(pos))
}

/// The positions of the quaternions of a 4400 stream of `len` bytes with `frame_count`
/// frames, each with whether it stores four floats: frames are 16 bytes apart from byte 12,
/// and the last frame may store only three floats when the stream ends early. `None` when a
/// frame does not fit.
pub open spec fn frames_4400_of(len: int, frame_count: int) -> Option<Seq<(int, bool)>> {
    if 12 + frame_count * 16 <= len {
        Some(Seq::new(frame_count as nat, |i: int| (12 + 16 * i, true)))
    } else if frame_count >= 1 && 12 + (frame_count - 1) * 16 + 12 <= len {
        Some(Seq::new(frame_count as nat, |i: int| (12 + 16 * i, i + 1 < frame_count)))
    } else {
        None
    }
}

/// Finds the quaternions of a 4400 stream of `len` bytes, at least its 12-byte header, with
/// `frame_count` frames: their positions, each with whether it stores four floats.
pub fn frames_4400(len: usize, frame_count: usize) -> (r: Result<Vec<(usize, bool)>, Error>)
    requires
        12 <= len,
        12 + frame_count * 16 <= usize::MAX,
    ensures
        frames_4400_of(len as int, frame_count as int) matches Some(frames)
            ==> (r matches Ok(v) && v@.map_values(|f: (usize, bool)| (f.0 as int, f.1)) == frames),
        frames_4400_of(len as int, frame_count as int) is None ==> (r matches Err(Error::InvalidData)),
{
    let mut frames: Vec<(usize, bool)> = Vec::new();
    let mut pos: usize = 12;
    let mut i: usize = 0;
    while i < frame_count
        invariant
            i <= frame_count,
            12 + frame_count * 16 <= usize::MAX,
            pos == 12 + 16 * i,
            frames@.len() == i,
            forall|m: int| 0 <= m < i ==> (#[trigger] frames@[m]).0 == 12 + 16 * m && frames@[m].1 == (12 + 16 * m + 16 <= len),
            i > 0 ==> 12 + 16 * (i - 1) + 12 <= len,
            i > 0 && !(12 + 16 * (i - 1) + 16 <= len) ==> i == frame_count,
        decreases frame_count - i,
    {
        if pos + 16 <= len {
            frames.push((pos, true));
        } else if pos + 12 <= len && i + 1 == frame_count {
            frames.push((pos, false));
        } else {
            proof {
                assert(frames_4400_of(len as int, frame_count as int) is None) by (nonlinear_arith)
                    requires
                        pos == 12 + 16 * i,
                        i < frame_count,
                        !(pos + 16 <= len),
                        !(pos + 12 <= len && i + 1 == frame_count),
                {
                }
            }
            return Err(Error::InvalidData);
        }
        pos = pos + 16;
        i = i + 1;
    }
    proof {
        let spec_frames = frames_4400_of(len as int, frame_count as int);
        if frame_count > 0 && !(12 + 16 * (frame_count - 1) + 16 <= len) {
            assert(12 + (frame_count - 1) * 16 + 12 <= len);
            assert(!(12 + frame_count * 16 <= len));
        }
        assert(spec_frames is Some);
        assert(frames@.map_values(|f: (usize, bool)| (f.0 as int, f.1)) =~= spec_frames->0);
    }
    Ok(frames)
}


/// Where the parts of a 4308 curve are, after the 12-byte header and one 8-bit frame index
/// per key: the base scale and the two endpoint quaternions from `params`, the next multiple
/// of four, and the key data from `payload`, 36 bytes later. The key data holds a 4-bit
/// interpolation factor per key when it takes exactly two bytes per key (`nibbles`), and
/// residuals otherwise.
#[derive(Debug, Clone, Copy, PartialEq, Eq)]
pub struct Layout4308 {
    pub params: usize,
    pub payload: usize,
    pub nibbles: bool,
}

/// The layout of a 4308 curve of `len` bytes with `key_count` keys, or `None` when the
/// frame indices or the endpoints do not fit.
pub open spec fn layout_4308_of(len: int, key_count: int) -> Option<Layout4308> {
    let params = spec_align_up(12 + key_count, 4);
    if 12 + key_count > len || params + 36 > len {
        None
    } else {
        Some(Layout4308 { params: params as usize, payload: (params + 36) as usize, nibbles: len - (params + 36) == 2 * key_count })
    }
}

/// Finds the parts of a 4308 curve of `len` bytes with `key_count` keys.
pub fn layout_4308(len: usize, key_count: usize) -> (r: Result<Layout4308, Error>)
    requires
        4 * key_count + 64 <= usize::MAX,
    ensures
        layout_4308_of(len as int, key_count as int) matches Some(l) ==> r == Ok::<Layout4308, Error>(l),
        layout_4308_of(len as int, key_count as int) is None ==> (r matches Err(Error::InvalidData)),
{
    if 12 + key_count > len {
        return Err(Error::InvalidData);
    }
    let params = align_up(12 + key_count, 4);
    if params + 36 > len {
        return Err(Error::InvalidData);
    }
    let payload = params + 36;
    Ok(Layout4308 { params, payload, nibbles: len - payload == 2 * key_count })
}

/// How the frames of a 4408 curve are stored after its 48 bytes of header and endpoints.
#[derive(Debug, Clone, Copy, PartialEq, Eq)]
pub enum Payload4408 {
    /// Four 10-bit interpolation factors per frame, five bytes per frame.
    Packed,
    /// Residuals added to the interpolated endpoints.
    Residual,
}

/// The storage of a 4408 curve of `len` bytes with `frame_count` frames: packed factors
/// when the frames take exactly five bytes each, else residuals for at most 34 frames.
/// `None` when the endpoints do not fit or there are too many frames for residuals.
pub open spec fn payload_4408_of(len: int, frame_count: int) -> Option<Payload4408> {
    if 48 > len {
        None
    } else if len - 48 == 5 * frame_count {
        Some(Payload4408::Packed)
    } else if frame_count > 34 {
        None
    } else {
        Some(Payload4408::Residual)
    }
}

/// Finds how the frames of a 4408 curve of `len` bytes with `frame_count` frames are stored.
pub fn payload_4408(len: usize, frame_count: usize) -> (r: Result<Payload4408, Error>)
    requires
        5 * frame_count <= usize::MAX,
    ensures
        payload_4408_of(len as int, frame_count as int) matches Some(p) ==> r == Ok::<Payload4408, Error>(p),
        payload_4408_of(len as int, frame_count as int) is None ==> (r matches Err(Error::InvalidData)),
{
    if 48 > len {
        return Err(Error::InvalidData);
    }
    if len - 48 == 5 * frame_count {
        return Ok(Payload4408::Packed);
    }
    if frame_count > 34 {
        return Err(Error::InvalidData);
    }
    Ok(Payload4408::Residual)
}

} // verus!
