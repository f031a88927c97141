//! Bit-level readers and writers over byte buffers.
//!
//! Bits are numbered from the least significant bit of the first byte:
//! bit `i` is bit `i % 8` of byte `i / 8`. Multi-bit values are stored
//! little endian: the bit at the lowest position is the least significant.
use vstd::prelude::*;
use vstd::arithmetic::power2::{pow2, lemma_pow2_unfold, lemma_pow2_pos};
use vstd::arithmetic::div_mod::{lemma_breakdown, lemma_div_denominator};
use bitvec::prelude::{BitVec, Lsb0};
use bitvec::field::BitField;

verus! {

/// A growable buffer of bits stored in bytes (a `bitvec` bit vector with `u8` storage and
/// least-significant-bit-first order). Its contents are described by `bitvec_bits`.
#[verifier::external_body]
pub struct BitBuffer {
    bits: BitVec<u8, Lsb0>,
}

/// The bits held by a bit vector, in order.
pub uninterp spec fn bitvec_bits(v: BitBuffer) -> Seq<bool>;

/// The position within the first storage byte at which the bit vector's first bit is kept.
pub uninterp spec fn bitvec_head(v: BitBuffer) -> nat;

/// Whether the storage bits after the bit vector's last bit, up to the end of its last
/// storage byte, are all cleared.
pub uninterp spec fn bitvec_padding_clear(v: BitBuffer) -> bool;

/// Bit `i` of a byte buffer.
pub open spec fn byte_bit(bytes: Seq<u8>, i: int) -> bool {
    (bytes[i / 8] as nat / pow2((i % 8) as nat)) % 2 == 1
}

/// All bits of a byte buffer, least significant bit of the first byte first.
pub open spec fn bytes_to_bits(bytes: Seq<u8>) -> Seq<bool> {
    Seq::new(bytes.len() * 8, |i: int| byte_bit(bytes, i))
}

/// The unsigned value of a little-endian sequence of bits.
pub open spec fn bits_value(bits: Seq<bool>) -> nat
    decreases bits.len(),
{
    if bits.len() == 0 {
        0
    } else {
        (if bits[0] { 1nat } else { 0nat }) + 2 * bits_value(bits.drop_first())
    }
}

/// The `count` lowest bits of `value`, least significant first.
pub open spec fn low_bits(value: nat, count: nat) -> Seq<bool> {
    Seq::new(count, |k: int| (value / pow2(k as nat)) % 2 == 1)
}

/// `bits` with the positions `start..start + new_bits.len()` replaced by `new_bits`.
pub open spec fn splice_bits(bits: Seq<bool>, start: int, new_bits: Seq<bool>) -> Seq<bool> {
    bits.subrange(0, start) + new_bits + bits.subrange(start + new_bits.len(), bits.len() as int)
}

/// The largest bit count that a bit vector can hold.
pub open spec fn max_bit_count() -> int {
    (usize::MAX as int) / 8
}

/// Calls `BitVec::from_slice`, which copies the bytes into a new bit vector
/// that spans every bit of every byte, starting at bit 0 of the first byte.
/// The call panics when the bytes hold more bits than a bit vector can address.
#[verifier::external_body]
fn bitvec_from_slice(bytes: &[u8]) -> (r: BitBuffer)
    requires
        bytes@.len() * 8 <= max_bit_count(),
    ensures
        bitvec_bits(r) == bytes_to_bits(bytes@),
        bitvec_head(r) == 0,
{
    BitBuffer { bits: BitVec::from_slice(bytes) }
}

/// Calls `BitVec::len`, the number of bits held.
#[verifier::external_body]
fn bitvec_len(v: &BitBuffer) -> (r: usize)
    ensures
        r == bitvec_bits(*v).len(),
{
    v.bits.len()
}

/// Calls `BitSlice::load_le::<u8>` on the bits `start..start + count`, which loads them
/// as an unsigned little-endian value. The call panics unless `count` is in `1..=8`.
#[verifier::external_body]
fn bitvec_load_le_u8(v: &BitBuffer, start: usize, count: usize) -> (r: u8)
    requires
        1 <= count <= 8,
        start + count <= bitvec_bits(*v).len(),
    ensures
        r as nat == bits_value(bitvec_bits(*v).subrange(start as int, start + count)),
{
    v.bits[start..start + count].load_le::<u8>()
}

/// Calls `BitSlice::load_le::<u32>` on the bits `start..start + count`, which loads them
/// as an unsigned little-endian value. The call panics unless `count` is in `1..=32`.
#[verifier::external_body]
fn bitvec_load_le_u32(v: &BitBuffer, start: usize, count: usize) -> (r: u32)
    requires
        1 <= count <= 32,
        start + count <= bitvec_bits(*v).len(),
    ensures
        r as nat == bits_value(bitvec_bits(*v).subrange(start as int, start + count)),
{
    v.bits[start..start + count].load_le::<u32>()
}

/// Calls `BitSlice::get` with a single position, the bit at position `i`.
/// A bit vector holds at most `usize::MAX` bits, so a held position is below `usize::MAX`.
#[verifier::external_body]
fn bitvec_get(v: &BitBuffer, i: usize) -> (r: Option<bool>)
    ensures
        i < bitvec_bits(*v).len() ==> r == Some(bitvec_bits(*v)[i as int]),
        i >= bitvec_bits(*v).len() ==> r is None,
        r is Some ==> i < usize::MAX,
{
    v.bits.get(i).as_deref().copied()
}

/// Calls `BitSlice::store_le::<u32>` on the bits `start..start + count`, which stores the
/// `count` lowest bits of `value` there, least significant first, and leaves the other
/// storage bits as they were. The call panics unless `count` is in `1..=32`. A bit vector
/// holds at most `usize::MAX` bits.
#[verifier::external_body]
fn bitvec_store_le_u32(v: &mut BitBuffer, start: usize, count: usize, value: u32)
    requires
        1 <= count <= 32,
        start + count <= bitvec_bits(*old(v)).len(),
    ensures
        bitvec_bits(*final(v)) == splice_bits(bitvec_bits(*old(v)), start as int, low_bits(value as nat, count as nat)),
        bitvec_bits(*final(v)).len() <= usize::MAX,
        bitvec_head(*final(v)) == bitvec_head(*old(v)),
        bitvec_padding_clear(*final(v)) == bitvec_padding_clear(*old(v)),
{
    v.bits[start..start + count].store_le::<u32>(value)
}

/// Calls `BitSlice::get_mut` on position `i` and assigns `value` through the returned
/// reference, leaving the other storage bits as they were. A bit vector holds at most
/// `usize::MAX` bits.
#[verifier::external_body]
fn bitvec_set(v: &mut BitBuffer, i: usize, value: bool)
    requires
        i < bitvec_bits(*old(v)).len(),
    ensures
        bitvec_bits(*final(v)) == bitvec_bits(*old(v)).update(i as int, value),
        bitvec_bits(*final(v)).len() <= usize::MAX,
        bitvec_head(*final(v)) == bitvec_head(*old(v)),
        bitvec_padding_clear(*final(v)) == bitvec_padding_clear(*old(v)),
{
    *v.bits.get_mut(i).unwrap() = value;
}

/// Calls `BitVec::into_vec`, the storage bytes that contain the bits. Storage bits before
/// the head are left open; those after the last bit are cleared when the padding is.
#[verifier::external_body]
fn bitvec_into_vec(v: BitBuffer) -> (r: Vec<u8>)
    ensures
        r@.len() == (bitvec_head(v) + bitvec_bits(v).len() + 7) / 8,
        forall|i: int| 0 <= i < bitvec_bits(v).len() ==>
            #[trigger] byte_bit(r@, bitvec_head(v) + i) == bitvec_bits(v)[i],
        bitvec_padding_clear(v) ==> forall|i: int| bitvec_head(v) + bitvec_bits(v).len() <= i < 8 * r@.len() ==>
            !#[trigger] byte_bit(r@, i),
{
    v.bits.into_vec()
}

/// Calls `BitVec::new`, an empty bit vector without storage, so without padding bits.
#[verifier::external_body]
fn bitvec_new() -> (r: BitBuffer)
    ensures
        bitvec_bits(r) == Seq::<bool>::empty(),
        bitvec_head(r) == 0,
        bitvec_padding_clear(r),
{
    BitBuffer { bits: BitVec::new() }
}

/// Calls `BitVec::resize`, which truncates or extends the bits to `len`, filling new bits
/// with `value`. Extending reserves storage through `do_reservation`, which fills new
/// storage bytes with zeros, and writes only the new bits, so cleared padding stays cleared.
#[verifier::external_body]
fn bitvec_resize(v: &mut BitBuffer, len: usize, value: bool)
    requires
        len <= max_bit_count(),
    ensures
        len <= bitvec_bits(*old(v)).len() ==> bitvec_bits(*final(v)) == bitvec_bits(*old(v)).subrange(0, len as int),
        len > bitvec_bits(*old(v)).len() ==> bitvec_bits(*final(v)) == bitvec_bits(*old(v))
            + Seq::new((len - bitvec_bits(*old(v)).len()) as nat, |k: int| value),
        bitvec_head(*final(v)) == bitvec_head(*old(v)),
        len >= bitvec_bits(*old(v)).len() && bitvec_padding_clear(*old(v)) ==> bitvec_padding_clear(*final(v)),
{
    v.bits.resize(len, value)
}

impl BitBuffer {
    /// The bits held, in order.
    pub open spec fn spec_bits(&self) -> Seq<bool> {
        bitvec_bits(*self)
    }

    /// The position within the first storage byte at which the first bit is kept.
    pub open spec fn spec_head(&self) -> nat {
        bitvec_head(*self)
    }

    /// Whether the storage bits after the last bit, up to the end of the last storage byte,
    /// are cleared.
    pub open spec fn spec_padding_clear(&self) -> bool {
        bitvec_padding_clear(*self)
    }

    /// An empty buffer.
    pub fn new() -> (r: Self)
        ensures
            r.spec_bits() == Seq::<bool>::empty(),
            r.spec_head() == 0,
            r.spec_padding_clear(),
    {
        bitvec_new()
    }

    /// Truncates or extends the bits to `len`, filling new bits with `value`.
    pub fn resize(&mut self, len: usize, value: bool)
        requires
            len <= max_bit_count(),
        ensures
            len <= old(self).spec_bits().len() ==> final(self).spec_bits() == old(self).spec_bits().subrange(0, len as int),
            len > old(self).spec_bits().len() ==> final(self).spec_bits() == old(self).spec_bits()
                + Seq::new((len - old(self).spec_bits().len()) as nat, |k: int| value),
            final(self).spec_head() == old(self).spec_head(),
            len >= old(self).spec_bits().len() && old(self).spec_padding_clear() ==> final(self).spec_padding_clear(),
    {
        bitvec_resize(self, len, value)
    }
}

/// Errors while reading bits.
#[derive(Debug, PartialEq, Eq)]
pub enum BitReadError {
    /// Failed to read enough bits from the reader.
    NotEnoughBits,
}

/// Reads values of a given number of bits, one after another, from a buffer of bits.
pub struct BitReader {
    bits: BitBuffer,
    index: usize,
}

impl View for BitReader {
    /// The bits and the position of the next bit to read.
    type V = (Seq<bool>, nat);

    closed spec fn view(&self) -> (Seq<bool>, nat) {
        (bitvec_bits(self.bits), self.index as nat)
    }
}

impl BitReader {
    #[verifier::type_invariant]
    spec fn wf(&self) -> bool {
        self.index <= bitvec_bits(self.bits).len()
    }

    /// A reader positioned at the first bit of `bytes`.
    pub fn from_slice(bytes: &[u8]) -> (r: Self)
        requires
            bytes@.len() * 8 <= max_bit_count(),
        ensures
            r@.0 == bytes_to_bits(bytes@),
            r@.1 == 0,
    {
        BitReader { bits: bitvec_from_slice(bytes), index: 0 }
    }

    /// Reads the next `bit_count` bits as an unsigned little-endian value,
    /// or fails without moving when fewer bits remain.
    pub fn read_u8(&mut self, bit_count: usize) -> (r: Result<u8, BitReadError>)
        requires
            old(self)@.1 + bit_count <= usize::MAX,
            old(self)@.1 + bit_count <= old(self)@.0.len() ==> 1 <= bit_count <= 8,
        ensures
            final(self)@.0 == old(self)@.0,
            old(self)@.1 + bit_count <= old(self)@.0.len() ==> (r matches Ok(v)
                && v as nat == bits_value(old(self)@.0.subrange(old(self)@.1 as int, old(self)@.1 + bit_count))
                && final(self)@.1 == old(self)@.1 + bit_count),
            old(self)@.1 + bit_count > old(self)@.0.len() ==> (r matches Err(BitReadError::NotEnoughBits)
                && final(self)@.1 == old(self)@.1),
    {
        proof { use_type_invariant(&*self); }
        if self.index + bit_count > bitvec_len(&self.bits) {
            return Err(BitReadError::NotEnoughBits);
        }
        let value = bitvec_load_le_u8(&self.bits, self.index, bit_count);
        self.index = self.index + bit_count;
        Ok(value)
    }

    /// Reads the next `bit_count` bits as an unsigned little-endian value,
    /// or fails without moving when fewer bits remain.
    pub fn read_u32(&mut self, bit_count: usize) -> (r: Result<u32, BitReadError>)
        requires
            old(self)@.1 + bit_count <= usize::MAX,
            old(self)@.1 + bit_count <= old(self)@.0.len() ==> 1 <= bit_count <= 32,
        ensures
            final(self)@.0 == old(self)@.0,
            old(self)@.1 + bit_count <= old(self)@.0.len() ==> (r matches Ok(v)
                && v as nat == bits_value(old(self)@.0.subrange(old(self)@.1 as int, old(self)@.1 + bit_count))
                && final(self)@.1 == old(self)@.1 + bit_count),
            old(self)@.1 + bit_count > old(self)@.0.len() ==> (r matches Err(BitReadError::NotEnoughBits)
                && final(self)@.1 == old(self)@.1),
    {
        proof { use_type_invariant(&*self); }
        if self.index + bit_count > bitvec_len(&self.bits) {
            return Err(BitReadError::NotEnoughBits);
        }
        let value = bitvec_load_le_u32(&self.bits, self.index, bit_count);
        self.index = self.index + bit_count;
        Ok(value)
    }

    /// Reads the next bit, or fails without moving when no bits remain.
    pub fn read_bit(&mut self) -> (r: Result<bool, BitReadError>)
        ensures
            final(self)@.0 == old(self)@.0,
            old(self)@.1 < old(self)@.0.len() ==> (r matches Ok(b)
                && b == old(self)@.0[old(self)@.1 as int]
                && final(self)@.1 == old(self)@.1 + 1),
            old(self)@.1 >= old(self)@.0.len() ==> (r matches Err(BitReadError::NotEnoughBits)
                && final(self)@.1 == old(self)@.1),
    {
        proof { use_type_invariant(&*self); }
        match bitvec_get(&self.bits, self.index) {
            Some(value) => {
                self.index = self.index + 1;
                Ok(value)
            },
            None => Err(BitReadError::NotEnoughBits),
        }
    }
}

/// Writes values of a given number of bits, one after another, into a preallocated buffer of bits.
pub struct BitWriter {
    bits: BitBuffer,
    index: usize,
}

impl View for BitWriter {
    /// The bits and the position of the next bit to write.
    type V = (Seq<bool>, nat);

    closed spec fn view(&self) -> (Seq<bool>, nat) {
        (bitvec_bits(self.bits), self.index as nat)
    }
}

impl BitWriter {
    /// The storage position of the first bit.
    pub closed spec fn head(&self) -> nat {
        bitvec_head(self.bits)
    }

    /// Whether the storage bits after the last bit are cleared.
    pub closed spec fn padding_clear(&self) -> bool {
        bitvec_padding_clear(self.bits)
    }

    /// A writer positioned at the first of the given bits.
    pub fn new(bits: BitBuffer) -> (r: Self)
        ensures
            r@.0 == bitvec_bits(bits),
            r@.1 == 0,
            r.head() == bitvec_head(bits),
            r.padding_clear() == bitvec_padding_clear(bits),
    {
        BitWriter { bits, index: 0 }
    }

    /// Overwrites the next `bit_count` bits with the lowest bits of `value`, least significant first.
    pub fn write(&mut self, value: u32, bit_count: usize)
        requires
            1 <= bit_count <= 32,
            old(self)@.1 + bit_count <= old(self)@.0.len(),
        ensures
            final(self)@.0 == splice_bits(old(self)@.0, old(self)@.1 as int, low_bits(value as nat, bit_count as nat)),
            final(self)@.1 == old(self)@.1 + bit_count,
            final(self).head() == old(self).head(),
            final(self).padding_clear() == old(self).padding_clear(),
    {
        bitvec_store_le_u32(&mut self.bits, self.index, bit_count, value);
        self.index = self.index + bit_count;
    }

    /// Overwrites the next bit.
    pub fn write_bit(&mut self, value: bool)
        requires
            old(self)@.1 < old(self)@.0.len(),
        ensures
            final(self)@.0 == old(self)@.0.update(old(self)@.1 as int, value),
            final(self)@.1 == old(self)@.1 + 1,
            final(self).head() == old(self).head(),
            final(self).padding_clear() == old(self).padding_clear(),
    {
        bitvec_set(&mut self.bits, self.index, value);
        self.index = self.index + 1;
    }

    /// The storage bytes of the bits. Bytes hold the bits from the storage position `head()`
    /// on; the storage bits after the last bit are cleared when the padding is, and those
    /// before `head()` are left unspecified.
    pub fn into_bytes(self) -> (r: Vec<u8>)
        ensures
            r@.len() == (self.head() + self@.0.len() + 7) / 8,
            forall|i: int| 0 <= i < self@.0.len() ==> #[trigger] byte_bit(r@, self.head() + i) == self@.0[i],
            self.padding_clear() ==> forall|i: int| self.head() + self@.0.len() <= i < 8 * r@.len() ==> !#[trigger] byte_bit(r@, i),
    {
        bitvec_into_vec(self.bits)
    }
}

/// Reading the lowest `count` bits of a value as a little-endian number gives the value modulo `2^count`.
pub proof fn lemma_low_bits_value(value: nat, count: nat)
    ensures
        bits_value(low_bits(value, count)) == value % pow2(count),
    decreases count,
{
    lemma_pow2_pos(count);
    if count == 0 {
        assert(pow2(0) == 1) by {
            vstd::arithmetic::power2::lemma2_to64();
        }
    } else {
        let c1 = (count - 1) as nat;
        lemma_low_bits_value(value / 2, c1);
        assert forall|k: int| 0 <= k < c1 implies #[trigger] low_bits(value, count).drop_first()[k] == low_bits(value / 2, c1)[k] by {
            lemma_pow2_unfold((k + 1) as nat);
            lemma_pow2_pos(k as nat);
            lemma_div_denominator(value as int, 2, pow2(k as nat) as int);
        }
        assert(low_bits(value, count).drop_first() =~= low_bits(value / 2, c1));
        assert(pow2(0) == 1) by {
            vstd::arithmetic::power2::lemma2_to64();
        }
        lemma_pow2_unfold(count);
        lemma_pow2_pos(c1);
        lemma_breakdown(value as int, 2, pow2(c1) as int);
        let lb = low_bits(value, count);
        assert(lb[0] == ((value / pow2(0)) % 2 == 1));
        assert(value / pow2(0) == value / 1);
        assert(value / 1 == value);
        assert(lb[0] == ((value % 2) == 1));
        assert(bits_value(lb) == (if lb[0] { 1nat } else { 0nat }) + 2 * bits_value(lb.drop_first()));
        assert(bits_value(lb) == value % 2 + 2 * ((value / 2) % pow2(c1)));
        assert(value % pow2(count) == 2 * ((value / 2) % pow2(c1)) + value % 2);
    }
}

/// A value written with `count` bits and read back from the same position gives the value
/// modulo `2^count`.
pub proof fn lemma_write_then_read(bits: Seq<bool>, start: int, value: u32, count: nat)
    requires
        0 <= start,
        start + count <= bits.len(),
    ensures
        splice_bits(bits, start, low_bits(value as nat, count)).len() == bits.len(),
        bits_value(splice_bits(bits, start, low_bits(value as nat, count)).subrange(start, start + count))
            == value as nat % pow2(count),
{
    let w = splice_bits(bits, start, low_bits(value as nat, count));
    assert(w.subrange(start, start + count) =~= low_bits(value as nat, count));
    lemma_low_bits_value(value as nat, count);
}

/// Bit `k` of a byte buffer as `0` or `1`: bit `k % 8` of byte `k / 8`.
pub open spec fn shifted_bit(bytes: Seq<u8>, k: int) -> nat {
    ((bytes[k / 8] >> ((k % 8) as u8)) & 1u8) as nat
}

/// The sum of `shifted_bit(bytes, p + i) << i` over `i < n`.
pub open spec fn bit_sum(bytes: Seq<u8>, p: int, n: nat) -> nat
    decreases n,
{
    if n == 0 {
        0
    } else {
        bit_sum(bytes, p, (n - 1) as nat) + shifted_bit(bytes, p + n - 1) * pow2((n - 1) as nat)
    }
}

proof fn lemma_byte_bit_shifted(bytes: Seq<u8>, k: int)
    requires
        0 <= k < bytes.len() * 8,
    ensures
        shifted_bit(bytes, k) == (if byte_bit(bytes, k) { 1nat } else { 0nat }),
{
    let b = bytes[k / 8];
    let sh = (k % 8) as u8;
    vstd::bits::lemma_u8_shr_is_div(b, sh);
    let q = b >> sh;
    assert(q & 1u8 == q % 2) by (bit_vector);
}

proof fn lemma_bits_value_push(bits: Seq<bool>)
    requires
        bits.len() > 0,
    ensures
        bits_value(bits) == bits_value(bits.drop_last())
            + (if bits.last() { pow2((bits.len() - 1) as nat) } else { 0nat }),
    decreases bits.len(),
{
    let b0: nat = if bits[0] { 1nat } else { 0nat };
    assert(bits_value(bits) == b0 + 2 * bits_value(bits.drop_first()));
    if bits.len() == 1 {
        assert(bits_value(bits.drop_first()) == 0);
        assert(bits_value(bits.drop_last()) == 0);
        assert(bits.last() == bits[0]);
        vstd::arithmetic::power2::lemma2_to64();
    } else {
        let t = bits.drop_first();
        lemma_bits_value_push(t);
        assert(t.drop_last() =~= bits.drop_last().drop_first());
        assert(t.last() == bits.last());
        assert(bits.drop_last()[0] == bits[0]);
        assert(bits_value(bits.drop_last()) == b0 + 2 * bits_value(bits.drop_last().drop_first()));
        lemma_pow2_unfold((bits.len() - 1) as nat);
    }
}

/// Reading `n` bits at bit `p` gives the little-endian value of those bits of the bytes:
/// the sum of `((bytes[k / 8] >> (k % 8)) & 1) << (k - p)` over `p <= k < p + n`.
pub proof fn lemma_read_bits_value(bytes: Seq<u8>, p: int, n: nat)
    requires
        0 <= p,
        p + n <= bytes.len() * 8,
    ensures
        bits_value(bytes_to_bits(bytes).subrange(p, p + n)) == bit_sum(bytes, p, n),
    decreases n,
{
    if n > 0 {
        let s = bytes_to_bits(bytes).subrange(p, p + n);
        lemma_read_bits_value(bytes, p, (n - 1) as nat);
        lemma_bits_value_push(s);
        assert(s.drop_last() =~= bytes_to_bits(bytes).subrange(p, p + n - 1));
        lemma_byte_bit_shifted(bytes, p + n - 1);
    } else {
        assert(bytes_to_bits(bytes).subrange(p, p) =~= Seq::<bool>::empty());
    }
}

} // verus!
