//! The `bitvec` crate's `BitVec`, as the deletion bitmaps use it, and the
//! allocation sizes that memory accounting reads.

use bitvec::order::Lsb0;
use bitvec::vec::BitVec;
use crate::bits::unpacked_bits;
use vstd::prelude::*;

verus! {

/// A deletion bitmap: an owned `bitvec::vec::BitVec` (least-significant bit
/// first, `usize` storage). Verus refuses the declaration of `BitVec` itself
/// (its bounds name traits of `bitvec`), so the bit-vector is held in this
/// opaque wrapper and reached only through the functions below.
#[verifier::external_body]
#[derive(Debug)]
pub struct Bits {
    inner: BitVec<usize, Lsb0>,
}

/// The bits a bitmap holds, in order.
pub uninterp spec fn bits_of(v: Bits) -> Seq<bool>;

/// Number of `true` entries in a sequence of bits.
pub open spec fn count_true(s: Seq<bool>) -> nat
    decreases s.len(),
{
    if s.len() == 0 {
        0
    } else {
        count_true(s.drop_last()) + (if s.last() { 1nat } else { 0nat })
    }
}

/// Number of `false` entries in a sequence of bits.
pub open spec fn count_false(s: Seq<bool>) -> nat
    decreases s.len(),
{
    if s.len() == 0 {
        0
    } else {
        count_false(s.drop_last()) + (if s.last() { 0nat } else { 1nat })
    }
}

/// Largest bit length that `BitVec` can encode on this machine.
pub open spec fn bitvec_max_len() -> int {
    (usize::MAX >> 3) as int
}

/// The bit-vector limit is an eighth of the address range, so it is positive.
pub proof fn lemma_bitvec_max_len()
    ensures
        bitvec_max_len() == usize::MAX / 8,
        bitvec_max_len() > 0,
{
    let mx: usize = usize::MAX;
    assert(mx >> 3 == mx / 8) by (bit_vector);
}

/// Calls `BitVec::new`, which makes an empty bit-vector.
#[verifier::external_body]
pub(crate) fn bitvec_new() -> (v: Bits)
    ensures
        bits_of(v) == Seq::<bool>::empty(),
{
    Bits { inner: BitVec::new() }
}

/// Calls `BitVec::with_capacity`, which makes an empty bit-vector with room for
/// `capacity` bits.
#[verifier::external_body]
pub(crate) fn bitvec_with_capacity(capacity: usize) -> (v: Bits)
    requires
        capacity <= bitvec_max_len(),
    ensures
        bits_of(v) == Seq::<bool>::empty(),
{
    Bits { inner: BitVec::with_capacity(capacity) }
}

/// Calls `BitVec::len`, the number of bits held.
#[verifier::external_body]
pub(crate) fn bitvec_len(v: &Bits) -> (n: usize)
    ensures
        n == bits_of(*v).len(),
{
    v.inner.len()
}

/// Calls `BitVec::push`, which appends one bit.
#[verifier::external_body]
pub(crate) fn bitvec_push(v: &mut Bits, bit: bool)
    requires
        bits_of(*old(v)).len() < bitvec_max_len(),
    ensures
        bits_of(*final(v)) == bits_of(*old(v)).push(bit),
{
    v.inner.push(bit)
}

/// Reads the bit at `index` (indexing of `BitSlice`).
#[verifier::external_body]
pub(crate) fn bitvec_get(v: &Bits, index: usize) -> (bit: bool)
    requires
        index < bits_of(*v).len(),
    ensures
        bit == bits_of(*v)[index as int],
{
    v.inner[index]
}

/// Calls `BitSlice::set`, which overwrites the bit at `index`.
#[verifier::external_body]
pub(crate) fn bitvec_set(v: &mut Bits, index: usize, bit: bool)
    requires
        index < bits_of(*old(v)).len(),
    ensures
        bits_of(*final(v)) == bits_of(*old(v)).update(index as int, bit),
{
    v.inner.set(index, bit)
}

/// Calls `BitSlice::count_ones`, the number of bits set to 1.
#[verifier::external_body]
pub(crate) fn bitvec_count_ones(v: &Bits) -> (n: usize)
    ensures
        n == count_true(bits_of(*v)),
{
    v.inner.count_ones()
}

/// Calls `BitSlice::count_zeros`, the number of bits cleared to 0.
#[verifier::external_body]
pub(crate) fn bitvec_count_zeros(v: &Bits) -> (n: usize)
    ensures
        n == count_false(bits_of(*v)),
{
    v.inner.count_zeros()
}

/// Calls `BitVec::capacity`, the number of bits that fit without reallocation.
/// Only that it is at least the length is stated: the rest depends on the
/// allocator.
#[verifier::external_body]
pub(crate) fn bitvec_capacity(v: &Bits) -> (n: usize)
    ensures
        n >= bits_of(*v).len(),
{
    v.inner.capacity()
}

/// Calls `Vec::capacity`. Only that it is at least the length is stated: the
/// rest depends on the allocator.
#[verifier::external_body]
pub(crate) fn vec_capacity<T>(v: &Vec<T>) -> (n: usize)
    ensures
        n >= v@.len(),
{
    v.capacity()
}

/// A sequence of bits has as many `true` and `false` entries as it is long.
pub proof fn lemma_count_true_false(s: Seq<bool>)
    ensures
        count_true(s) + count_false(s) == s.len(),
    decreases s.len(),
{
    if s.len() > 0 {
        lemma_count_true_false(s.drop_last());
    }
}

/// Pushing a bit adds it to the counts.
pub proof fn lemma_count_push(s: Seq<bool>, b: bool)
    ensures
        count_true(s.push(b)) == count_true(s) + (if b { 1nat } else { 0nat }),
        count_false(s.push(b)) == count_false(s) + (if b { 0nat } else { 1nat }),
{
    assert(s.push(b).drop_last() =~= s);
}

/// Setting a `false` bit to `true` moves one from the false count to the true count.
pub proof fn lemma_count_update(s: Seq<bool>, i: int, b: bool)
    requires
        0 <= i < s.len(),
    ensures
        count_true(s.update(i, b)) == count_true(s) - (if s[i] { 1int } else { 0int }) + (if b {
            1int
        } else {
            0int
        }),
        count_false(s.update(i, b)) == count_false(s) - (if s[i] { 0int } else { 1int }) + (if b {
            0int
        } else {
            1int
        }),
    decreases s.len(),
{
    if i == s.len() - 1 {
        assert(s.update(i, b).drop_last() =~= s.drop_last());
    } else {
        lemma_count_update(s.drop_last(), i, b);
        assert(s.update(i, b).drop_last() =~= s.drop_last().update(i, b));
    }
}

/// Calls `BitVec::<u8, Lsb0>::from_slice`, which views bytes as bits (bit `i`
/// is bit `i % 8` of byte `i / 8`, least significant first), and reads the
/// bits out. `from_slice` panics when the bit count exceeds what a bit-vector
/// can encode, which `requires` leaves out.
#[verifier::external_body]
pub(crate) fn bits_from_bytes(bytes: &[u8]) -> (r: Vec<bool>)
    requires
        8 * bytes@.len() <= bitvec_max_len(),
    ensures
        r@ == unpacked_bits(bytes@, 8 * bytes@.len() as int),
{
    BitVec::<u8, Lsb0>::from_slice(bytes).iter().by_vals().collect()
}

/// Calls `BitVec::shrink_to_fit`, which releases spare capacity and keeps the
/// bits.
#[verifier::external_body]
pub(crate) fn bitvec_shrink_to_fit(v: &mut Bits)
    ensures
        bits_of(*final(v)) == bits_of(*old(v)),
{
    v.inner.shrink_to_fit()
}

/// Calls `Vec::shrink_to_fit`, which releases spare capacity and keeps the
/// elements.
#[verifier::external_body]
pub(crate) fn vec_shrink_to_fit<T>(v: &mut Vec<T>)
    ensures
        final(v)@ == old(v)@,
{
    v.shrink_to_fit()
}

} // verus!
