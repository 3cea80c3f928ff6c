//! CRC32 checksums (through `crc32fast`) and buffer alignment checks (through `bytemuck`).

use vstd::prelude::*;

verus! {

/// One bit step of the reflected CRC-32 register: shift right, and fold in the
/// polynomial 0xEDB88320 when the bit shifted out is set.
pub open spec fn crc32_shift(c: u32) -> u32 {
    if c & 1 == 1 {
        (c >> 1) ^ 0xEDB8_8320u32
    } else {
        c >> 1
    }
}

/// The register after `k` bit steps.
pub open spec fn crc32_shifts(c: u32, k: nat) -> u32
    decreases k,
{
    if k == 0 {
        c
    } else {
        crc32_shift(crc32_shifts(c, (k - 1) as nat))
    }
}

/// The register after taking in the bytes of `data` in order, starting from
/// all ones: each byte is xored into the low bits, then eight bit steps.
#[verifier::opaque]
pub open spec fn crc32_register(data: Seq<u8>) -> u32
    decreases data.len(),
{
    if data.len() == 0 {
        0xFFFF_FFFFu32
    } else {
        crc32_shifts(crc32_register(data.drop_last()) ^ (data.last() as u32), 8)
    }
}

/// The CRC-32 (IEEE) checksum of a byte sequence: the final register,
/// inverted.
pub open spec fn crc32_of(data: Seq<u8>) -> u32 {
    !crc32_register(data)
}

/// Calls `crc32fast::hash`, which computes the CRC-32 (IEEE, reflected
/// polynomial 0xEDB88320, register starting at all ones and inverted at the
/// end) of `data`; the contract states that checksum, `crc32_of`.
#[verifier::external_body]
pub(crate) fn crc32_hash(data: &[u8]) -> (crc: u32)
    ensures
        crc == crc32_of(data@),
{
    crc32fast::hash(data)
}

/// Calls `bytemuck::try_from_bytes` for an eight-byte-aligned type on the first
/// 64 bytes of `bytes`, and reports whether it succeeded. The outcome depends on
/// the address of the buffer, so nothing is stated of it.
#[verifier::external_body]
pub(crate) fn is_aligned_8(bytes: &[u8]) -> (ok: bool)
    requires
        bytes@.len() >= 64,
{
    bytemuck::try_from_bytes::<[u64; 8]>(&bytes[..64]).is_ok()
}

/// Calls `bytemuck::try_from_bytes` for a four-byte-aligned type on the first
/// 16 bytes of `bytes`, and reports whether it succeeded. The outcome depends on
/// the address of the buffer, so nothing is stated of it.
#[verifier::external_body]
pub(crate) fn is_aligned_4(bytes: &[u8]) -> (ok: bool)
    requires
        bytes@.len() >= 16,
{
    bytemuck::try_from_bytes::<[u32; 4]>(&bytes[..16]).is_ok()
}

/// A bit step loses nothing: different registers stay different.
proof fn lemma_shift_injective(a: u32, b: u32)
    ensures
        crc32_shift(a) == crc32_shift(b) ==> a == b,
{
    assert(((if a & 1 == 1 {
        (a >> 1) ^ 0xEDB8_8320u32
    } else {
        a >> 1
    }) == (if b & 1 == 1 {
        (b >> 1) ^ 0xEDB8_8320u32
    } else {
        b >> 1
    })) ==> a == b) by (bit_vector);
}

/// Any number of bit steps loses nothing.
proof fn lemma_shifts_injective(a: u32, b: u32, k: nat)
    ensures
        crc32_shifts(a, k) == crc32_shifts(b, k) ==> a == b,
    decreases k,
{
    if k > 0 {
        lemma_shifts_injective(a, b, (k - 1) as nat);
        lemma_shift_injective(crc32_shifts(a, (k - 1) as nat), crc32_shifts(b, (k - 1) as nat));
    }
}

/// Taking in the same byte keeps different registers different, and taking
/// in different bytes makes equal registers different.
proof fn lemma_byte_step(r1: u32, r2: u32, x1: u8, x2: u8)
    requires
        r1 != r2 || x1 != x2,
        r1 != r2 ==> x1 == x2,
    ensures
        crc32_shifts(r1 ^ (x1 as u32), 8) != crc32_shifts(r2 ^ (x2 as u32), 8),
{
    let y1 = x1 as u32;
    let y2 = x2 as u32;
    assert(x1 != x2 ==> y1 != y2);
    assert((r1 != r2 && y1 == y2) || (r1 == r2 && y1 != y2) ==> r1 ^ y1 != r2 ^ y2) by (bit_vector);
    lemma_shifts_injective(r1 ^ y1, r2 ^ y2, 8);
}

proof fn lemma_register_single_change(a: Seq<u8>, p: int, x: u8)
    requires
        0 <= p < a.len(),
        x != a[p],
    ensures
        crc32_register(a.update(p, x)) != crc32_register(a),
    decreases a.len(),
{
    reveal(crc32_register);
    let b = a.update(p, x);
    let n = a.len() - 1;
    if p == n {
        assert(b.drop_last() =~= a.drop_last());
        lemma_byte_step(crc32_register(b.drop_last()), crc32_register(a.drop_last()), x, a[n]);
    } else {
        lemma_register_single_change(a.drop_last(), p, x);
        assert(b.drop_last() =~= a.drop_last().update(p, x));
        lemma_byte_step(crc32_register(b.drop_last()), crc32_register(a.drop_last()), a[n], a[n]);
    }
}

/// The checksum catches any single corrupted byte: changing one byte of the
/// data changes its CRC-32.
pub proof fn lemma_crc32_detects_byte_change(a: Seq<u8>, p: int, x: u8)
    requires
        0 <= p < a.len(),
        x != a[p],
    ensures
        crc32_of(a.update(p, x)) != crc32_of(a),
{
    let r1 = crc32_register(a.update(p, x));
    let r2 = crc32_register(a);
    lemma_register_single_change(a, p, x);
    assert(r1 != r2 ==> !r1 != !r2) by (bit_vector);
}

} // verus!
