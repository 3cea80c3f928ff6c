//! Bit counting over bytes and byte sequences.

use vstd::prelude::*;

verus! {

/// Number of set bits in a byte.
pub open spec fn popcount8(x: u8) -> nat
    decreases x,
{
    if x == 0 {
        0
    } else {
        (x % 2) as nat + popcount8(x / 2)
    }
}

/// Sum of `popcount8(a[i] ^ b[i])` over the first `n` positions.
pub open spec fn xor_popcount_prefix(a: Seq<u8>, b: Seq<u8>, n: int) -> nat
    decreases n,
{
    if n <= 0 {
        0
    } else {
        xor_popcount_prefix(a, b, n - 1) + popcount8(a[n - 1] ^ b[n - 1])
    }
}

/// Number of bit positions in which `a` and `b` differ, over the length of `a`.
pub open spec fn hamming_bits(a: Seq<u8>, b: Seq<u8>) -> nat {
    xor_popcount_prefix(a, b, a.len() as int)
}

/// A byte has at most eight set bits.
pub proof fn lemma_popcount8_le_8(x: u8)
    ensures
        popcount8(x) <= 8,
{
    reveal_with_fuel(popcount8, 9);
}

/// Each prefix sum is at most eight bits per position.
pub proof fn lemma_xor_popcount_prefix_bound(a: Seq<u8>, b: Seq<u8>, n: int)
    ensures
        xor_popcount_prefix(a, b, n) <= 8 * (if n < 0 { 0 } else { n }),
    decreases n,
{
    if n > 0 {
        lemma_xor_popcount_prefix_bound(a, b, n - 1);
        lemma_popcount8_le_8(a[n - 1] ^ b[n - 1]);
    }
}

/// Prefix sums grow with the prefix.
proof fn lemma_xor_popcount_prefix_monotone(a: Seq<u8>, b: Seq<u8>, m: int, n: int)
    requires
        m <= n,
    ensures
        xor_popcount_prefix(a, b, m) <= xor_popcount_prefix(a, b, n),
    decreases n - m,
{
    if m < n && n > 0 {
        lemma_xor_popcount_prefix_monotone(a, b, m, n - 1);
    }
}

/// Counts the set bits of a byte.
pub fn popcount_u8(x: u8) -> (r: u32)
    ensures
        r == popcount8(x),
        r <= 8,
{
    proof {
        lemma_popcount8_le_8(x);
    }
    let mut v: u8 = x;
    let mut c: u32 = 0;
    while v != 0
        invariant
            c + popcount8(v) == popcount8(x),
            popcount8(x) <= 8,
        decreases v,
    {
        c = c + (v % 2) as u32;
        v = v / 2;
    }
    c
}

/// Counts the bit positions in which two equally long byte slices differ.
pub fn xor_popcount(a: &[u8], b: &[u8]) -> (r: u32)
    requires
        a@.len() == b@.len(),
        hamming_bits(a@, b@) <= u32::MAX,
    ensures
        r == hamming_bits(a@, b@),
{
    let mut total: u32 = 0;
    let mut i: usize = 0;
    while i < a.len()
        invariant
            i <= a@.len(),
            a@.len() == b@.len(),
            hamming_bits(a@, b@) <= u32::MAX,
            total == xor_popcount_prefix(a@, b@, i as int),
        decreases a@.len() - i,
    {
        proof {
            lemma_xor_popcount_prefix_monotone(a@, b@, i as int + 1, a@.len() as int);
        }
        let c = popcount_u8(a[i] ^ b[i]);
        total = total + c;
        i = i + 1;
    }
    total
}

/// Hamming distance is symmetric.
pub proof fn lemma_hamming_symmetric(a: Seq<u8>, b: Seq<u8>)
    requires
        a.len() == b.len(),
    ensures
        hamming_bits(a, b) == hamming_bits(b, a),
{
    lemma_prefix_symmetric(a, b, a.len() as int);
}

proof fn lemma_prefix_symmetric(a: Seq<u8>, b: Seq<u8>, n: int)
    ensures
        xor_popcount_prefix(a, b, n) == xor_popcount_prefix(b, a, n),
    decreases n,
{
    if n > 0 {
        lemma_prefix_symmetric(a, b, n - 1);
        let x = a[n - 1];
        let y = b[n - 1];
        assert(x ^ y == y ^ x) by (bit_vector);
    }
}

/// A byte sequence is at Hamming distance zero from itself.
pub proof fn lemma_hamming_self_zero(a: Seq<u8>)
    ensures
        hamming_bits(a, a) == 0,
{
    lemma_prefix_self_zero(a, a.len() as int);
}

proof fn lemma_prefix_self_zero(a: Seq<u8>, n: int)
    ensures
        xor_popcount_prefix(a, a, n) == 0,
    decreases n,
{
    if n > 0 {
        lemma_prefix_self_zero(a, n - 1);
        let x = a[n - 1];
        assert(x ^ x == 0) by (bit_vector);
    }
}

/// The Hamming distance is at most eight times the byte length.
pub proof fn lemma_hamming_bound(a: Seq<u8>, b: Seq<u8>)
    ensures
        hamming_bits(a, b) <= 8 * a.len(),
{
    lemma_xor_popcount_prefix_bound(a, b, a.len() as int);
}

/// The set bits of a byte are its low bit and the set bits of the rest.
proof fn lemma_popcount8_step(x: u8)
    ensures
        popcount8(x) == (x % 2) as nat + popcount8(x / 2),
{
}

/// The set bits of `p ^ q` are at most those of `p` and those of `q` together.
proof fn lemma_popcount8_xor_le(p: u8, q: u8)
    ensures
        popcount8(p ^ q) <= popcount8(p) + popcount8(q),
    decreases p + q,
{
    let r = p ^ q;
    if p == 0 && q == 0 {
        assert(r == 0) by (bit_vector)
            requires
                r == p ^ q,
                p == 0,
                q == 0,
        ;
    } else {
        assert(r / 2 == (p / 2) ^ (q / 2)) by (bit_vector)
            requires
                r == p ^ q,
        ;
        assert(r % 2 <= p % 2 + q % 2) by (bit_vector)
            requires
                r == p ^ q,
        ;
        lemma_popcount8_xor_le(p / 2, q / 2);
        lemma_popcount8_step(r);
        lemma_popcount8_step(p);
        lemma_popcount8_step(q);
    }
}

proof fn lemma_prefix_triangle(a: Seq<u8>, b: Seq<u8>, c: Seq<u8>, n: int)
    ensures
        xor_popcount_prefix(a, c, n) <= xor_popcount_prefix(a, b, n) + xor_popcount_prefix(b, c, n),
    decreases n,
{
    if n > 0 {
        lemma_prefix_triangle(a, b, c, n - 1);
        let x = a[n - 1];
        let y = b[n - 1];
        let z = c[n - 1];
        assert(x ^ z == (x ^ y) ^ (y ^ z)) by (bit_vector);
        lemma_popcount8_xor_le(x ^ y, y ^ z);
    }
}

/// Hamming distance obeys the triangle inequality: going from `a` to `c`
/// through `b` never takes fewer differing bits than going directly.
pub proof fn lemma_hamming_triangle(a: Seq<u8>, b: Seq<u8>, c: Seq<u8>)
    requires
        a.len() == b.len(),
        b.len() == c.len(),
    ensures
        hamming_bits(a, c) <= hamming_bits(a, b) + hamming_bits(b, c),
{
    lemma_prefix_triangle(a, b, c, a.len() as int);
}

/// The byte holding bits `start .. start + i` of `d` (bit `k` of the byte is
/// `d[start + k]`; positions past the end of `d` are 0).
pub open spec fn pack_byte(d: Seq<bool>, start: int, i: int) -> u8
    decreases i,
{
    if i <= 0 {
        0
    } else {
        let prev = pack_byte(d, start, i - 1);
        if 0 <= start + i - 1 < d.len() && d[start + i - 1] {
            prev | (1u8 << ((i - 1) as u8))
        } else {
            prev
        }
    }
}

/// Bits packed eight per byte, least significant bit first.
pub open spec fn packed_bits(d: Seq<bool>) -> Seq<u8> {
    Seq::new(((d.len() + 7) / 8) as nat, |b: int| pack_byte(d, 8 * b, 8))
}

/// Bit `i` of a packed byte sequence (0 past its end).
pub open spec fn bit_of(bytes: Seq<u8>, i: int) -> bool {
    i / 8 < bytes.len() && (bytes[i / 8] >> ((i % 8) as u8)) & 1u8 == 1u8
}

/// The first `count` bits of a packed byte sequence.
pub open spec fn unpacked_bits(bytes: Seq<u8>, count: int) -> Seq<bool> {
    Seq::new(count as nat, |i: int| bit_of(bytes, i))
}

proof fn lemma_or_bit(x: u8, m: u8, j: u8)
    requires
        m < 8,
        j < 8,
    ensures
        ((x | (1u8 << m)) >> j) & 1u8 == (if j == m { 1u8 } else { (x >> j) & 1u8 }),
{
    assert(((x | (1u8 << m)) >> j) & 1u8 == (if j == m { 1u8 } else { (x >> j) & 1u8 }))
        by (bit_vector)
        requires
            m < 8,
            j < 8,
    ;
}

/// Bit `j` of `pack_byte(d, start, i)` is `d[start + j]` for `j < i`, else 0.
pub proof fn lemma_pack_byte_bit(d: Seq<bool>, start: int, i: int, j: int)
    requires
        0 <= i <= 8,
        0 <= j < 8,
    ensures
        (pack_byte(d, start, i) >> (j as u8)) & 1u8 == (if j < i && 0 <= start + j < d.len()
            && d[start + j] {
            1u8
        } else {
            0u8
        }),
    decreases i,
{
    if i == 0 {
        let jj = j as u8;
        assert((0u8 >> jj) & 1u8 == 0u8) by (bit_vector);
    } else {
        lemma_pack_byte_bit(d, start, i - 1, j);
        let prev = pack_byte(d, start, i - 1);
        if 0 <= start + i - 1 < d.len() && d[start + i - 1] {
            lemma_or_bit(prev, (i - 1) as u8, j as u8);
        }
    }
}

/// Unpacking packed bits gives the bits back.
pub proof fn lemma_unpack_pack(d: Seq<bool>)
    ensures
        unpacked_bits(packed_bits(d), d.len() as int) == d,
{
    let p = packed_bits(d);
    assert forall|i: int| 0 <= i < d.len() implies #[trigger] unpacked_bits(p, d.len() as int)[i]
        == d[i] by {
        let b = i / 8;
        let j = i % 8;
        assert(b < p.len());
        lemma_pack_byte_bit(d, 8 * b, 8, j);
        assert(8 * b + j == i);
    }
    assert(unpacked_bits(p, d.len() as int) =~= d);
}

/// Packs one group of eight bits (`bits[k]` is bit `start + k` of `d`).
pub(crate) fn pack_group(Ghost(d): Ghost<Seq<bool>>, start: usize, bits: &[bool]) -> (byte: u8)
    requires
        bits@.len() == 8,
        forall|k: int| 0 <= k < 8 ==> #[trigger] bits@[k] == (0 <= start + k < d.len() && d[start + k]),
    ensures
        byte == pack_byte(d, start as int, 8),
{
    let mut byte: u8 = 0;
    let mut k: usize = 0;
    while k < 8
        invariant
            k <= 8,
            bits@.len() == 8,
            forall|q: int| 0 <= q < 8 ==> #[trigger] bits@[q] == (0 <= start + q < d.len() && d[start + q]),
            byte == pack_byte(d, start as int, k as int),
        decreases 8 - k,
    {
        if bits[k] {
            byte = byte | (1u8 << (k as u8));
        }
        k = k + 1;
    }
    byte
}

} // verus!

verus! {

/// Packing `n` bits takes `ceil(n / 8)` bytes.
pub proof fn lemma_packed_len(d: Seq<bool>)
    ensures
        packed_bits(d).len() == (d.len() + 7) / 8,
{
}

} // verus!
