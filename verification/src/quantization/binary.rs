//! Sign-based binary quantization of 768-dimensional vectors into 96 bytes.
//!
//! Bit `i` of the output (byte `i / 8`, bit `i % 8`, least significant bit
//! first) is set exactly when component `i` of the input is greater than
//! zero. Components are given as IEEE-754 single-precision bit patterns: a
//! value is greater than zero exactly when its pattern lies in
//! `1 ..= 0x7F80_0000` (positive subnormals, normals and +infinity; NaN, both
//! zeros and negative values give 0).

use crate::bits::{bit_of, hamming_bits, lemma_pack_byte_bit, pack_byte};
use vstd::prelude::*;

verus! {

/// The dimension a binary-quantized vector has.
pub const BINARY_QUANTIZATION_DIM: usize = 768;

/// The size of a quantized vector in bytes (768 bits).
pub const QUANTIZED_VECTOR_SIZE: usize = 96;

/// Whether the single-precision value with bit pattern `bits` is greater than zero.
pub open spec fn f32_bits_positive(bits: u32) -> bool {
    0 < bits <= 0x7F80_0000
}

/// The signs (greater than zero or not) of the first `n` components.
pub open spec fn sign_bits(values: Seq<u32>, n: int) -> Seq<bool> {
    Seq::new(n as nat, |i: int| f32_bits_positive(values[i]))
}

/// The 96 bytes that hold the bits `d` (missing bits are 0).
pub open spec fn pack96(d: Seq<bool>) -> Seq<u8> {
    Seq::new(96, |b: int| pack_byte(d, 8 * b, 8))
}

/// Whether the single-precision value with bit pattern `bits` is greater than zero.
pub fn is_positive_bits(bits: u32) -> (r: bool)
    ensures
        r == f32_bits_positive(bits),
{
    bits != 0 && bits <= 0x7F80_0000
}

/// A binary-quantized vector: 768 sign bits in 96 bytes.
#[derive(Clone, Debug, PartialEq, Eq)]
pub struct QuantizedVector {
    data: [u8; 96],
}

impl QuantizedVector {
    /// The packed bytes.
    pub closed spec fn bytes(&self) -> Seq<u8> {
        self.data@
    }

    /// Creates a quantized vector from its 96 packed bytes.
    pub fn from_bytes(data: [u8; 96]) -> (q: Self)
        ensures
            q.bytes() == data@,
    {
        QuantizedVector { data }
    }

    /// The 96 packed bytes.
    pub fn data(&self) -> (d: &[u8; 96])
        ensures
            d@ == self.bytes(),
    {
        &self.data
    }

    /// The number of bit positions in which the two vectors differ.
    pub fn hamming_distance(&self, other: &Self) -> (d: u32)
        ensures
            d == hamming_bits(self.bytes(), other.bytes()),
            d <= 768,
    {
        crate::quantization::simd::hamming_distance(&self.data, &other.data)
    }
}

impl Default for QuantizedVector {
    fn default() -> (q: Self)
        ensures
            q.bytes() == Seq::new(96, |i: int| 0u8),
    {
        let q = QuantizedVector { data: [0u8; 96] };
        assert(q.data@ =~= Seq::new(96, |i: int| 0u8));
        q
    }
}

/// Stateless sign quantizer.
#[derive(Clone, Copy, Debug, Default)]
pub struct BinaryQuantizer;

impl BinaryQuantizer {
    /// Creates a quantizer.
    pub fn new() -> (q: Self) {
        BinaryQuantizer
    }

    /// Quantizes a 768-component vector given as bit patterns: bit `i` is set
    /// exactly when component `i` is greater than zero.
    pub fn quantize_bits(&self, values: &[u32]) -> (q: QuantizedVector)
        requires
            values@.len() == BINARY_QUANTIZATION_DIM,
        ensures
            q.bytes() == pack96(sign_bits(values@, 768)),
    {
        quantize_prefix(values, BINARY_QUANTIZATION_DIM)
    }

    /// Quantizes a vector of any length: components past 768 are ignored and
    /// missing components give 0 bits.
    pub fn quantize_flexible_bits(&self, values: &[u32]) -> (q: QuantizedVector)
        ensures
            q.bytes() == pack96(
                sign_bits(
                    values@,
                    if values@.len() < 768 {
                        values@.len() as int
                    } else {
                        768
                    },
                ),
            ),
    {
        let len = values.len();
        let n = if len < BINARY_QUANTIZATION_DIM {
            len
        } else {
            BINARY_QUANTIZATION_DIM
        };
        quantize_prefix(values, n)
    }
}

/// Packs the signs of the first `n` components into 96 bytes.
fn quantize_prefix(values: &[u32], n: usize) -> (q: QuantizedVector)
    requires
        n <= values@.len(),
        n <= 768,
    ensures
        q.bytes() == pack96(sign_bits(values@, n as int)),
{
    let ghost d = sign_bits(values@, n as int);
    let mut data = [0u8; 96];
    let mut b: usize = 0;
    while b < QUANTIZED_VECTOR_SIZE
        invariant
            b <= 96,
            n <= values@.len(),
            n <= 768,
            d == sign_bits(values@, n as int),
            data@.len() == 96,
            forall|q: int| 0 <= q < b ==> #[trigger] data@[q] == pack_byte(d, 8 * q, 8),
        decreases 96 - b,
    {
        let mut byte: u8 = 0;
        let mut k: usize = 0;
        while k < 8
            invariant
                k <= 8,
                b < 96,
                n <= values@.len(),
                n <= 768,
                d == sign_bits(values@, n as int),
                byte == pack_byte(d, 8 * b, k as int),
            decreases 8 - k,
        {
            let pos = 8 * b + k;
            if pos < n && is_positive_bits(values[pos]) {
                byte = byte | (1u8 << (k as u8));
            }
            k = k + 1;
        }
        data[b] = byte;
        b = b + 1;
    }
    let q = QuantizedVector { data };
    assert(q.data@ =~= pack96(d));
    q
}

/// Bit `i` of a quantized vector is the sign of component `i`.
pub proof fn lemma_quantized_bit(values: Seq<u32>, n: int, i: int)
    requires
        0 <= n <= 768,
        n <= values.len(),
        0 <= i < 768,
    ensures
        bit_of(pack96(sign_bits(values, n)), i) == (i < n && f32_bits_positive(values[i])),
{
    let d = sign_bits(values, n);
    lemma_pack_byte_bit(d, 8 * (i / 8), 8, i % 8);
    assert(8 * (i / 8) + i % 8 == i);
}

} // verus!
