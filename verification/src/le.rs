//! Little-endian encoding of integers into byte sequences.

use vstd::bytes::{
    lemma_auto_spec_u32_to_from_le_bytes, lemma_auto_spec_u64_to_from_le_bytes,
    spec_u32_from_le_bytes, spec_u32_to_le_bytes, spec_u64_from_le_bytes, spec_u64_to_le_bytes,
    u32_from_le_bytes, u32_to_le_bytes, u64_from_le_bytes, u64_to_le_bytes,
};
use vstd::prelude::*;

verus! {

/// Little-endian encoding of a `u32`.
pub open spec fn le32(x: u32) -> Seq<u8> {
    spec_u32_to_le_bytes(x)
}

/// Little-endian encoding of a `u64`.
pub open spec fn le64(x: u64) -> Seq<u8> {
    spec_u64_to_le_bytes(x)
}

/// Little-endian encoding of a `u16`.
pub open spec fn le16(x: u16) -> Seq<u8> {
    vstd::bytes::spec_u16_to_le_bytes(x)
}

/// Concatenated little-endian encodings of a sequence of `u32`.
pub open spec fn le32s(xs: Seq<u32>) -> Seq<u8>
    decreases xs.len(),
{
    if xs.len() == 0 {
        Seq::empty()
    } else {
        le32s(xs.drop_last()) + le32(xs.last())
    }
}

/// The `u32` encoded little-endian at byte position `pos`.
pub open spec fn u32_at(b: Seq<u8>, pos: int) -> u32 {
    spec_u32_from_le_bytes(b.subrange(pos, pos + 4))
}

/// The `u64` encoded little-endian at byte position `pos`.
pub open spec fn u64_at(b: Seq<u8>, pos: int) -> u64 {
    spec_u64_from_le_bytes(b.subrange(pos, pos + 8))
}

/// The `u16` encoded little-endian at byte position `pos`.
pub open spec fn u16_at(b: Seq<u8>, pos: int) -> u16 {
    vstd::bytes::spec_u16_from_le_bytes(b.subrange(pos, pos + 2))
}

/// `n` consecutive little-endian `u32` starting at byte position `pos`.
pub open spec fn u32s_at(b: Seq<u8>, pos: int, n: int) -> Seq<u32> {
    Seq::new(n as nat, |k: int| u32_at(b, pos + 4 * k))
}

/// Encodings have fixed lengths, and decoding undoes encoding.
pub proof fn lemma_le_roundtrip()
    ensures
        forall|x: u32| #[trigger] le32(x).len() == 4 && spec_u32_from_le_bytes(le32(x)) == x,
        forall|x: u64| #[trigger] le64(x).len() == 8 && spec_u64_from_le_bytes(le64(x)) == x,
        forall|x: u16|
            #[trigger] le16(x).len() == 2 && vstd::bytes::spec_u16_from_le_bytes(le16(x)) == x,
{
    lemma_auto_spec_u32_to_from_le_bytes();
    lemma_auto_spec_u64_to_from_le_bytes();
    vstd::bytes::lemma_auto_spec_u16_to_from_le_bytes();
}

/// The encoding of `n` numbers is `4 * n` bytes long.
pub proof fn lemma_le32s_len(xs: Seq<u32>)
    ensures
        le32s(xs).len() == 4 * xs.len(),
    decreases xs.len(),
{
    lemma_le_roundtrip();
    if xs.len() > 0 {
        lemma_le32s_len(xs.drop_last());
    }
}

/// Encoding a concatenation encodes each part in turn.
pub proof fn lemma_le32s_concat(xs: Seq<u32>, ys: Seq<u32>)
    ensures
        le32s(xs + ys) == le32s(xs) + le32s(ys),
    decreases ys.len(),
{
    if ys.len() == 0 {
        assert(xs + ys =~= xs);
        assert(le32s(xs) + le32s(ys) =~= le32s(xs));
    } else {
        assert((xs + ys).drop_last() =~= xs + ys.drop_last());
        lemma_le32s_concat(xs, ys.drop_last());
        assert(le32s(xs + ys) =~= le32s(xs) + le32s(ys));
    }
}

/// A `u32` encoded after `pre` is read back at offset `pre.len()`.
pub proof fn lemma_u32_at_concat(pre: Seq<u8>, x: u32, post: Seq<u8>)
    ensures
        u32_at(pre + le32(x) + post, pre.len() as int) == x,
{
    lemma_le_roundtrip();
    assert((pre + le32(x) + post).subrange(pre.len() as int, pre.len() + 4int) =~= le32(x));
}

/// A `u64` encoded after `pre` is read back at offset `pre.len()`.
pub proof fn lemma_u64_at_concat(pre: Seq<u8>, x: u64, post: Seq<u8>)
    ensures
        u64_at(pre + le64(x) + post, pre.len() as int) == x,
{
    lemma_le_roundtrip();
    assert((pre + le64(x) + post).subrange(pre.len() as int, pre.len() + 8int) =~= le64(x));
}

/// A `u16` encoded after `pre` is read back at offset `pre.len()`.
pub proof fn lemma_u16_at_concat(pre: Seq<u8>, x: u16, post: Seq<u8>)
    ensures
        u16_at(pre + le16(x) + post, pre.len() as int) == x,
{
    lemma_le_roundtrip();
    assert((pre + le16(x) + post).subrange(pre.len() as int, pre.len() + 2int) =~= le16(x));
}

/// A sequence of `u32` encoded after `pre` is read back at offset `pre.len()`.
pub proof fn lemma_le32s_decode(pre: Seq<u8>, xs: Seq<u32>, post: Seq<u8>)
    ensures
        u32s_at(pre + le32s(xs) + post, pre.len() as int, xs.len() as int) == xs,
    decreases xs.len(),
{
    lemma_le_roundtrip();
    let b = pre + le32s(xs) + post;
    if xs.len() > 0 {
        let init = xs.drop_last();
        let last = xs.last();
        lemma_le32s_len(init);
        let post2 = le32(last) + post;
        assert(b =~= pre + le32s(init) + post2);
        lemma_le32s_decode(pre, init, post2);
        assert(b =~= (pre + le32s(init)) + le32(last) + post);
        lemma_u32_at_concat(pre + le32s(init), last, post);
        assert forall|k: int| 0 <= k < xs.len() implies #[trigger] u32s_at(
            b,
            pre.len() as int,
            xs.len() as int,
        )[k] == xs[k] by {
            if k < init.len() {
                assert(u32s_at(b, pre.len() as int, init.len() as int)[k] == init[k]);
            }
        }
        assert(u32s_at(b, pre.len() as int, xs.len() as int) =~= xs);
    } else {
        assert(u32s_at(b, pre.len() as int, 0) =~= xs);
    }
}

/// Appends the little-endian encoding of `x`.
pub fn append_u32_le(v: &mut Vec<u8>, x: u32)
    ensures
        final(v)@ == old(v)@ + le32(x),
{
    let mut t = u32_to_le_bytes(x);
    v.append(&mut t);
}

/// Appends the little-endian encoding of `x`.
pub fn append_u64_le(v: &mut Vec<u8>, x: u64)
    ensures
        final(v)@ == old(v)@ + le64(x),
{
    let mut t = u64_to_le_bytes(x);
    v.append(&mut t);
}

/// Appends the little-endian encoding of `x`.
pub fn append_u16_le(v: &mut Vec<u8>, x: u16)
    ensures
        final(v)@ == old(v)@ + le16(x),
{
    let mut t = vstd::bytes::u16_to_le_bytes(x);
    v.append(&mut t);
}

/// Appends the little-endian encodings of all `xs`.
pub fn append_u32s_le(v: &mut Vec<u8>, xs: &[u32])
    ensures
        final(v)@ == old(v)@ + le32s(xs@),
{
    let ghost start = v@;
    let mut k: usize = 0;
    while k < xs.len()
        invariant
            k <= xs@.len(),
            v@ == start + le32s(xs@.subrange(0, k as int)),
        decreases xs@.len() - k,
    {
        append_u32_le(v, xs[k]);
        proof {
            let s1 = xs@.subrange(0, k as int + 1);
            assert(s1.drop_last() =~= xs@.subrange(0, k as int));
            assert(v@ =~= start + le32s(s1));
        }
        k = k + 1;
    }
    proof {
        assert(xs@.subrange(0, xs@.len() as int) =~= xs@);
    }
}

/// Reads the little-endian `u32` at byte position `pos`.
pub fn read_u32_le(b: &[u8], pos: usize) -> (x: u32)
    requires
        pos + 4 <= b@.len(),
    ensures
        x == u32_at(b@, pos as int),
{
    let len = b.len();
    assert(pos + 4 <= len);
    u32_from_le_bytes(vstd::slice::slice_subrange(b, pos, pos + 4))
}

/// Reads the little-endian `u64` at byte position `pos`.
pub fn read_u64_le(b: &[u8], pos: usize) -> (x: u64)
    requires
        pos + 8 <= b@.len(),
    ensures
        x == u64_at(b@, pos as int),
{
    let len = b.len();
    assert(pos + 8 <= len);
    u64_from_le_bytes(vstd::slice::slice_subrange(b, pos, pos + 8))
}

/// Reads the little-endian `u16` at byte position `pos`.
pub fn read_u16_le(b: &[u8], pos: usize) -> (x: u16)
    requires
        pos + 2 <= b@.len(),
    ensures
        x == u16_at(b@, pos as int),
{
    let len = b.len();
    assert(pos + 2 <= len);
    vstd::bytes::u16_from_le_bytes(vstd::slice::slice_subrange(b, pos, pos + 2))
}

/// Reads `n` consecutive little-endian `u32` starting at byte position `pos`.
pub fn read_u32s_le(b: &[u8], pos: usize, n: usize) -> (xs: Vec<u32>)
    requires
        pos + 4 * n <= b@.len(),
    ensures
        xs@ == u32s_at(b@, pos as int, n as int),
{
    let len = b.len();
    assert(pos + 4 * n <= len);
    let mut xs: Vec<u32> = Vec::new();
    let mut k: usize = 0;
    while k < n
        invariant
            k <= n,
            pos + 4 * n <= b@.len(),
            b@.len() == len,
            xs@ == u32s_at(b@, pos as int, k as int),
        decreases n - k,
    {
        let x = read_u32_le(b, pos + 4 * k);
        xs.push(x);
        k = k + 1;
        proof {
            assert(xs@ =~= u32s_at(b@, pos as int, k as int));
        }
    }
    xs
}

} // verus!
