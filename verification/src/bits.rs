//! Bit-level views of byte sequences (bit `k` of a sequence is bit `k % 8`
//! of byte `k / 8`, least significant first) and the lemmas relating them
//! to the byte operations used by the packer.

use vstd::prelude::*;

verus! {

/// Bit `k` (0 = least significant) of the byte `b`.
pub open spec fn byte_bit(b: u8, k: u8) -> bool {
    (b >> k) & 1u8 == 1u8
}

/// Bit `k` of the little-endian bit string `s`; bits past the end are clear.
pub open spec fn bit_of(s: Seq<u8>, k: int) -> bool {
    0 <= k < 8 * s.len() && byte_bit(s[k / 8], (k % 8) as u8)
}

/// The byte whose bits, from least to most significant, are the arguments.
pub open spec fn mk_byte(b0: bool, b1: bool, b2: bool, b3: bool, b4: bool, b5: bool, b6: bool, b7: bool) -> u8 {
    (if b0 { 1u8 } else { 0u8 }) | (if b1 { 2u8 } else { 0u8 }) | (if b2 { 4u8 } else { 0u8 }) | (if b3 {
        8u8
    } else {
        0u8
    }) | (if b4 { 16u8 } else { 0u8 }) | (if b5 { 32u8 } else { 0u8 }) | (if b6 { 64u8 } else { 0u8 }) | (
    if b7 {
        128u8
    } else {
        0u8
    })
}

/// The byte at index `b` of a bit string given by the predicate `f` on bit indices.
pub open spec fn byte_from(f: spec_fn(int) -> bool, b: int) -> u8 {
    mk_byte(
        f(8 * b),
        f(8 * b + 1),
        f(8 * b + 2),
        f(8 * b + 3),
        f(8 * b + 4),
        f(8 * b + 5),
        f(8 * b + 6),
        f(8 * b + 7),
    )
}

/// The `n`-byte bit string whose bits are given by `f`.
pub open spec fn bytes_from(f: spec_fn(int) -> bool, n: nat) -> Seq<u8> {
    Seq::new(n, |b: int| byte_from(f, b))
}

pub proof fn lemma_mk_byte_bits(b0: bool, b1: bool, b2: bool, b3: bool, b4: bool, b5: bool, b6: bool, b7: bool)
    ensures
        byte_bit(mk_byte(b0, b1, b2, b3, b4, b5, b6, b7), 0) == b0,
        byte_bit(mk_byte(b0, b1, b2, b3, b4, b5, b6, b7), 1) == b1,
        byte_bit(mk_byte(b0, b1, b2, b3, b4, b5, b6, b7), 2) == b2,
        byte_bit(mk_byte(b0, b1, b2, b3, b4, b5, b6, b7), 3) == b3,
        byte_bit(mk_byte(b0, b1, b2, b3, b4, b5, b6, b7), 4) == b4,
        byte_bit(mk_byte(b0, b1, b2, b3, b4, b5, b6, b7), 5) == b5,
        byte_bit(mk_byte(b0, b1, b2, b3, b4, b5, b6, b7), 6) == b6,
        byte_bit(mk_byte(b0, b1, b2, b3, b4, b5, b6, b7), 7) == b7,
{
    assert(byte_bit(mk_byte(b0, b1, b2, b3, b4, b5, b6, b7), 0) == b0 && byte_bit(
        mk_byte(b0, b1, b2, b3, b4, b5, b6, b7),
        1,
    ) == b1 && byte_bit(mk_byte(b0, b1, b2, b3, b4, b5, b6, b7), 2) == b2 && byte_bit(
        mk_byte(b0, b1, b2, b3, b4, b5, b6, b7),
        3,
    ) == b3 && byte_bit(mk_byte(b0, b1, b2, b3, b4, b5, b6, b7), 4) == b4 && byte_bit(
        mk_byte(b0, b1, b2, b3, b4, b5, b6, b7),
        5,
    ) == b5 && byte_bit(mk_byte(b0, b1, b2, b3, b4, b5, b6, b7), 6) == b6 && byte_bit(
        mk_byte(b0, b1, b2, b3, b4, b5, b6, b7),
        7,
    ) == b7) by (bit_vector);
}

/// A byte is determined by its eight bits.
pub proof fn lemma_byte_ext(a: u8, b: u8)
    requires
        byte_bit(a, 0) == byte_bit(b, 0),
        byte_bit(a, 1) == byte_bit(b, 1),
        byte_bit(a, 2) == byte_bit(b, 2),
        byte_bit(a, 3) == byte_bit(b, 3),
        byte_bit(a, 4) == byte_bit(b, 4),
        byte_bit(a, 5) == byte_bit(b, 5),
        byte_bit(a, 6) == byte_bit(b, 6),
        byte_bit(a, 7) == byte_bit(b, 7),
    ensures
        a == b,
{
    assert(a == b) by (bit_vector)
        requires
            ((a >> 0u8) & 1u8 == 1u8) == ((b >> 0u8) & 1u8 == 1u8),
            ((a >> 1u8) & 1u8 == 1u8) == ((b >> 1u8) & 1u8 == 1u8),
            ((a >> 2u8) & 1u8 == 1u8) == ((b >> 2u8) & 1u8 == 1u8),
            ((a >> 3u8) & 1u8 == 1u8) == ((b >> 3u8) & 1u8 == 1u8),
            ((a >> 4u8) & 1u8 == 1u8) == ((b >> 4u8) & 1u8 == 1u8),
            ((a >> 5u8) & 1u8 == 1u8) == ((b >> 5u8) & 1u8 == 1u8),
            ((a >> 6u8) & 1u8 == 1u8) == ((b >> 6u8) & 1u8 == 1u8),
            ((a >> 7u8) & 1u8 == 1u8) == ((b >> 7u8) & 1u8 == 1u8),
    ;
}

/// Two byte sequences of the same length with the same bits are equal.
pub proof fn lemma_bits_ext(a: Seq<u8>, b: Seq<u8>)
    requires
        a.len() == b.len(),
        forall|k: int| 0 <= k < 8 * a.len() ==> bit_of(a, k) == bit_of(b, k),
    ensures
        a == b,
{
    assert forall|i: int| 0 <= i < a.len() implies a[i] == b[i] by {
        assert(bit_of(a, 8 * i) == bit_of(b, 8 * i));
        assert(bit_of(a, 8 * i + 1) == bit_of(b, 8 * i + 1));
        assert(bit_of(a, 8 * i + 2) == bit_of(b, 8 * i + 2));
        assert(bit_of(a, 8 * i + 3) == bit_of(b, 8 * i + 3));
        assert(bit_of(a, 8 * i + 4) == bit_of(b, 8 * i + 4));
        assert(bit_of(a, 8 * i + 5) == bit_of(b, 8 * i + 5));
        assert(bit_of(a, 8 * i + 6) == bit_of(b, 8 * i + 6));
        assert(bit_of(a, 8 * i + 7) == bit_of(b, 8 * i + 7));
        lemma_byte_ext(a[i], b[i]);
    }
    assert(a =~= b);
}

/// The bits of a sequence built by `bytes_from` are those of the predicate.
pub proof fn lemma_bytes_from_bits(f: spec_fn(int) -> bool, n: nat, k: int)
    requires
        0 <= k < 8 * n,
    ensures
        bit_of(bytes_from(f, n), k) == f(k),
{
    let b = k / 8;
    let r = k % 8;
    lemma_mk_byte_bits(
        f(8 * b),
        f(8 * b + 1),
        f(8 * b + 2),
        f(8 * b + 3),
        f(8 * b + 4),
        f(8 * b + 5),
        f(8 * b + 6),
        f(8 * b + 7),
    );
    assert(k == 8 * b + r);
}

/// Setting bit `k` of `x` to `bit` (by OR) leaves the other bits unchanged.
pub proof fn lemma_or_bit(x: u8, bit: u8, k: u8, m: u8)
    requires
        bit <= 1,
        k < 8,
        m < 8,
    ensures
        byte_bit(x | (bit << k), m) == if m == k {
            byte_bit(x, m) || bit == 1
        } else {
            byte_bit(x, m)
        },
{
    assert(((x | (bit << k)) >> m) & 1u8 == 1u8 <==> (if m == k {
        (x >> m) & 1u8 == 1u8 || bit == 1
    } else {
        (x >> m) & 1u8 == 1u8
    })) by (bit_vector)
        requires
            bit <= 1,
            k < 8,
            m < 8,
    ;
}

/// Clearing bit `k` of `x` and then setting it when `vb == 1`.
pub proof fn lemma_assign_bit(x: u8, vb: u8, k: u8, m: u8)
    requires
        k < 8,
        m < 8,
    ensures
        byte_bit(
            if vb == 1 {
                (x & !(1u8 << k)) | (1u8 << k)
            } else {
                x & !(1u8 << k)
            },
            m,
        ) == if m == k {
            vb == 1
        } else {
            byte_bit(x, m)
        },
{
    let y = x & !(1u8 << k);
    let z = y | (1u8 << k);
    assert((y >> m) & 1u8 == 1u8 <==> (m != k && (x >> m) & 1u8 == 1u8)) by (bit_vector)
        requires
            y == x & !(1u8 << k),
            k < 8,
            m < 8,
    ;
    assert((z >> m) & 1u8 == 1u8 <==> (m == k || (x >> m) & 1u8 == 1u8)) by (bit_vector)
        requires
            z == (x & !(1u8 << k)) | (1u8 << k),
            k < 8,
            m < 8,
    ;
}

/// The value `(b >> k) & 1` is 0 or 1 and is 1 exactly when bit `k` is set.
pub proof fn lemma_extract_bit(b: u8, k: u8)
    requires
        k < 8,
    ensures
        (b >> k) & 1u8 <= 1,
        ((b >> k) & 1u8 == 1) == byte_bit(b, k),
{
    assert((b >> k) & 1u8 <= 1) by (bit_vector);
}

} // verus!
