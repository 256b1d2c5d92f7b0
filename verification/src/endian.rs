//! Little-endian conversions between unsigned integers and byte sequences.

use vstd::prelude::*;
use vstd::arithmetic::div_mod::{lemma_mod_breakdown, lemma_div_denominator, lemma_fundamental_div_mod};
use vstd::arithmetic::mul::{lemma_mul_strictly_positive, lemma_mul_inequality};

verus! {

/// `256` to the power `n`.
pub open spec fn pow256(n: nat) -> nat
    decreases n,
{
    if n == 0 {
        1
    } else {
        256 * pow256((n - 1) as nat)
    }
}

/// The unsigned number that the bytes `s` encode in little-endian order.
pub open spec fn le_value(s: Seq<u8>) -> nat
    decreases s.len(),
{
    if s.len() == 0 {
        0
    } else {
        s[0] as nat + 256 * le_value(s.drop_first())
    }
}

/// The `n` low bytes of `v` in little-endian order.
pub open spec fn le_bytes(v: nat, n: nat) -> Seq<u8>
    decreases n,
{
    if n == 0 {
        Seq::empty()
    } else {
        seq![(v % 256) as u8] + le_bytes(v / 256, (n - 1) as nat)
    }
}

pub proof fn lemma_pow256_pos(n: nat)
    ensures
        pow256(n) >= 1,
    decreases n,
{
    if n > 0 {
        lemma_pow256_pos((n - 1) as nat);
    }
}

pub proof fn lemma_pow256_values()
    ensures
        pow256(0) == 1,
        pow256(1) == 0x100,
        pow256(2) == 0x10000,
        pow256(4) == 0x1_0000_0000,
        pow256(8) == 0x1_0000_0000_0000_0000,
        pow256(16) == 0x1_0000_0000_0000_0000_0000_0000_0000_0000,
{
    reveal_with_fuel(pow256, 17);
}

pub proof fn lemma_pow256_mono(a: nat, b: nat)
    requires
        a <= b,
    ensures
        pow256(a) <= pow256(b),
    decreases b,
{
    if a < b {
        lemma_pow256_mono(a, (b - 1) as nat);
        lemma_pow256_pos((b - 1) as nat);
    }
}

pub proof fn lemma_le_bytes_len(v: nat, n: nat)
    ensures
        le_bytes(v, n).len() == n,
    decreases n,
{
    if n > 0 {
        lemma_le_bytes_len(v / 256, (n - 1) as nat);
    }
}

/// A little-endian encoding never exceeds the range of its width.
pub proof fn lemma_le_value_bound(s: Seq<u8>)
    ensures
        le_value(s) < pow256(s.len()),
    decreases s.len(),
{
    if s.len() > 0 {
        lemma_le_value_bound(s.drop_first());
    }
}

/// Encoding `v` on `n` bytes then decoding gives `v` modulo `256^n`.
pub proof fn lemma_le_value_of_bytes(v: nat, n: nat)
    ensures
        le_value(le_bytes(v, n)) == v % pow256(n),
    decreases n,
{
    lemma_le_bytes_len(v, n);
    if n > 0 {
        let rest = le_bytes(v / 256, (n - 1) as nat);
        lemma_le_value_of_bytes(v / 256, (n - 1) as nat);
        assert(le_bytes(v, n).drop_first() =~= rest);
        lemma_pow256_pos((n - 1) as nat);
        lemma_mod_breakdown(v as int, 256, pow256((n - 1) as nat) as int);
    }
}

/// Decoding then re-encoding on the same width gives back the bytes.
pub proof fn lemma_le_bytes_of_value(s: Seq<u8>)
    ensures
        le_bytes(le_value(s), s.len()) == s,
    decreases s.len(),
{
    if s.len() > 0 {
        let t = s.drop_first();
        lemma_le_bytes_of_value(t);
        let v = le_value(s);
        assert(v % 256 == s[0] as nat);
        assert(v / 256 == le_value(t));
        assert(le_bytes(v, s.len()) =~= seq![s[0]] + le_bytes(le_value(t), t.len()));
        assert(s =~= seq![s[0]] + t);
    }
}

/// Encoding on `n + 1` bytes appends the next byte to the encoding on `n` bytes.
pub proof fn lemma_le_bytes_push(v: nat, n: nat)
    ensures
        le_bytes(v, n + 1) == le_bytes(v, n).push(((v / pow256(n)) % 256) as u8),
    decreases n,
{
    if n == 0 {
        assert(le_bytes(v / 256, 0) =~= Seq::<u8>::empty());
        assert(le_bytes(v, 0) =~= Seq::<u8>::empty());
        assert(le_bytes(v, 1) =~= seq![(v % 256) as u8] + le_bytes(v / 256, 0));
        assert(pow256(0) == 1);
        assert(v / 1 == v);
        assert(le_bytes(v, 1) =~= le_bytes(v, 0).push(((v / pow256(0)) % 256) as u8));
    } else {
        let m = (n - 1) as nat;
        lemma_le_bytes_push(v / 256, m);
        lemma_pow256_pos(m);
        lemma_div_denominator(v as int, 256, pow256(m) as int);
        assert((v / 256) / pow256(m) == v / pow256(n));
        assert(le_bytes(v, n + 1) =~= seq![(v % 256) as u8] + le_bytes(v / 256, n));
        assert(le_bytes(v, n) =~= seq![(v % 256) as u8] + le_bytes(v / 256, m));
        assert(le_bytes(v, n + 1) =~= le_bytes(v, n).push(((v / pow256(n)) % 256) as u8));
    }
}

/// Values below `256^n` are unchanged by the reduction modulo `256^n`.
pub proof fn lemma_small_mod(v: nat, n: nat)
    requires
        v < pow256(n),
    ensures
        v % pow256(n) == v,
{
    vstd::arithmetic::div_mod::lemma_small_mod(v, pow256(n));
}

/// The `n` low bytes of `v`, for `n` at most 16.
pub fn u128_to_le(v: u128, n: usize) -> (out: Vec<u8>)
    requires
        n <= 16,
    ensures
        out@ == le_bytes(v as nat, n as nat),
{
    let mut out: Vec<u8> = Vec::new();
    let mut x: u128 = v;
    let mut i: usize = 0;
    proof {
        lemma_pow256_pos(0);
    }
    while i < n
        invariant
            i <= n <= 16,
            out@ == le_bytes(v as nat, i as nat),
            x as nat == v as nat / pow256(i as nat),
        decreases n - i,
    {
        proof {
            lemma_le_bytes_push(v as nat, i as nat);
            lemma_pow256_pos(i as nat);
            lemma_div_denominator(v as int, pow256(i as nat) as int, 256);
            assert(pow256((i + 1) as nat) == 256 * pow256(i as nat));
            vstd::arithmetic::mul::lemma_mul_is_commutative(256, pow256(i as nat) as int);
        }
        out.push((x % 256) as u8);
        x = x / 256;
        i = i + 1;
    }
    out
}

/// The value of at most 16 little-endian bytes.
pub fn le_to_u128(s: &[u8]) -> (v: u128)
    requires
        s@.len() <= 16,
    ensures
        v as nat == le_value(s@),
{
    let mut acc: u128 = 0;
    let mut i: usize = s.len();
    proof {
        assert(s@.skip(i as int) =~= Seq::<u8>::empty());
    }
    while i > 0
        invariant
            i <= s@.len() <= 16,
            acc as nat == le_value(s@.skip(i as int)),
        decreases i,
    {
        let ghost old_i = i;
        i = i - 1;
        proof {
            assert(s@.skip(i as int).drop_first() =~= s@.skip(old_i as int));
            lemma_le_value_bound(s@.skip(old_i as int));
            lemma_pow256_mono((s@.len() - old_i) as nat, 15);
            lemma_pow256_values();
            reveal_with_fuel(pow256, 16);
        }
        acc = (s[i] as u128) + 256 * acc;
    }
    proof {
        assert(s@.skip(0) =~= s@);
    }
    acc
}

} // verus!
