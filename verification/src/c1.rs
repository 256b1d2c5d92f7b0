//! LE legacy pairing cryptographic toolbox: the security function `e`, the
//! random address hash `ah`, the key generation function `s1` and the confirm
//! value generation function `c1`.
//!
//! Byte arrays hold values most significant byte first, as the Bluetooth Core
//! specification writes them. The `_rev` variants take and give values in the
//! order in which they travel over the air (least significant byte first).
use aes::Aes128;
use cipher::generic_array::GenericArray;
use cipher::{BlockEncrypt, KeyInit};
use vstd::prelude::*;

verus! {

/// AES-128 (FIPS 197) encryption of one 16-byte block under a 16-byte key.
pub uninterp spec fn aes128_encrypt(key: Seq<u8>, block: Seq<u8>) -> Seq<u8>;

/// Calls `aes::Aes128` (through `cipher`'s `KeyInit::new` and
/// `BlockEncrypt::encrypt_block`) on one block. The contract only names the
/// result: it is the AES-128 encryption of `plaintext` under `key`, which
/// depends on these two arguments alone; what that block is, is not stated.
#[verifier::external_body]
fn aes128_encrypt_block(key: &[u8; 16], plaintext: &[u8; 16]) -> (out: [u8; 16])
    ensures
        out@ == aes128_encrypt(key@, plaintext@),
{
    let cipher = Aes128::new(GenericArray::from_slice(key));
    let mut block = GenericArray::clone_from_slice(plaintext);
    cipher.encrypt_block(&mut block);
    block.into()
}

/// Byte-wise exclusive or of two sequences of equal length.
pub open spec fn xor_seq(a: Seq<u8>, b: Seq<u8>) -> Seq<u8> {
    Seq::new(a.len(), |i: int| a[i] ^ b[i])
}

/// The security function `e`.
pub open spec fn spec_e(key: Seq<u8>, plaintext: Seq<u8>) -> Seq<u8> {
    aes128_encrypt(key, plaintext)
}

/// `ah(k, r) = e(k, r')` where `r'` is `r` followed by thirteen zero bytes.
pub open spec fn spec_ah(k: Seq<u8>, r: Seq<u8>) -> Seq<u8> {
    spec_e(k, r + Seq::new(13, |i: int| 0u8))
}

/// `s1(k, r1, r2) = e(k, r1' || r2')` where `r1'` and `r2'` are the least
/// significant halves (the last eight bytes) of `r1` and `r2`.
pub open spec fn spec_s1(k: Seq<u8>, r1: Seq<u8>, r2: Seq<u8>) -> Seq<u8> {
    spec_e(k, r1.subrange(8, 16) + r2.subrange(8, 16))
}

/// `p1 = pres || preq || rat' || iat'`, where `rat'` and `iat'` keep the
/// lowest bit of the address types.
pub open spec fn c1_p1(pres: Seq<u8>, preq: Seq<u8>, iat: u8, rat: u8) -> Seq<u8> {
    pres + preq + seq![rat & 0x01, iat & 0x01]
}

/// `p2 = padding || ia || ra`, with four zero bytes of padding.
pub open spec fn c1_p2(ia: Seq<u8>, ra: Seq<u8>) -> Seq<u8> {
    seq![0u8, 0u8, 0u8, 0u8] + ia + ra
}

/// `c1(k, r, preq, pres, iat, ia, rat, ra) = e(k, e(k, r XOR p1) XOR p2)`.
pub open spec fn spec_c1(
    k: Seq<u8>,
    r: Seq<u8>,
    pres: Seq<u8>,
    preq: Seq<u8>,
    iat: u8,
    ia: Seq<u8>,
    rat: u8,
    ra: Seq<u8>,
) -> Seq<u8> {
    spec_e(k, xor_seq(spec_e(k, xor_seq(r, c1_p1(pres, preq, iat, rat))), c1_p2(ia, ra)))
}

/// `c1` on values in over-the-air byte order.
pub open spec fn spec_c1_rev(
    k: Seq<u8>,
    r: Seq<u8>,
    pres: Seq<u8>,
    preq: Seq<u8>,
    iat: u8,
    ia: Seq<u8>,
    rat: u8,
    ra: Seq<u8>,
) -> Seq<u8> {
    spec_c1(
        k.reverse(),
        r.reverse(),
        pres.reverse(),
        preq.reverse(),
        iat,
        ia.reverse(),
        rat,
        ra.reverse(),
    ).reverse()
}

/// `s1` on values in over-the-air byte order.
pub open spec fn spec_s1_rev(k: Seq<u8>, r1: Seq<u8>, r2: Seq<u8>) -> Seq<u8> {
    spec_s1(k.reverse(), r1.reverse(), r2.reverse()).reverse()
}

/// XOR two 16-byte arrays
pub fn xor_128(a: &[u8; 16], b: &[u8; 16]) -> (out: [u8; 16])
    ensures
        out@ == xor_seq(a@, b@),
{
    let mut out = [0u8; 16];
    for i in 0..16
        invariant
            out@.len() == 16,
            forall|j: int| 0 <= j < i ==> #[trigger] out@[j] == (a@[j] ^ b@[j]),
    {
        out[i] = a[i] ^ b[i];
    }
    assert(out@ =~= xor_seq(a@, b@));
    out
}

/// Security function e
pub fn e(key: &[u8; 16], plaintext: &[u8; 16]) -> (out: [u8; 16])
    ensures
        out@ == spec_e(key@, plaintext@),
{
    aes128_encrypt_block(key, plaintext)
}

/// Random address hash function ah
pub fn ah(k: &[u8; 16], r: &[u8; 3]) -> (out: [u8; 16])
    ensures
        out@ == spec_ah(k@, r@),
{
    let r_prime: [u8; 16] = [r[0], r[1], r[2], 0, 0, 0, 0, 0, 0, 0, 0, 0, 0, 0, 0, 0];
    assert(r_prime@ =~= r@ + Seq::new(13, |i: int| 0u8));
    e(k, &r_prime)
}

/// Key generation function s1 for LE legacy pairing
pub fn s1(k: &[u8; 16], r1: &[u8; 16], r2: &[u8; 16]) -> (out: [u8; 16])
    ensures
        out@ == spec_s1(k@, r1@, r2@),
{
    let r_prime: [u8; 16] = [
        r1[8],
        r1[9],
        r1[10],
        r1[11],
        r1[12],
        r1[13],
        r1[14],
        r1[15],
        r2[8],
        r2[9],
        r2[10],
        r2[11],
        r2[12],
        r2[13],
        r2[14],
        r2[15],
    ];
    assert(r_prime@ =~= r1@.subrange(8, 16) + r2@.subrange(8, 16));
    e(k, &r_prime)
}

/// The block `p1` of `c1`: `pres`, then `preq`, then the lowest bits of
/// the responding and initiating address types.
pub fn c1_p1_bytes(pres: &[u8; 7], preq: &[u8; 7], iat: u8, rat: u8) -> (p1: [u8; 16])
    ensures
        p1@ == c1_p1(pres@, preq@, iat, rat),
{
    let p1: [u8; 16] = [
        pres[0],
        pres[1],
        pres[2],
        pres[3],
        pres[4],
        pres[5],
        pres[6],
        preq[0],
        preq[1],
        preq[2],
        preq[3],
        preq[4],
        preq[5],
        preq[6],
        rat & 0x01,
        iat & 0x01,
    ];
    assert(p1@ =~= c1_p1(pres@, preq@, iat, rat));
    p1
}

/// The block `p2` of `c1`: four zero bytes of padding, then `ia`, then `ra`.
pub fn c1_p2_bytes(ia: &[u8; 6], ra: &[u8; 6]) -> (p2: [u8; 16])
    ensures
        p2@ == c1_p2(ia@, ra@),
{
    let p2: [u8; 16] = [
        0,
        0,
        0,
        0,
        ia[0],
        ia[1],
        ia[2],
        ia[3],
        ia[4],
        ia[5],
        ra[0],
        ra[1],
        ra[2],
        ra[3],
        ra[4],
        ra[5],
    ];
    assert(p2@ =~= c1_p2(ia@, ra@));
    p2
}

/// Confirm value generation function `c1` for LE legacy pairing: `k` is the
/// 128-bit key (all zeros in Just Works), `r` the 128-bit random value,
/// `pres` and `preq` the 56-bit pairing response and request, `iat` and
/// `rat` the address types (their lowest bit counts), `ia` and `ra` the
/// 48-bit initiating and responding addresses.
pub fn c1(
    k: &[u8; 16],
    r: &[u8; 16],
    pres: &[u8; 7],
    preq: &[u8; 7],
    iat: u8,
    ia: &[u8; 6],
    rat: u8,
    ra: &[u8; 6],
) -> (out: [u8; 16])
    ensures
        out@ == spec_c1(k@, r@, pres@, preq@, iat, ia@, rat, ra@),
{
    let p1 = c1_p1_bytes(pres, preq, iat, rat);
    let p2 = c1_p2_bytes(ia, ra);
    let inner = e(k, &xor_128(r, &p1));
    e(k, &xor_128(&inner, &p2))
}

/// A copy of the bytes of `a` in reverse order.
fn reversed<const N: usize>(a: &[u8; N]) -> (out: [u8; N])
    ensures
        out@ == a@.reverse(),
{
    let mut out = *a;
    let mut i: usize = 0;
    while i < N
        invariant
            i <= N,
            a@.len() == N,
            out@.len() == N,
            forall|j: int| 0 <= j < i ==> #[trigger] out@[j] == a@[N - 1 - j],
        decreases N - i,
    {
        out[i] = a[N - 1 - i];
        i = i + 1;
    }
    assert(out@ =~= a@.reverse());
    out
}

/// `c1` on values given and returned in over-the-air byte order: every array
/// argument is reversed before the call and the result is reversed after it.
pub fn c1_rev(
    k: &[u8; 16],
    r: &[u8; 16],
    pres: &[u8; 7],
    preq: &[u8; 7],
    iat: u8,
    ia: &[u8; 6],
    rat: u8,
    ra: &[u8; 6],
) -> (out: [u8; 16])
    ensures
        out@ == spec_c1_rev(k@, r@, pres@, preq@, iat, ia@, rat, ra@),
{
    let out = c1(
        &reversed(k),
        &reversed(r),
        &reversed(pres),
        &reversed(preq),
        iat,
        &reversed(ia),
        rat,
        &reversed(ra),
    );
    reversed(&out)
}

/// `s1` on values given and returned in over-the-air byte order.
pub fn s1_rev(k: &[u8; 16], r1: &[u8; 16], r2: &[u8; 16]) -> (out: [u8; 16])
    ensures
        out@ == spec_s1_rev(k@, r1@, r2@),
{
    let out = s1(&reversed(k), &reversed(r1), &reversed(r2));
    reversed(&out)
}

} // verus!
