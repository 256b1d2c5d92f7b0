//! What writing into a packet and reading back gives: the bit-field laws of
//! `set_bits_le` / `get_bits_le`, and the byte and number laws of
//! `Packet::pack` / `Packet::unpack`.
use vstd::prelude::*;
use crate::bits::{bit_of, bytes_from, lemma_bits_ext, lemma_bytes_from_bits};
use crate::endian::{le_bytes, le_value, lemma_le_bytes_len, lemma_le_value_of_bytes, lemma_small_mod, pow256};
use crate::packer::{
    byte_count, fill_lengths, get_bits_spec, grow, sel_bit, set_bits_spec, splice, FromToPacket,
    PacketModel,
};
use crate::packer_impls::resize_spec;

verus! {

/// The `n`-bit field of `value` from bit 0, in `len` bytes.
pub open spec fn low_bits(value: Seq<u8>, n: int, len: nat) -> Seq<u8> {
    bytes_from(|j: int| sel_bit(value, 0, n, j), len)
}

/// Writing the low `n` bits of `value` into the field at bit `start` of
/// `val` and reading that field back gives those bits; every bit outside
/// the field keeps its value, and the length does not change.
pub proof fn law_set_then_get_bits(val: Seq<u8>, start: int, n: int, value: Seq<u8>)
    requires
        0 <= start,
        0 <= n,
        start + n <= 8 * val.len(),
    ensures
        get_bits_spec(set_bits_spec(val, start, n, value), start, n) == low_bits(value, n, val.len()),
        set_bits_spec(val, start, n, value).len() == val.len(),
        forall|k: int|
            0 <= k < 8 * val.len() && !(start <= k < start + n) ==> #[trigger] bit_of(
                set_bits_spec(val, start, n, value),
                k,
            ) == bit_of(val, k),
{
    let written = set_bits_spec(val, start, n, value);
    let fw = |k: int| crate::packer::set_bit_at(val, start, n, value, k);
    assert forall|k: int| 0 <= k < 8 * val.len() implies #[trigger] bit_of(written, k) == fw(k) by {
        lemma_bytes_from_bits(fw, val.len(), k);
    }
    let read = get_bits_spec(written, start, n);
    let expected = low_bits(value, n, val.len());
    assert forall|j: int| 0 <= j < 8 * val.len() implies bit_of(read, j) == bit_of(expected, j) by {
        lemma_bytes_from_bits(|i: int| sel_bit(written, start, n, i), val.len(), j);
        lemma_bytes_from_bits(|i: int| sel_bit(value, 0, n, i), val.len(), j);
        if 0 <= j < n {
            assert(bit_of(written, start + j) == fw(start + j));
        }
    }
    lemma_bits_ext(read, expected);
}

/// A packet whose cursor is at `m.position`, at a byte boundary, with no
/// bit width pending.
pub open spec fn rewound_to(m: PacketModel, position: nat) -> PacketModel {
    PacketModel { position, bit_position: 0, instructions: Seq::empty(), ..m }
}

/// Packing whole bytes and reading the same number of bytes back from the
/// place they were packed at gives those bytes.
pub proof fn law_pack_then_unpack_bytes(m: PacketModel, bytes: Seq<u8>)
    requires
        m.wf(),
        !m.has_instruction(),
    ensures
        ({
            let packed = m.pack_bytes_spec(bytes).0;
            rewound_to(packed, m.position).unpack_bytes_spec(bytes.len()).1 == Ok::<
                Seq<u8>,
                crate::packer::PacketError,
            >(bytes)
        }),
{
    let grown = grow(m.data, m.position + bytes.len());
    let data = splice(grown, m.position, bytes);
    assert(data.subrange(m.position as int, (m.position + bytes.len()) as int) =~= bytes);
}

/// Taking the low `n` bits of the low `n` bits changes nothing.
pub proof fn lemma_low_bits_of_field(bytes: Seq<u8>, n: int, len: nat)
    requires
        0 <= n,
    ensures
        low_bits(get_bits_spec(bytes, 0, n), n, len) == low_bits(bytes, n, len),
{
    let input = get_bits_spec(bytes, 0, n);
    let a = low_bits(input, n, len);
    let b = low_bits(bytes, n, len);
    assert forall|j: int| 0 <= j < 8 * len implies bit_of(a, j) == bit_of(b, j) by {
        lemma_bytes_from_bits(|i: int| sel_bit(input, 0, n, i), len, j);
        lemma_bytes_from_bits(|i: int| sel_bit(bytes, 0, n, i), len, j);
        if 0 <= j < n && 0 <= j < 8 * bytes.len() {
            lemma_bytes_from_bits(|i: int| sel_bit(bytes, 0, n, i), bytes.len(), j);
        }
    }
    lemma_bits_ext(a, b);
}

/// The field of a packet whose cursor and pending width are those of `m`,
/// after `m.pack_bytes_spec(bytes)`: the packed data read again at the
/// place it was written at.
pub open spec fn repacked_field(m: PacketModel, bytes: Seq<u8>) -> PacketModel {
    PacketModel {
        position: m.position,
        bit_position: m.bit_position,
        instructions: m.instructions,
        ..m.pack_bytes_spec(bytes).0
    }
}

/// Packing a bit field and reading the same field back from the place it
/// was packed at gives the low bits of the value packed.
pub proof fn law_pack_then_unpack_bit_field(m: PacketModel, bytes: Seq<u8>)
    requires
        m.wf(),
        m.has_instruction(),
        m.top_bits() >= 1,
    ensures
        repacked_field(m, bytes).unpack_bytes_spec(1).1 == Ok::<Seq<u8>, crate::packer::PacketError>(
            low_bits(bytes, m.top_bits() as int, crate::packer::byte_count(m.bit_position, m.top_bits())),
        ),
{
    let bits = m.top_bits();
    let bc = crate::packer::byte_count(m.bit_position, bits);
    let grown = grow(m.data, m.position + bc);
    let window = grown.subrange(m.position as int, (m.position + bc) as int);
    let input = get_bits_spec(bytes, 0, bits as int);
    let written = set_bits_spec(window, m.bit_position as int, bits as int, input);
    let data = splice(grown, m.position, written);
    assert(8 * bc >= m.bit_position + bits);
    law_set_then_get_bits(window, m.bit_position as int, bits as int, input);
    assert(data.subrange(m.position as int, (m.position + bc) as int) =~= written);
    lemma_low_bits_of_field(bytes, bits as int, bc);
    let again = repacked_field(m, bytes);
    assert(again.data == data);
    assert(again.field_bits() == get_bits_spec(written, m.bit_position as int, bits as int));
}

/// Packing a number on `size` little-endian bytes and reading a number of
/// the same size back from the place it was packed at gives the number.
pub proof fn law_pack_then_unpack_number(m: PacketModel, v: nat, size: nat)
    requires
        m.wf(),
        !m.has_instruction(),
        v < pow256(size),
    ensures
        ({
            let packed = m.pack_bytes_spec(le_bytes(v, size)).0;
            let (_, r) = crate::packer_impls::uint_from_packet(rewound_to(packed, m.position), size);
            r == Ok::<nat, crate::packer::PacketError>(v)
        }),
{
    lemma_le_bytes_len(v, size);
    law_pack_then_unpack_bytes(m, le_bytes(v, size));
    assert(resize_spec(le_bytes(v, size), size) =~= le_bytes(v, size));
    lemma_le_value_of_bytes(v, size);
    lemma_small_mod(v, size);
}

/// Writing a `u16` into a packet and reading a `u16` back from the place it
/// was written at gives the same number.
pub proof fn law_u16_roundtrip(m: PacketModel, v: u16)
    requires
        m.wf(),
        !m.has_instruction(),
        m.position + 2 <= usize::MAX,
    ensures
        ({
            let packed = v.to_packet_spec(m).0;
            <u16 as FromToPacket>::from_packet_spec(rewound_to(packed, m.position)).1 == Ok::<
                u16,
                crate::packer::PacketError,
            >(v)
        }),
{
    crate::endian::lemma_pow256_values();
    law_pack_then_unpack_number(m, v as nat, 2);
}

/// Writing an `i8` into a packet and reading an `i8` back from the place it
/// was written at gives the same number.
pub proof fn law_i8_roundtrip(m: PacketModel, v: i8)
    requires
        m.wf(),
        !m.has_instruction(),
        m.position + 1 <= usize::MAX,
    ensures
        ({
            let packed = v.to_packet_spec(m).0;
            <i8 as FromToPacket>::from_packet_spec(rewound_to(packed, m.position)).1 == Ok::<
                i8,
                crate::packer::PacketError,
            >(v)
        }),
{
    crate::endian::lemma_pow256_values();
    law_pack_then_unpack_number(m, (v as u8) as nat, 1);
    assert(((v as u8) as i8) == v) by (bit_vector);
}

/// Writing an `i16` into a packet and reading an `i16` back from the place it
/// was written at gives the same number.
pub proof fn law_i16_roundtrip(m: PacketModel, v: i16)
    requires
        m.wf(),
        !m.has_instruction(),
        m.position + 2 <= usize::MAX,
    ensures
        ({
            let packed = v.to_packet_spec(m).0;
            <i16 as FromToPacket>::from_packet_spec(rewound_to(packed, m.position)).1 == Ok::<
                i16,
                crate::packer::PacketError,
            >(v)
        }),
{
    crate::endian::lemma_pow256_values();
    law_pack_then_unpack_number(m, (v as u16) as nat, 2);
    assert(((v as u16) as i16) == v) by (bit_vector);
}

/// Writing an `i32` into a packet and reading an `i32` back from the place it
/// was written at gives the same number.
pub proof fn law_i32_roundtrip(m: PacketModel, v: i32)
    requires
        m.wf(),
        !m.has_instruction(),
        m.position + 4 <= usize::MAX,
    ensures
        ({
            let packed = v.to_packet_spec(m).0;
            <i32 as FromToPacket>::from_packet_spec(rewound_to(packed, m.position)).1 == Ok::<
                i32,
                crate::packer::PacketError,
            >(v)
        }),
{
    crate::endian::lemma_pow256_values();
    law_pack_then_unpack_number(m, (v as u32) as nat, 4);
    assert(((v as u32) as i32) == v) by (bit_vector);
}

/// Writing an `i64` into a packet and reading an `i64` back from the place it
/// was written at gives the same number.
pub proof fn law_i64_roundtrip(m: PacketModel, v: i64)
    requires
        m.wf(),
        !m.has_instruction(),
        m.position + 8 <= usize::MAX,
    ensures
        ({
            let packed = v.to_packet_spec(m).0;
            <i64 as FromToPacket>::from_packet_spec(rewound_to(packed, m.position)).1 == Ok::<
                i64,
                crate::packer::PacketError,
            >(v)
        }),
{
    crate::endian::lemma_pow256_values();
    law_pack_then_unpack_number(m, (v as u64) as nat, 8);
    assert(((v as u64) as i64) == v) by (bit_vector);
}

/// Writing an `i128` into a packet and reading an `i128` back from the place it
/// was written at gives the same number.
pub proof fn law_i128_roundtrip(m: PacketModel, v: i128)
    requires
        m.wf(),
        !m.has_instruction(),
        m.position + 16 <= usize::MAX,
    ensures
        ({
            let packed = v.to_packet_spec(m).0;
            <i128 as FromToPacket>::from_packet_spec(rewound_to(packed, m.position)).1 == Ok::<
                i128,
                crate::packer::PacketError,
            >(v)
        }),
{
    crate::endian::lemma_pow256_values();
    law_pack_then_unpack_number(m, (v as u128) as nat, 16);
    assert(((v as u128) as i128) == v) by (bit_vector);
}

/// Two sequences of the same length whose bits agree on a field read the
/// same field.
pub proof fn lemma_get_bits_congruent(a: Seq<u8>, b: Seq<u8>, off: int, k: int)
    requires
        a.len() == b.len(),
        0 <= off,
        0 <= k,
        forall|i: int| off <= i < off + k ==> #[trigger] bit_of(a, i) == bit_of(b, i),
    ensures
        get_bits_spec(a, off, k) == get_bits_spec(b, off, k),
{
    let ga = get_bits_spec(a, off, k);
    let gb = get_bits_spec(b, off, k);
    assert forall|j: int| 0 <= j < 8 * a.len() implies bit_of(ga, j) == bit_of(gb, j) by {
        lemma_bytes_from_bits(|i: int| sel_bit(a, off, k, i), a.len(), j);
        lemma_bytes_from_bits(|i: int| sel_bit(b, off, k, i), b.len(), j);
        if 0 <= j < k {
            assert(bit_of(a, off + j) == bit_of(b, off + j));
        }
    }
    lemma_bits_ext(ga, gb);
}

/// Writing a field leaves every field that does not overlap it as it was.
pub proof fn lemma_set_bits_keeps_other_field(
    w: Seq<u8>,
    off: int,
    k: int,
    input: Seq<u8>,
    off2: int,
    k2: int,
)
    requires
        0 <= off,
        0 <= k,
        off + k <= 8 * w.len(),
        0 <= off2,
        0 <= k2,
        off2 + k2 <= 8 * w.len(),
        off2 + k2 <= off || off + k <= off2,
    ensures
        get_bits_spec(set_bits_spec(w, off, k, input), off2, k2) == get_bits_spec(w, off2, k2),
{
    law_set_then_get_bits(w, off, k, input);
    let w2 = set_bits_spec(w, off, k, input);
    assert forall|i: int| off2 <= i < off2 + k2 implies #[trigger] bit_of(w2, i) == bit_of(w, i) by {
    }
    lemma_get_bits_congruent(w2, w, off2, k2);
}

/// Packing a field of `k` bits that ends inside the byte at the cursor
/// rewrites that byte's bits of the field and nothing else.
pub proof fn lemma_pack_in_byte(s: PacketModel, bytes: Seq<u8>)
    requires
        s.has_instruction(),
        s.top_bits() >= 1,
        s.bit_position + s.top_bits() <= 8,
    ensures
        ({
            let (t, r) = s.pack_bytes_spec(bytes);
            let p = s.position;
            let k = s.top_bits();
            let grown = grow(s.data, p + 1);
            &&& r is Ok
            &&& t.position == p + (s.bit_position + k) / 8
            &&& t.bit_position == (s.bit_position + k) % 8
            &&& t.instructions == s.instructions.drop_last()
            &&& t.length_positions == s.length_positions
            &&& t.data.len() == grown.len()
            &&& t.data.subrange(p as int, p + 1int) == set_bits_spec(
                grown.subrange(p as int, p + 1int),
                s.bit_position as int,
                k as int,
                get_bits_spec(bytes, 0, k as int),
            )
        }),
{
    let p = s.position;
    let k = s.top_bits();
    assert(crate::packer::byte_count(s.bit_position, k) == 1);
    let grown = grow(s.data, p + 1);
    let window = grown.subrange(p as int, p + 1int);
    let written = set_bits_spec(window, s.bit_position as int, k as int, get_bits_spec(bytes, 0, k as int));
    let data = splice(grown, p, written);
    assert(data.subrange(p as int, p + 1int) =~= written);
}

/// Packing a field of `k` bits that ends inside the byte at the cursor
/// changes no other byte.
pub proof fn lemma_pack_in_byte_frame(s: PacketModel, bytes: Seq<u8>)
    requires
        s.has_instruction(),
        s.top_bits() >= 1,
        s.bit_position + s.top_bits() <= 8,
    ensures
        ({
            let t = s.pack_bytes_spec(bytes).0;
            let grown = grow(s.data, s.position + 1);
            t.data == grown.update(s.position as int, t.data[s.position as int])
        }),
{
    let p = s.position;
    let k = s.top_bits();
    assert(crate::packer::byte_count(s.bit_position, k) == 1);
    let grown = grow(s.data, p + 1);
    let window = grown.subrange(p as int, p + 1int);
    let written = set_bits_spec(window, s.bit_position as int, k as int, get_bits_spec(bytes, 0, k as int));
    let data = splice(grown, p, written);
    assert(data =~= grown.update(p as int, data[p as int]));
}

/// Reading a field of `k` bits that ends inside the byte at the cursor
/// gives that byte's bits of the field.
pub proof fn lemma_unpack_in_byte(s: PacketModel, size: nat)
    requires
        s.has_instruction(),
        s.top_bits() >= 1,
        s.bit_position + s.top_bits() <= 8,
        s.position + 1 <= s.data.len(),
    ensures
        ({
            let (t, r) = s.unpack_bytes_spec(size);
            let p = s.position;
            let k = s.top_bits();
            &&& r == Ok::<Seq<u8>, crate::packer::PacketError>(
                get_bits_spec(s.data.subrange(p as int, p + 1int), s.bit_position as int, k as int),
            )
            &&& t.position == p + (s.bit_position + k) / 8
            &&& t.bit_position == (s.bit_position + k) % 8
            &&& t.instructions == s.instructions.drop_last()
            &&& t.data == s.data
        }),
{
    assert(crate::packer::byte_count(s.bit_position, s.top_bits()) == 1);
}

/// A byte whose bits from `k` on are clear is its own low `k` bits.
pub proof fn lemma_low_bits_small(c: u8, k: u8)
    requires
        1 <= k <= 8,
        c >> k == 0,
    ensures
        low_bits(seq![c], k as int, 1) == seq![c],
{
    let lb = low_bits(seq![c], k as int, 1);
    assert forall|j: int| 0 <= j < 8 implies bit_of(lb, j) == bit_of(seq![c], j) by {
        lemma_bytes_from_bits(|i: int| sel_bit(seq![c], 0, k as int, i), 1, j);
        if j >= k {
            let ju = j as u8;
            assert((c >> k) == 0 && k <= ju && ju < 8 ==> (c >> ju) & 1u8 != 1u8) by (bit_vector);
            assert(seq![c][j / 8] == c);
        }
    }
    lemma_bits_ext(lb, seq![c]);
}

/// The bytes at the cursor are `bytes`, read as whole bytes: no width is
/// pending and the data holds all of them.
pub open spec fn holds_at(m: PacketModel, bytes: Seq<u8>) -> bool {
    &&& !m.has_instruction()
    &&& m.position + bytes.len() <= m.data.len()
    &&& m.data.subrange(m.position as int, (m.position + bytes.len()) as int) == bytes
}

/// Packing `a` and then `b` is packing `a + b`.
pub proof fn lemma_pack_concat(m: PacketModel, a: Seq<u8>, b: Seq<u8>)
    requires
        m.wf(),
        !m.has_instruction(),
    ensures
        m.pack_bytes_spec(a).1 is Ok,
        m.pack_bytes_spec(a).0.pack_bytes_spec(b) == m.pack_bytes_spec(a + b),
{
    let p = m.position;
    let m1 = m.pack_bytes_spec(a).0;
    let d1 = splice(grow(m.data, p + a.len()), p, a);
    assert(m1.data == d1);
    let d2 = splice(grow(d1, p + a.len() + b.len()), p + a.len(), b);
    let d = splice(grow(m.data, p + (a + b).len()), p, a + b);
    assert(d2.len() == d.len());
    assert forall|i: int| 0 <= i < d.len() implies d2[i] == d[i] by {
        if i < p {
        } else if i < p + a.len() {
        } else if i < p + a.len() + b.len() {
        } else {
        }
    }
    assert(d2 =~= d);
}

/// After packing `bytes`, the bytes at the place they were packed at are
/// `bytes`.
pub proof fn lemma_holds_after_pack(m: PacketModel, bytes: Seq<u8>)
    requires
        m.wf(),
        !m.has_instruction(),
    ensures
        holds_at(rewound_to(m.pack_bytes_spec(bytes).0, m.position), bytes),
{
    let grown = grow(m.data, m.position + bytes.len());
    let data = splice(grown, m.position, bytes);
    assert(data.subrange(m.position as int, (m.position + bytes.len()) as int) =~= bytes);
}

/// Reading the first part of what the cursor holds gives it and leaves the
/// cursor on the rest.
pub proof fn lemma_holds_split(m: PacketModel, a: Seq<u8>, b: Seq<u8>)
    requires
        holds_at(m, a + b),
    ensures
        m.unpack_bytes_spec(a.len()) == (m.advance_bytes(a.len()), Ok::<Seq<u8>, crate::packer::PacketError>(a)),
        m.next_if_eq_spec(a) == (m.advance_bytes(a.len()), true),
        holds_at(m.advance_bytes(a.len()), b),
{
    let p = m.position as int;
    let w = m.data.subrange(p, p + (a + b).len());
    assert(m.data.subrange(p, p + a.len()) =~= w.subrange(0, a.len() as int));
    assert(w.subrange(0, a.len() as int) =~= a);
    assert(m.data.subrange(p + a.len(), p + a.len() + b.len()) =~= w.subrange(a.len() as int, (a + b).len() as int));
    assert(w.subrange(a.len() as int, (a + b).len() as int) =~= b);
}

/// A number written on `size` little-endian bytes is read back from there,
/// and the cursor moves past it.
pub proof fn lemma_read_number(m: PacketModel, v: nat, size: nat, rest: Seq<u8>)
    requires
        holds_at(m, le_bytes(v, size) + rest),
        v < pow256(size),
    ensures
        crate::packer_impls::uint_from_packet(m, size) == (m.advance_bytes(size), Ok::<nat, crate::packer::PacketError>(v)),
        holds_at(m.advance_bytes(size), rest),
{
    lemma_le_bytes_len(v, size);
    lemma_holds_split(m, le_bytes(v, size), rest);
    assert(resize_spec(le_bytes(v, size), size) =~= le_bytes(v, size));
    lemma_le_value_of_bytes(v, size);
    lemma_small_mod(v, size);
}


/// Bytes whose bits from `n` on are clear are their own low `n` bits.
pub proof fn lemma_low_bits_fit(bytes: Seq<u8>, n: int)
    requires
        0 <= n,
        forall|j: int| n <= j < 8 * bytes.len() ==> !#[trigger] bit_of(bytes, j),
    ensures
        low_bits(bytes, n, bytes.len()) == bytes,
{
    let lb = low_bits(bytes, n, bytes.len());
    assert forall|j: int| 0 <= j < 8 * lb.len() implies bit_of(lb, j) == bit_of(bytes, j) by {
        lemma_bytes_from_bits(|i: int| sel_bit(bytes, 0, n, i), bytes.len(), j);
    }
    lemma_bits_ext(lb, bytes);
}


// --- Length fields ---

/// The number of bytes a length field recorded as `lp` is filled with: its
/// width, at most eight.
pub open spec fn field_width(lp: (nat, nat)) -> nat {
    if lp.1 < 8 { lp.1 } else { 8 }
}

/// The bytes a length field recorded as `lp` holds in data of `total`
/// bytes: the number of bytes after the field, little endian.
pub open spec fn length_value(lp: (nat, nat), total: nat) -> Seq<u8> {
    le_bytes((total - lp.0 - lp.1) as nat, field_width(lp))
}

/// Byte `k` is one that the length field `lp` is filled into.
pub open spec fn in_field(lp: (nat, nat), k: int) -> bool {
    lp.0 <= k < lp.0 + field_width(lp)
}

/// Byte `k` is one that some length field of `lps` is filled into.
pub open spec fn covered(lps: Seq<(nat, nat)>, k: int) -> bool {
    exists|i: int| 0 <= i < lps.len() && #[trigger] in_field(lps[i], k)
}

/// No two length fields of `lps` share a byte.
pub open spec fn fields_disjoint(lps: Seq<(nat, nat)>) -> bool {
    forall|i: int, j: int|
        0 <= i < j < lps.len() ==> {
            ||| lps[i].0 + field_width(lps[i]) <= lps[j].0
            ||| lps[j].0 + field_width(lps[j]) <= lps[i].0
        }
}

/// Every length field of `lps` lies inside `n` bytes.
pub open spec fn fields_inside(lps: Seq<(nat, nat)>, n: nat) -> bool {
    forall|i: int| 0 <= i < lps.len() ==> #[trigger] lps[i].0 + lps[i].1 <= n
}

/// Filling length fields keeps the length of the data; a byte that no field
/// covers keeps its value.
proof fn lemma_fill_outside(d: Seq<u8>, lps: Seq<(nat, nat)>, total: nat, k: int)
    requires
        fields_inside(lps, d.len()),
    ensures
        fill_lengths(d, lps, total).len() == d.len(),
        0 <= k < d.len() && !covered(lps, k) ==> fill_lengths(d, lps, total)[k] == d[k],
    decreases lps.len(),
{
    if lps.len() > 0 {
        let init = lps.drop_last();
        let lp = lps.last();
        assert(fields_inside(init, d.len())) by {
            assert forall|i: int| 0 <= i < init.len() implies #[trigger] init[i].0 + init[i].1 <= d.len() by {
                assert(init[i] == lps[i]);
            }
        }
        lemma_fill_outside(d, init, total, k);
        lemma_le_bytes_len((total - lp.0 - lp.1) as nat, field_width(lp));
        assert(lp.0 + lp.1 <= d.len()) by {
            assert(lps[lps.len() - 1] == lp);
        }
        if 0 <= k < d.len() && !covered(lps, k) {
            assert(!covered(init, k)) by {
                if covered(init, k) {
                    let i = choose|i: int| 0 <= i < init.len() && #[trigger] in_field(init[i], k);
                    assert(init[i] == lps[i]);
                    assert(in_field(lps[i], k));
                }
            }
            assert(!in_field(lp, k)) by {
                assert(lps[lps.len() - 1] == lp);
                if in_field(lp, k) {
                    assert(in_field(lps[lps.len() - 1], k));
                }
            }
        }
    }
}

/// What a byte that some field covers is filled with does not depend on
/// what the data held there.
proof fn lemma_fill_inside(d1: Seq<u8>, d2: Seq<u8>, lps: Seq<(nat, nat)>, total: nat, k: int)
    requires
        d1.len() == d2.len(),
        fields_inside(lps, d1.len()),
        covered(lps, k),
    ensures
        fill_lengths(d1, lps, total)[k] == fill_lengths(d2, lps, total)[k],
    decreases lps.len(),
{
    let init = lps.drop_last();
    let lp = lps.last();
    assert(fields_inside(init, d1.len())) by {
        assert forall|i: int| 0 <= i < init.len() implies #[trigger] init[i].0 + init[i].1 <= d1.len() by {
            assert(init[i] == lps[i]);
        }
    }
    assert(lp.0 + lp.1 <= d1.len()) by {
        assert(lps[lps.len() - 1] == lp);
    }
    lemma_fill_outside(d1, init, total, k);
    lemma_fill_outside(d2, init, total, k);
    lemma_le_bytes_len((total - lp.0 - lp.1) as nat, field_width(lp));
    if !in_field(lp, k) {
        let i = choose|i: int| 0 <= i < lps.len() && #[trigger] in_field(lps[i], k);
        assert(i != lps.len() - 1);
        assert(init[i] == lps[i]);
        assert(in_field(init[i], k));
        lemma_fill_inside(d1, d2, init, total, k);
    }
}

/// With no two fields sharing a byte, each field is filled with its value.
proof fn lemma_fill_field(d: Seq<u8>, lps: Seq<(nat, nat)>, total: nat, i: int, j: int)
    requires
        fields_inside(lps, d.len()),
        fields_disjoint(lps),
        0 <= i < lps.len(),
        0 <= j < field_width(lps[i]),
    ensures
        fill_lengths(d, lps, total)[lps[i].0 + j] == length_value(lps[i], total)[j],
    decreases lps.len(),
{
    let init = lps.drop_last();
    let lp = lps.last();
    assert(fields_inside(init, d.len())) by {
        assert forall|a: int| 0 <= a < init.len() implies #[trigger] init[a].0 + init[a].1 <= d.len() by {
            assert(init[a] == lps[a]);
        }
    }
    assert(lp.0 + lp.1 <= d.len()) by {
        assert(lps[lps.len() - 1] == lp);
    }
    lemma_fill_outside(d, init, total, 0);
    lemma_le_bytes_len((total - lp.0 - lp.1) as nat, field_width(lp));
    lemma_le_bytes_len((total - lps[i].0 - lps[i].1) as nat, field_width(lps[i]));
    assert(lps[i].0 + lps[i].1 <= d.len());
    if i < lps.len() - 1 {
        assert(init[i] == lps[i]);
        assert(fields_disjoint(init)) by {
            assert forall|a: int, b: int| 0 <= a < b < init.len() implies {
                ||| init[a].0 + field_width(init[a]) <= init[b].0
                ||| init[b].0 + field_width(init[b]) <= init[a].0
            } by {
                assert(init[a] == lps[a] && init[b] == lps[b]);
            }
        }
        assert(lps[i].0 + field_width(lps[i]) <= lp.0 || lp.0 + field_width(lp) <= lps[i].0);
        lemma_fill_field(d, init, total, i, j);
    }
}

/// Taking the bytes of a packet fills each of its length fields with the
/// number of bytes after the field, little endian, on the field's width (at
/// most eight bytes), when no two fields share a byte; every other byte
/// keeps its value, and the length of the data does not change.
pub proof fn law_get_bytes_fills_lengths(m: PacketModel)
    requires
        m.wf(),
        fields_disjoint(m.length_positions),
    ensures
        m.filled_data().len() == m.data.len(),
        forall|i: int, j: int|
            0 <= i < m.length_positions.len() && 0 <= j < field_width(m.length_positions[i]) ==> #[trigger] m.filled_data()[m.length_positions[i].0 + j]
                == length_value(m.length_positions[i], m.data.len())[j],
        forall|k: int|
            0 <= k < m.data.len() && !covered(m.length_positions, k) ==> #[trigger] m.filled_data()[k]
                == m.data[k],
{
    let lps = m.length_positions;
    assert(fields_inside(lps, m.data.len()));
    lemma_fill_outside(m.data, lps, m.data.len(), 0);
    assert forall|i: int, j: int|
        0 <= i < lps.len() && 0 <= j < field_width(lps[i]) implies #[trigger] m.filled_data()[lps[i].0 + j]
            == length_value(lps[i], m.data.len())[j] by {
        lemma_fill_field(m.data, lps, m.data.len(), i, j);
    }
    assert forall|k: int| 0 <= k < m.data.len() && !covered(lps, k) implies #[trigger] m.filled_data()[k]
        == m.data[k] by {
        lemma_fill_outside(m.data, lps, m.data.len(), k);
    }
}

/// Taking the bytes of a packet a second time gives the same bytes.
pub proof fn law_get_bytes_twice(m: PacketModel)
    requires
        m.wf(),
    ensures
        (PacketModel { data: m.filled_data(), ..m }).filled_data() == m.filled_data(),
{
    let lps = m.length_positions;
    let n = m.data.len();
    let f = m.filled_data();
    assert(fields_inside(lps, n));
    lemma_fill_outside(m.data, lps, n, 0);
    let ff = fill_lengths(f, lps, n);
    lemma_fill_outside(f, lps, n, 0);
    assert forall|k: int| 0 <= k < f.len() implies ff[k] == f[k] by {
        if covered(lps, k) {
            lemma_fill_inside(f, m.data, lps, n, k);
        } else {
            lemma_fill_outside(f, lps, n, k);
        }
    }
    assert(ff =~= f);
}

/// Reading a field keeps the packet's invariant, its data and its length
/// fields, whether it succeeds or not; what it reads is `size` bytes, or,
/// with a width pending, the bytes that the field touches.
pub proof fn law_unpack_bytes_frame(m: PacketModel, size: nat)
    requires
        m.wf(),
        m.field_fits(),
    ensures
        ({
            let (m1, r) = m.unpack_bytes_spec(size);
            &&& m1.wf()
            &&& m1.data == m.data
            &&& m1.length_positions == m.length_positions
            &&& r matches Ok(v) ==> v.len() == if m.has_instruction() {
                byte_count(m.bit_position, m.top_bits())
            } else {
                size
            }
        }),
{
    if m.has_instruction() {
        let bits = m.top_bits();
        assert((m.bit_position + bits) / 8 <= byte_count(m.bit_position, bits));
    }
}


/// With a width pending, `next_if_eq` matches exactly when the bits of the
/// pending field are the bytes given; on a match the cursor moves as reading
/// the same field moves it, and otherwise nothing changes.
pub proof fn law_next_if_eq_moves_like_unpack(m: PacketModel, bytes_eq: Seq<u8>, size: nat)
    requires
        m.has_instruction(),
    ensures
        ({
            let (m1, res) = m.next_if_eq_spec(bytes_eq);
            &&& res == (m.position + byte_count(m.bit_position, m.top_bits()) <= m.data.len()
                && m.field_bits() == bytes_eq)
            &&& res ==> m1 == m.unpack_bytes_spec(size).0
            &&& !res ==> m1 == m
        }),
{
}

} // verus!
