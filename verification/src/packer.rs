//! Bit-level packing and unpacking of values into a byte buffer.

use vstd::prelude::*;
use vstd::slice::{slice_subrange, slice_to_vec};
use crate::endian::{le_bytes, u128_to_le, lemma_le_bytes_len};
use crate::bits::{bit_of, bytes_from, lemma_assign_bit, lemma_bits_ext, lemma_bytes_from_bits, lemma_extract_bit, lemma_or_bit};
pub use crate::fixed_utf8::FixedSizeUtf8;

verus! {

/// Bit `j` of the `n`-bit field that starts at bit `start` of `val`.
pub open spec fn sel_bit(val: Seq<u8>, start: int, n: int, j: int) -> bool {
    0 <= j < n && bit_of(val, start + j)
}

/// What `get_bits_le` returns: the `n` bits of `val` from bit `start` on,
/// moved down to bit 0, in a sequence as long as `val`.
pub open spec fn get_bits_spec(val: Seq<u8>, start: int, n: int) -> Seq<u8> {
    bytes_from(|j: int| sel_bit(val, start, n, j), val.len())
}

/// Bit `k` of `val` after the bits `start .. start + n` are replaced by the
/// low bits of `value`.
pub open spec fn set_bit_at(val: Seq<u8>, start: int, n: int, value: Seq<u8>, k: int) -> bool {
    if start <= k < start + n {
        bit_of(value, k - start)
    } else {
        bit_of(val, k)
    }
}

/// What `set_bits_le` leaves in `val`.
pub open spec fn set_bits_spec(val: Seq<u8>, start: int, n: int, value: Seq<u8>) -> Seq<u8> {
    bytes_from(|k: int| set_bit_at(val, start, n, value, k), val.len())
}

/// Set bits from a byte array into a target byte array based on the specified
/// bit range, assumes little-endian byte order.
pub fn set_bits_le(val: &mut [u8], bits: (usize, usize), value: &[u8])
    requires
        bits.0 <= bits.1,
        bits.1 - bits.0 < usize::MAX,
    ensures
        final(val)@ == set_bits_spec(old(val)@, bits.0 as int, bits.1 - bits.0 + 1, value@),
{
    let (start, end) = bits;
    let num_bits = end - start + 1;
    let ghost orig = val@;
    let mut i: usize = 0;
    while i < num_bits
        invariant
            start <= end,
            num_bits == end - start + 1,
            i <= num_bits,
            val@.len() == orig.len(),
            forall|k: int|
                0 <= k < 8 * orig.len() ==> #[trigger] bit_of(val@, k) == set_bit_at(
                    orig,
                    start as int,
                    i as int,
                    value@,
                    k,
                ),
        decreases num_bits - i,
    {
        let val_bit_pos = start + i;
        let byte_index = val_bit_pos / 8;
        let bit_in_byte: u8 = (val_bit_pos % 8) as u8;

        if byte_index < val.len() {
            // Get the bit from the value
            let value_bit = {
                let bit_index = i;
                let byte: u8 = if bit_index / 8 < value.len() {
                    value[bit_index / 8]
                } else {
                    0
                };
                (byte >> ((bit_index % 8) as u8)) & 1
            };
            proof {
                let bi = (i / 8) as int;
                if bi < value@.len() {
                    lemma_extract_bit(value@[bi], (i % 8) as u8);
                } else {
                    assert(((0u8 >> ((i % 8) as u8)) & 1u8) == 0u8) by (bit_vector);
                }
                assert(value_bit == 1 <==> bit_of(value@, i as int));
            }
            let ghost before = val@;
            let old_byte = val[byte_index];
            // Clear the bit, then set it if needed
            let cleared = old_byte & !(1u8 << bit_in_byte);
            let new_byte = if value_bit == 1 {
                cleared | (1u8 << bit_in_byte)
            } else {
                cleared
            };
            val[byte_index] = new_byte;
            proof {
                assert forall|k: int| 0 <= k < 8 * orig.len() implies #[trigger] bit_of(val@, k)
                    == set_bit_at(orig, start as int, (i + 1) as int, value@, k) by {
                    if k / 8 == byte_index as int {
                        lemma_assign_bit(old_byte, value_bit, bit_in_byte, (k % 8) as u8);
                        assert(bit_of(before, k) == set_bit_at(orig, start as int, i as int, value@, k));
                    } else {
                        assert(bit_of(before, k) == set_bit_at(orig, start as int, i as int, value@, k));
                    }
                }
            }
        } else {
            proof {
                assert forall|k: int| 0 <= k < 8 * orig.len() implies #[trigger] bit_of(val@, k)
                    == set_bit_at(orig, start as int, (i + 1) as int, value@, k) by {
                    assert(bit_of(val@, k) == set_bit_at(orig, start as int, i as int, value@, k));
                }
            }
        }
        i = i + 1;
    }
    proof {
        let f = |k: int| set_bit_at(orig, start as int, num_bits as int, value@, k);
        let target = bytes_from(f, orig.len());
        assert forall|k: int| 0 <= k < 8 * val@.len() implies bit_of(val@, k) == bit_of(target, k) by {
            lemma_bytes_from_bits(f, orig.len(), k);
        }
        lemma_bits_ext(val@, target);
    }
}

/// Extract bits from a byte array based on the specified bit range, assumes
/// little-endian byte order.
pub fn get_bits_le(val: &[u8], bits: (usize, usize)) -> (result: Vec<u8>)
    requires
        bits.0 <= bits.1,
        bits.1 - bits.0 < usize::MAX,
    ensures
        result@ == get_bits_spec(val@, bits.0 as int, bits.1 - bits.0 + 1),
{
    let (start, end) = bits;
    let num_bits = end - start + 1;

    let mut result = vec![0u8; val.len()]; // same length as input
    proof {
        assert forall|k: int| 0 <= k < 8 * result@.len() implies !#[trigger] bit_of(result@, k) by {
            assert(result@[k / 8] == 0u8);
            let r = (k % 8) as u8;
            assert(((0u8 >> r) & 1u8) == 0u8) by (bit_vector);
        }
    }

    let mut i: usize = 0;
    while i < num_bits
        invariant
            start <= end,
            num_bits == end - start + 1,
            i <= num_bits,
            result@.len() == val@.len(),
            forall|j: int|
                0 <= j < 8 * val@.len() ==> #[trigger] bit_of(result@, j) == (j < i && sel_bit(
                    val@,
                    start as int,
                    num_bits as int,
                    j,
                )),
        decreases num_bits - i,
    {
        let val_bit_pos = start + i;
        let val_byte = val_bit_pos / 8;
        let val_bit: u8 = (val_bit_pos % 8) as u8;

        if val_byte < val.len() {
            let bit = (val[val_byte] >> val_bit) & 1;
            proof {
                lemma_extract_bit(val@[val_byte as int], val_bit);
                assert(bit == 1 <==> bit_of(val@, val_bit_pos as int));
            }

            let res_byte = i / 8;
            let res_bit: u8 = (i % 8) as u8;

            if res_byte < result.len() {
                let ghost before = result@;
                let old_byte = result[res_byte];
                result[res_byte] = old_byte | (bit << res_bit);
                proof {
                    assert forall|j: int| 0 <= j < 8 * val@.len() implies #[trigger] bit_of(result@, j)
                        == (j < i + 1 && sel_bit(val@, start as int, num_bits as int, j)) by {
                        assert(bit_of(before, j) == (j < i && sel_bit(
                            val@,
                            start as int,
                            num_bits as int,
                            j,
                        )));
                        if j / 8 == res_byte as int {
                            lemma_or_bit(old_byte, bit, res_bit, (j % 8) as u8);
                        }
                    }
                }
            } else {
                proof {
                    assert forall|j: int| 0 <= j < 8 * val@.len() implies #[trigger] bit_of(result@, j)
                        == (j < i + 1 && sel_bit(val@, start as int, num_bits as int, j)) by {
                        assert(bit_of(result@, j) == (j < i && sel_bit(
                            val@,
                            start as int,
                            num_bits as int,
                            j,
                        )));
                    }
                }
            }
        } else {
            proof {
                assert forall|j: int| 0 <= j < 8 * val@.len() implies #[trigger] bit_of(result@, j)
                    == (j < i + 1 && sel_bit(val@, start as int, num_bits as int, j)) by {
                    assert(bit_of(result@, j) == (j < i && sel_bit(
                        val@,
                        start as int,
                        num_bits as int,
                        j,
                    )));
                }
            }
        }
        i = i + 1;
    }
    proof {
        let f = |j: int| sel_bit(val@, start as int, num_bits as int, j);
        let target = bytes_from(f, val@.len());
        assert forall|k: int| 0 <= k < 8 * result@.len() implies bit_of(result@, k) == bit_of(target, k) by {
            lemma_bytes_from_bits(f, val@.len(), k);
        }
        lemma_bits_ext(result@, target);
    }
    result
}


#[derive(Debug, Clone, PartialEq, Eq, Hash)]
pub enum PacketError {
    NotEnoughBytes,
    InvalidInstruction,
    InvalidBytes,
    InvalidBits,
    Unspecified(&'static str),
}

#[derive(Debug, Clone, Copy, PartialEq, Eq, Hash, Default)]
struct BitsetInstruction {
    bits: usize,
}

#[derive(Debug, Clone, Copy, PartialEq, Eq, Hash, Default)]
struct LengthPosition {
    position: usize,
    bytes: usize,
}

/// A byte buffer with a read/write cursor (`position`, `bit_position`), a
/// stack of pending bit-width instructions (`set_bits`) and the places where
/// a length field is filled in when the bytes are taken (`pack_length`).
#[derive(Debug, Clone, PartialEq, Eq, Default)]
pub struct Packet {
    position: usize,
    bit_position: usize,
    data: Vec<u8>,
    instructions: Vec<BitsetInstruction>,
    length_positions: Vec<LengthPosition>,
}

/// The abstract state of a `Packet`.
pub struct PacketModel {
    pub position: nat,
    pub bit_position: nat,
    pub data: Seq<u8>,
    /// Pending bit widths; the last one applies to the next operation.
    pub instructions: Seq<nat>,
    /// Length fields as (position, width in bytes), in the order they were added.
    pub length_positions: Seq<(nat, nat)>,
}

impl View for Packet {
    type V = PacketModel;

    closed spec fn view(&self) -> PacketModel {
        PacketModel {
            position: self.position as nat,
            bit_position: self.bit_position as nat,
            data: self.data@,
            instructions: self.instructions@.map_values(|i: BitsetInstruction| i.bits as nat),
            length_positions: self.length_positions@.map_values(
                |l: LengthPosition| (l.position as nat, l.bytes as nat),
            ),
        }
    }
}

/// `n` zero bytes.
pub open spec fn zeros(n: nat) -> Seq<u8> {
    Seq::new(n, |i: int| 0u8)
}

/// `data` extended with zeros to at least `n` bytes.
pub open spec fn grow(data: Seq<u8>, n: nat) -> Seq<u8> {
    if data.len() < n {
        data + zeros((n - data.len()) as nat)
    } else {
        data
    }
}

/// `data` with the bytes from `at` on replaced by `part`.
pub open spec fn splice(data: Seq<u8>, at: nat, part: Seq<u8>) -> Seq<u8> {
    data.subrange(0, at as int) + part + data.subrange((at + part.len()) as int, data.len() as int)
}

/// Number of bytes touched by a `bits`-bit field that starts at bit `bit_position`.
pub open spec fn byte_count(bit_position: nat, bits: nat) -> nat {
    (bit_position + bits + 7) / 8
}

impl PacketModel {
    /// The invariant every `Packet` keeps.
    pub open spec fn wf(self) -> bool {
        &&& self.bit_position < 8
        &&& self.position <= self.data.len()
        &&& forall|i: int|
            0 <= i < self.length_positions.len() ==> {
                let lp = #[trigger] self.length_positions[i];
                &&& lp.1 >= 1
                &&& lp.0 + lp.1 <= self.data.len()
            }
        &&& forall|i: int, j: int|
            0 <= i < j < self.length_positions.len() ==> self.length_positions[i]
                != self.length_positions[j]
    }

    pub open spec fn has_instruction(self) -> bool {
        self.instructions.len() > 0
    }

    /// The bit width that the next operation takes from `set_bits`.
    pub open spec fn top_bits(self) -> nat {
        self.instructions.last()
    }

    /// The next operation can run without arithmetic overflow: a pending
    /// width is at least one bit and the field stays within the address range.
    pub open spec fn field_fits(self) -> bool {
        self.has_instruction() ==> {
            &&& self.top_bits() >= 1
            &&& self.position + self.top_bits() + 16 <= usize::MAX
        }
    }

    /// Packing `size` bytes can run without arithmetic overflow.
    pub open spec fn room_for(self, size: nat) -> bool {
        if self.has_instruction() {
            self.position + self.top_bits() + 16 <= usize::MAX
        } else {
            self.position + size <= usize::MAX
        }
    }

    /// The state after a `bits`-bit field at the cursor has been consumed.
    pub open spec fn advance_bits(self, bits: nat) -> PacketModel {
        PacketModel {
            position: self.position + (self.bit_position + bits) / 8,
            bit_position: (self.bit_position + bits) % 8,
            instructions: self.instructions.drop_last(),
            ..self
        }
    }

    /// The state after `size` whole bytes at the cursor have been consumed.
    pub open spec fn advance_bytes(self, size: nat) -> PacketModel {
        PacketModel { position: self.position + size, bit_position: 0, ..self }
    }

    /// The bits of the pending field, read from the bytes it touches.
    pub open spec fn field_bits(self) -> Seq<u8> {
        let bc = byte_count(self.bit_position, self.top_bits());
        get_bits_spec(
            self.data.subrange(self.position as int, (self.position + bc) as int),
            self.bit_position as int,
            self.top_bits() as int,
        )
    }

    /// What `unpack_bytes(size)` returns, and the state it leaves.
    pub open spec fn unpack_bytes_spec(self, size: nat) -> (PacketModel, Result<Seq<u8>, PacketError>) {
        if self.has_instruction() {
            let bits = self.top_bits();
            if self.position + byte_count(self.bit_position, bits) > self.data.len() {
                (self, Err(PacketError::NotEnoughBytes))
            } else {
                (self.advance_bits(bits), Ok(self.field_bits()))
            }
        } else if self.position + size > self.data.len() {
            (self, Err(PacketError::NotEnoughBytes))
        } else {
            (
                self.advance_bytes(size),
                Ok(self.data.subrange(self.position as int, (self.position + size) as int)),
            )
        }
    }

    /// What `pack_bytes(bytes)` returns, and the state it leaves.
    pub open spec fn pack_bytes_spec(self, bytes: Seq<u8>) -> (PacketModel, Result<(), PacketError>) {
        if self.has_instruction() {
            let bits = self.top_bits();
            if bits == 0 {
                (self, Err(PacketError::InvalidInstruction))
            } else {
                let bc = byte_count(self.bit_position, bits);
                let grown = grow(self.data, self.position + bc);
                let window = grown.subrange(self.position as int, (self.position + bc) as int);
                let input = get_bits_spec(bytes, 0, bits as int);
                let written = set_bits_spec(window, self.bit_position as int, bits as int, input);
                (
                    PacketModel { data: splice(grown, self.position, written), ..self }.advance_bits(
                        bits,
                    ),
                    Ok(()),
                )
            }
        } else {
            let grown = grow(self.data, self.position + bytes.len());
            (
                PacketModel { data: splice(grown, self.position, bytes), ..self }.advance_bytes(
                    bytes.len(),
                ),
                Ok(()),
            )
        }
    }

    /// What `next_if_eq(bytes_eq)` returns, and the state it leaves.
    pub open spec fn next_if_eq_spec(self, bytes_eq: Seq<u8>) -> (PacketModel, bool) {
        if self.has_instruction() {
            let bits = self.top_bits();
            if self.position + byte_count(self.bit_position, bits) > self.data.len() {
                (self, false)
            } else if self.field_bits() == bytes_eq {
                (self.advance_bits(bits), true)
            } else {
                (self, false)
            }
        } else if self.position + bytes_eq.len() <= self.data.len() && self.data.subrange(
            self.position as int,
            (self.position + bytes_eq.len()) as int,
        ) == bytes_eq {
            (self.advance_bytes(bytes_eq.len()), true)
        } else {
            (self, false)
        }
    }

    /// What `pack_length` returns for a field of `width` bytes, and the state it leaves.
    pub open spec fn pack_length_spec(self, width: nat) -> (PacketModel, Result<(), PacketError>) {
        if self.has_instruction() {
            (self, Err(PacketError::InvalidInstruction))
        } else {
            let packed = self.pack_bytes_spec(zeros(width)).0;
            let lp = (self.position, width);
            (
                PacketModel {
                    length_positions: if self.length_positions.contains(lp) {
                        self.length_positions
                    } else {
                        self.length_positions.push(lp)
                    },
                    ..packed
                },
                Ok(()),
            )
        }
    }

    /// What `unpack_length::<T>` returns, and the state it leaves.
    pub open spec fn unpack_length_spec<T: FromToPacket>(self) -> (PacketModel, Result<(), PacketError>) {
        if self.has_instruction() {
            (self, Err(PacketError::InvalidInstruction))
        } else {
            let (m, r) = T::from_packet_spec(self);
            (
                m,
                match r {
                    Ok(_) => Ok(()),
                    Err(e) => Err(e),
                },
            )
        }
    }

    /// The data with every recorded length field filled in, in the order
    /// the fields were recorded: each holds the number of bytes from its end
    /// to the end of the data, little endian, on at most eight bytes.
    pub open spec fn filled_data(self) -> Seq<u8> {
        fill_lengths(self.data, self.length_positions, self.data.len())
    }
}

/// `data` with the first `lps.len()` length fields filled in.
pub open spec fn fill_lengths(data: Seq<u8>, lps: Seq<(nat, nat)>, total: nat) -> Seq<u8>
    decreases lps.len(),
{
    if lps.len() == 0 {
        data
    } else {
        let d = fill_lengths(data, lps.drop_last(), total);
        let lp = lps.last();
        let width = if lp.1 < 8 { lp.1 } else { 8 };
        splice(d, lp.0, le_bytes((total - lp.0 - lp.1) as nat, width))
    }
}

impl Packet {
    /// The invariant of the packet.
    pub open spec fn wf(&self) -> bool {
        self@.wf()
    }

    proof fn lemma_view_instructions(&self)
        ensures
            self@.instructions.len() == self.instructions@.len(),
            forall|i: int|
                0 <= i < self.instructions@.len() ==> #[trigger] self@.instructions[i]
                    == self.instructions@[i].bits,
    {
    }

    pub fn new() -> (p: Self)
        ensures
            p.wf(),
            p@.position == 0,
            p@.bit_position == 0,
            p@.data == Seq::<u8>::empty(),
            p@.instructions == Seq::<nat>::empty(),
            p@.length_positions == Seq::<(nat, nat)>::empty(),
    {
        let p = Packet {
            position: 0,
            bit_position: 0,
            data: Vec::new(),
            instructions: Vec::new(),
            length_positions: Vec::new(),
        };
        proof {
            assert(p@.instructions =~= Seq::<nat>::empty());
            assert(p@.length_positions =~= Seq::<(nat, nat)>::empty());
        }
        p
    }

    pub fn from_vec(bytes: Vec<u8>) -> (p: Self)
        ensures
            p.wf(),
            p@.position == 0,
            p@.bit_position == 0,
            p@.data == bytes@,
            p@.instructions == Seq::<nat>::empty(),
            p@.length_positions == Seq::<(nat, nat)>::empty(),
    {
        let p = Packet {
            position: 0,
            bit_position: 0,
            data: bytes,
            instructions: Vec::new(),
            length_positions: Vec::new(),
        };
        proof {
            assert(p@.instructions =~= Seq::<nat>::empty());
            assert(p@.length_positions =~= Seq::<(nat, nat)>::empty());
        }
        p
    }

    pub fn from_slice(bytes: &[u8]) -> (p: Self)
        ensures
            p.wf(),
            p@.position == 0,
            p@.bit_position == 0,
            p@.data == bytes@,
            p@.instructions == Seq::<nat>::empty(),
            p@.length_positions == Seq::<(nat, nat)>::empty(),
    {
        let p = Packet {
            position: 0,
            bit_position: 0,
            data: slice_to_vec(bytes),
            instructions: Vec::new(),
            length_positions: Vec::new(),
        };
        proof {
            assert(p@.instructions =~= Seq::<nat>::empty());
            assert(p@.length_positions =~= Seq::<(nat, nat)>::empty());
        }
        p
    }

    pub fn rewind(&mut self)
        requires
            old(self).wf(),
        ensures
            final(self).wf(),
            final(self)@ == (PacketModel { position: 0, bit_position: 0, ..old(self)@ }),
    {
        self.position = 0;
        self.bit_position = 0;
    }

    pub fn set_bits(&mut self, size: usize) -> (r: &mut Self)
        requires
            old(self).wf(),
        ensures
            *final(self) == *final(r),
            r.wf(),
            r@ == (PacketModel { instructions: old(self)@.instructions.push(size as nat), ..old(self)@ }),
    {
        let instruction = BitsetInstruction { bits: size };
        self.instructions.push(instruction);
        proof {
            assert(self@.instructions =~= old(self)@.instructions.push(size as nat));
        }
        self
    }

    proof fn lemma_pop_view(&self, other: &Self)
        requires
            self.instructions@.len() > 0,
            other.instructions@ == self.instructions@.drop_last(),
        ensures
            other@.instructions == self@.instructions.drop_last(),
    {
        assert(other@.instructions =~= self@.instructions.drop_last());
    }

    /// Copies `part` into `self.data` from index `at`.
    fn write_at(&mut self, at: usize, part: &[u8])
        requires
            at + part@.len() <= old(self).data@.len(),
        ensures
            final(self).data@ == splice(old(self).data@, at as nat, part@),
            final(self).position == old(self).position,
            final(self).bit_position == old(self).bit_position,
            final(self).instructions == old(self).instructions,
            final(self).length_positions == old(self).length_positions,
    {
        let ghost d0 = self.data@;
        let mut j: usize = 0;
        while j < part.len()
            invariant
                at + part@.len() <= d0.len(),
                at + part@.len() <= self.data.len(),
                j <= part@.len(),
                self.data@.len() == d0.len(),
                self.data@ =~= d0.subrange(0, at as int) + part@.subrange(0, j as int) + d0.subrange(
                    (at + j) as int,
                    d0.len() as int,
                ),
                self.position == old(self).position,
                self.bit_position == old(self).bit_position,
                self.instructions == old(self).instructions,
                self.length_positions == old(self).length_positions,
            decreases part@.len() - j,
        {
            self.data.set(at + j, part[j]);
            j = j + 1;
        }
        assert(part@.subrange(0, part@.len() as int) =~= part@);
    }

    /// Grows the data with zeros to at least `n` bytes.
    fn grow_to(&mut self, n: usize)
        ensures
            final(self).data@ == grow(old(self).data@, n as nat),
            final(self).position == old(self).position,
            final(self).bit_position == old(self).bit_position,
            final(self).instructions == old(self).instructions,
            final(self).length_positions == old(self).length_positions,
    {
        if self.data.len() < n {
            let ghost d0 = self.data@;
            self.data.resize(n, 0);
            assert(self.data@ =~= grow(d0, n as nat));
        }
    }

    /// Takes the next field: the pending bit field when there is one,
    /// `size` whole bytes otherwise.
    pub(crate) fn unpack_bytes(&mut self, size: usize) -> (res: Result<Vec<u8>, PacketError>)
        requires
            old(self).wf(),
            old(self)@.field_fits(),
            old(self)@.position + size <= usize::MAX,
        ensures
            final(self).wf(),
            old(self)@.unpack_bytes_spec(size as nat) == (final(self)@, bytes_result(res)),
    {
        let n_instr = self.instructions.len();
        if n_instr > 0 {
            let bits = self.instructions[n_instr - 1].bits;
            proof {
                self.lemma_view_instructions();
            }
            let bp = self.bit_position;
            let pos = self.position;
            let byte_count = (bp + bits + 7) / 8;
            if pos + byte_count > self.data.len() {
                return Err(PacketError::NotEnoughBytes);
            }
            let out = get_bits_le(
                slice_subrange(self.data.as_slice(), pos, pos + byte_count),
                (bp, bp + bits - 1),
            );
            let end_bit = bp + bits - 1;
            let ghost before = *self;
            self.position = pos + (bp + bits) / 8;
            self.bit_position = (end_bit + 1) % 8;
            let _ = self.instructions.pop();
            proof {
                before.lemma_pop_view(self);
                assert(self@.length_positions == before@.length_positions);
                assert(self@ == before@.advance_bits(bits as nat));
            }
            return Ok(out);
        }
        let pos = self.position;
        if pos + size > self.data.len() {
            return Err(PacketError::NotEnoughBytes);
        }
        // No instruction, just copy the bytes
        let bytes = slice_to_vec(slice_subrange(self.data.as_slice(), pos, pos + size));
        let ghost before = *self;
        self.bit_position = 0;  // Reset bit position
        self.position = pos + size;
        proof {
            assert(self@.length_positions == before@.length_positions);
            assert(self@.instructions == before@.instructions);
        }
        Ok(bytes)
    }

    /// Packs `bytes`: the low bits of `bytes` into the pending bit field when
    /// there is one, otherwise all of `bytes` at the cursor.
    pub fn pack_bytes(&mut self, bytes: &[u8]) -> (res: Result<&mut Self, PacketError>)
        requires
            old(self).wf(),
            old(self)@.room_for(bytes@.len()),
        ensures
            match res {
                Ok(r) => {
                    &&& *final(self) == *final(r)
                    &&& r.wf()
                    &&& old(self)@.pack_bytes_spec(bytes@) == (r@, Ok::<(), PacketError>(()))
                },
                Err(e) => {
                    &&& final(self).wf()
                    &&& old(self)@.pack_bytes_spec(bytes@) == (final(self)@, Err::<(), PacketError>(e))
                },
            },
    {
        let n_instr = self.instructions.len();
        proof {
            self.lemma_view_instructions();
        }
        if n_instr > 0 {
            let bits = self.instructions[n_instr - 1].bits;
            if bits == 0 {
                return Err(PacketError::InvalidInstruction);
            }
            let bp = self.bit_position;
            let pos = self.position;
            // Use instruction.bits as *length* of the instruction
            let byte_count = (bp + bits + 7) / 8;
            let ghost before = *self;

            // Resize to accommodate the instruction size
            self.grow_to(pos + byte_count);

            // Note: bit_position is guaranteed to be 0-7
            let end_bit = bp + bits - 1;

            // Get n-amount of bits from the `bytes` to be stored in the `data` array
            let input_bytes = get_bits_le(bytes, (0, bits - 1));
            let mut window = slice_to_vec(slice_subrange(self.data.as_slice(), pos, pos + byte_count));
            set_bits_le(window.as_mut_slice(), (bp, end_bit), input_bytes.as_slice());
            self.write_at(pos, window.as_slice());
            let ghost written = *self;

            // Position needs to be updated as many times as full bytes were written
            self.position = pos + (bp + bits) / 8;
            self.bit_position = (end_bit + 1) % 8;
            let _ = self.instructions.pop();
            proof {
                written.lemma_pop_view(self);
                assert(self@.length_positions == before@.length_positions);
                let grown = grow(before@.data, (pos + byte_count) as nat);
                assert(written@.data == splice(grown, pos as nat, window@));
                assert(self@ == (PacketModel { data: splice(grown, pos as nat, window@), ..before@ }).advance_bits(bits as nat));
            }
            Ok(self)
        } else {
            let ghost before = *self;
            // Normal packing ignores the bit position, and reset it to 0
            self.bit_position = 0;

            let pos = self.position;
            let size = bytes.len();
            self.grow_to(pos + size);

            // No instruction, just copy the bytes
            self.write_at(pos, bytes);
            self.position = pos + size;
            proof {
                assert(self@.length_positions == before@.length_positions);
                assert(self@.instructions == before@.instructions);
                let grown = grow(before@.data, (pos + size) as nat);
                assert(self@ == (PacketModel { data: splice(grown, pos as nat, bytes@), ..before@ }).advance_bytes(size as nat));
            }
            Ok(self)
        }
    }

    /// Advances past the next field when it equals `bytes_eq`: the pending
    /// bit field when there is one, otherwise `bytes_eq.len()` whole bytes.
    pub fn next_if_eq(&mut self, bytes_eq: &[u8]) -> (res: bool)
        requires
            old(self).wf(),
            old(self)@.field_fits(),
            old(self)@.position + bytes_eq@.len() <= usize::MAX,
        ensures
            final(self).wf(),
            old(self)@.next_if_eq_spec(bytes_eq@) == (final(self)@, res),
    {
        let n_instr = self.instructions.len();
        proof {
            self.lemma_view_instructions();
        }
        if n_instr > 0 {
            let bits = self.instructions[n_instr - 1].bits;
            let bp = self.bit_position;
            let pos = self.position;
            let byte_count = (bp + bits + 7) / 8;
            let end_bit = bp + bits - 1;
            if pos + byte_count > self.data.len() {
                return false;
            }
            let field = get_bits_le(
                slice_subrange(self.data.as_slice(), pos, pos + byte_count),
                (bp, end_bit),
            );
            let res = slices_equal(field.as_slice(), bytes_eq);
            if res {
                let ghost before = *self;
                // The cursor moves past the field, as when the field is read.
                self.position = pos + (bp + bits) / 8;
                self.bit_position = (end_bit + 1) % 8;
                let _ = self.instructions.pop();
                proof {
                    before.lemma_pop_view(self);
                    assert(self@.length_positions == before@.length_positions);
                }
            }
            res
        } else {
            let pos = self.position;
            let n = bytes_eq.len();
            let res = pos + n <= self.data.len() && slices_equal(
                slice_subrange(self.data.as_slice(), pos, pos + n),
                bytes_eq,
            );
            if res {
                let ghost before = *self;
                self.bit_position = 0;
                self.position = pos + n;
                proof {
                    assert(self@.length_positions == before@.length_positions);
                    assert(self@.instructions == before@.instructions);
                }
            }
            res
        }
    }

    /// A copy of the data from the cursor to the end.
    pub(crate) fn rest(&self) -> (r: Vec<u8>)
        requires
            self.wf(),
        ensures
            r@ == self@.data.subrange(self@.position as int, self@.data.len() as int),
    {
        slice_to_vec(slice_subrange(self.data.as_slice(), self.position, self.data.len()))
    }

    /// Returns the data with every recorded length field filled in.
    pub fn get_bytes(&mut self) -> (r: &[u8])
        requires
            old(self).wf(),
        ensures
            final(self).wf(),
            final(self)@ == (PacketModel { data: old(self)@.filled_data(), ..old(self)@ }),
            r@ == final(self)@.data,
    {
        let ghost m0 = self@;
        let total = self.data.len();
        let n = self.length_positions.len();
        let mut idx: usize = 0;
        while idx < n
            invariant
                m0.wf(),
                n == m0.length_positions.len(),
                n == self.length_positions@.len(),
                total == m0.data.len(),
                idx <= n,
                self@ == (PacketModel {
                    data: fill_lengths(m0.data, m0.length_positions.take(idx as int), total as nat),
                    ..m0
                }),
                self@.data.len() == total,
            decreases n - idx,
        {
            let lp = self.length_positions[idx];
            proof {
                assert(self@.length_positions[idx as int] == (lp.position as nat, lp.bytes as nat));
            }
            let length = (total - 1) - (lp.position + lp.bytes - 1);
            let width = if lp.bytes < 8 {
                lp.bytes
            } else {
                8
            };
            let len_bytes = u128_to_le(length as u128, width);
            proof {
                lemma_le_bytes_len(length as nat, width as nat);
            }
            let ghost before = *self;
            self.write_at(lp.position, len_bytes.as_slice());
            proof {
                assert(self@.length_positions == before@.length_positions);
                assert(self@.instructions == before@.instructions);
                let lps = m0.length_positions;
                assert(lps.take(idx + 1).drop_last() =~= lps.take(idx as int));
                assert(lps.take(idx + 1).last() == lps[idx as int]);
            }
            idx = idx + 1;
        }
        proof {
            assert(m0.length_positions.take(n as int) =~= m0.length_positions);
        }
        &self.data
    }

    /// Whether a length field at `lp` is already recorded.
    fn has_length_position(&self, lp: LengthPosition) -> (r: bool)
        ensures
            r == self@.length_positions.contains((lp.position as nat, lp.bytes as nat)),
    {
        let mut i: usize = 0;
        while i < self.length_positions.len()
            invariant
                i <= self.length_positions@.len(),
                forall|j: int|
                    0 <= j < i ==> self@.length_positions[j] != (lp.position as nat, lp.bytes as nat),
            decreases self.length_positions@.len() - i,
        {
            let other = self.length_positions[i];
            if other.position == lp.position && other.bytes == lp.bytes {
                proof {
                    assert(self@.length_positions[i as int] == (lp.position as nat, lp.bytes as nat));
                }
                return true;
            }
            i = i + 1;
        }
        false
    }

    /// Reserves a length field of the width of `T` at the cursor (written as
    /// zeros now, filled in by `get_bytes`).
    pub fn pack_length<T: FromToPacket + Default>(&mut self) -> (res: Result<&mut Self, PacketError>)
        requires
            old(self).wf(),
            1 <= vstd::layout::size_of::<T>(),
            old(self)@.position + vstd::layout::size_of::<T>() <= usize::MAX,
        ensures
            match res {
                Ok(r) => {
                    &&& *final(self) == *final(r)
                    &&& r.wf()
                    &&& old(self)@.pack_length_spec(vstd::layout::size_of::<T>()) == (r@, Ok::<(), PacketError>(()))
                },
                Err(e) => {
                    &&& final(self).wf()
                    &&& old(self)@.pack_length_spec(vstd::layout::size_of::<T>()) == (final(self)@, Err::<(), PacketError>(e))
                },
            },
    {
        // Only allow packing length if no instructions are present
        if self.instructions.len() > 0 {
            return Err(PacketError::InvalidInstruction);
        }
        let bytes = core::mem::size_of::<T>();
        let lp = LengthPosition { position: self.position, bytes };
        let zero_bytes = vec![0u8; bytes];
        proof {
            assert(zero_bytes@ =~= zeros(bytes as nat));
        }
        let ghost before = *self;
        match self.pack_bytes(zero_bytes.as_slice()) {
            Ok(_) => {},
            Err(e) => {
                return Err(e);
            },
        }
        let ghost packed = *self;
        if !self.has_length_position(lp) {
            self.length_positions.push(lp);
            proof {
                assert(self@.length_positions =~= packed@.length_positions.push((lp.position as nat, lp.bytes as nat)));
                assert(self@.instructions == packed@.instructions);
                assert forall|i: int, j: int|
                    0 <= i < j < self@.length_positions.len() implies self@.length_positions[i]
                    != self@.length_positions[j] by {
                    if j == self@.length_positions.len() - 1 {
                        assert(packed@.length_positions.contains(self@.length_positions[i]));
                    }
                }
            }
        }
        Ok(self)
    }

    /// Skips a length field of type `T` (its value is not checked).
    pub fn unpack_length<T: FromToPacket>(&mut self) -> (res: Result<&mut Self, PacketError>)
        requires
            old(self).wf(),
            old(self)@.has_instruction() || T::from_packet_requires(old(self)@),
        ensures
            match res {
                Ok(r) => {
                    &&& *final(self) == *final(r)
                    &&& r.wf()
                    &&& old(self)@.unpack_length_spec::<T>() == (r@, Ok::<(), PacketError>(()))
                },
                Err(e) => {
                    &&& final(self).wf()
                    &&& old(self)@.unpack_length_spec::<T>() == (final(self)@, Err::<(), PacketError>(e))
                },
            },
    {
        // Only allow unpacking length if no instructions are present
        if self.instructions.len() > 0 {
            return Err(PacketError::InvalidInstruction);
        }
        // Ignore the length
        match T::from_packet(self) {
            Ok(_) => Ok(self),
            Err(e) => Err(e),
        }
    }

    /// Reads a `T` at the cursor.
    pub fn unpack<T: FromToPacket>(&mut self) -> (res: Result<T, PacketError>)
        requires
            old(self).wf(),
            T::from_packet_requires(old(self)@),
        ensures
            final(self).wf(),
            T::from_packet_spec(old(self)@) == (final(self)@, view_result(res)),
    {
        T::from_packet(self)
    }

    /// Writes `bytes` at the cursor.
    pub fn pack<T: FromToPacket>(&mut self, bytes: &T) -> (res: Result<&mut Self, PacketError>)
        requires
            old(self).wf(),
            bytes.to_packet_requires(old(self)@),
        ensures
            match res {
                Ok(r) => {
                    &&& *final(self) == *final(r)
                    &&& r.wf()
                    &&& bytes.to_packet_spec(old(self)@) == (r@, Ok::<(), PacketError>(()))
                },
                Err(e) => {
                    &&& final(self).wf()
                    &&& bytes.to_packet_spec(old(self)@) == (final(self)@, Err::<(), PacketError>(e))
                },
            },
    {
        let r = bytes.to_packet(self);
        match r {
            Ok(u) => {
                assert(r == Ok::<(), PacketError>(u));
                Ok(self)
            },
            Err(e) => Err(e),
        }
    }
}

/// A result with its value replaced by the value's view.
pub open spec fn view_result<T: View>(r: Result<T, PacketError>) -> Result<T::V, PacketError> {
    match r {
        Ok(v) => Ok(v@),
        Err(e) => Err(e),
    }
}

/// Values that can be read from and written to a `Packet`.
pub trait FromToPacket: Sized + View {
    /// `from_packet` can run on a packet in state `m` without overflow or panic.
    spec fn from_packet_requires(m: PacketModel) -> bool;

    /// What `from_packet` returns on a packet in state `m`, and the state it leaves.
    spec fn from_packet_spec(m: PacketModel) -> (PacketModel, Result<Self::V, PacketError>);

    /// `to_packet` can run on a packet in state `m` without overflow or panic.
    spec fn to_packet_requires(&self, m: PacketModel) -> bool;

    /// What `to_packet` returns on a packet in state `m`, and the state it leaves.
    spec fn to_packet_spec(&self, m: PacketModel) -> (PacketModel, Result<(), PacketError>);

    fn from_packet(bytes: &mut Packet) -> (res: Result<Self, PacketError>)
        where Self: Sized
        requires
            old(bytes).wf(),
            Self::from_packet_requires(old(bytes)@),
        ensures
            final(bytes).wf(),
            Self::from_packet_spec(old(bytes)@) == (final(bytes)@, view_result(res)),
    ;

    fn to_packet(&self, bytes: &mut Packet) -> (res: Result<(), PacketError>)
        requires
            old(bytes).wf(),
            self.to_packet_requires(old(bytes)@),
        ensures
            final(bytes).wf(),
            self.to_packet_spec(old(bytes)@) == (final(bytes)@, res),
    ;
}

/// Whether two byte slices hold the same bytes.
pub(crate) fn slices_equal(a: &[u8], b: &[u8]) -> (r: bool)
    ensures
        r == (a@ == b@),
{
    if a.len() != b.len() {
        return false;
    }
    let mut i: usize = 0;
    while i < a.len()
        invariant
            a@.len() == b@.len(),
            i <= a@.len(),
            forall|j: int| 0 <= j < i ==> a@[j] == b@[j],
        decreases a@.len() - i,
    {
        if a[i] != b[i] {
            return false;
        }
        i = i + 1;
    }
    assert(a@ =~= b@);
    true
}

/// The bytes of a result, by their view.
pub open spec fn bytes_result(r: Result<Vec<u8>, PacketError>) -> Result<Seq<u8>, PacketError> {
    match r {
        Ok(v) => Ok(v@),
        Err(e) => Err(e),
    }
}

} // verus!
