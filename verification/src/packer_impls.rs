//! `FromToPacket` for the primitive types: little-endian integers, `bool`,
//! byte arrays and the byte vector that takes the rest of the packet.

use vstd::prelude::*;
use crate::endian::{le_value, le_bytes, pow256, u128_to_le, le_to_u128, lemma_le_value_bound, lemma_pow256_values};
use crate::packer::{FromToPacket, Packet, PacketError, PacketModel, zeros, view_result};

verus! {

/// `b` cut or zero-padded to `n` bytes.
pub open spec fn resize_spec(b: Seq<u8>, n: nat) -> Seq<u8> {
    if b.len() >= n {
        b.take(n as int)
    } else {
        b + zeros((n - b.len()) as nat)
    }
}

/// The unsigned value of the next field read as `size` little-endian bytes.
pub open spec fn uint_from_packet(m: PacketModel, size: nat) -> (PacketModel, Result<nat, PacketError>) {
    let (m2, r) = m.unpack_bytes_spec(size);
    (
        m2,
        match r {
            Ok(b) => Ok(le_value(resize_spec(b, size))),
            Err(e) => Err(e),
        },
    )
}

/// Reading an unsigned integer of `size` bytes can run on `m`.
pub open spec fn uint_from_packet_requires(m: PacketModel, size: nat) -> bool {
    m.field_fits() && m.position + size <= usize::MAX
}

/// Reads the next field as a little-endian unsigned number of `size` bytes.
fn unpack_uint(bytes: &mut Packet, size: usize) -> (res: Result<u128, PacketError>)
    requires
        old(bytes).wf(),
        uint_from_packet_requires(old(bytes)@, size as nat),
        1 <= size <= 16,
    ensures
        final(bytes).wf(),
        uint_from_packet(old(bytes)@, size as nat) == (final(bytes)@, match res {
            Ok(v) => Ok(v as nat),
            Err(e) => Err(e),
        }),
        res matches Ok(v) ==> v < pow256(size as nat),
{
    match bytes.unpack_bytes(size) {
        Ok(mut opbytes) => {
            let ghost b = opbytes@;
            // Pad bytes to the size of the type
            opbytes.resize(size, 0);
            proof {
                assert(opbytes@ =~= resize_spec(b, size as nat));
                lemma_le_value_bound(opbytes@);
            }
            Ok(le_to_u128(opbytes.as_slice()))
        },
        Err(e) => Err(e),
    }
}

/// Writes `v` as `size` little-endian bytes.
fn pack_uint(bytes: &mut Packet, v: u128, size: usize) -> (res: Result<(), PacketError>)
    requires
        old(bytes).wf(),
        old(bytes)@.room_for(size as nat),
        size <= 16,
    ensures
        final(bytes).wf(),
        old(bytes)@.pack_bytes_spec(le_bytes(v as nat, size as nat)) == (final(bytes)@, res),
{
    let b = u128_to_le(v, size);
    proof {
        crate::endian::lemma_le_bytes_len(v as nat, size as nat);
    }
    let r = bytes.pack_bytes(b.as_slice());
    match r {
        Ok(_) => Ok(()),
        Err(e) => Err(e),
    }
}

impl FromToPacket for bool {
    open spec fn from_packet_requires(m: PacketModel) -> bool {
        uint_from_packet_requires(m, 1)
    }

    open spec fn from_packet_spec(m: PacketModel) -> (PacketModel, Result<bool, PacketError>) {
        let (m2, r) = m.unpack_bytes_spec(1);
        (
            m2,
            match r {
                Ok(b) => Ok(b[0] == 1u8),
                Err(e) => Err(e),
            },
        )
    }

    open spec fn to_packet_requires(&self, m: PacketModel) -> bool {
        m.room_for(1)
    }

    open spec fn to_packet_spec(&self, m: PacketModel) -> (PacketModel, Result<(), PacketError>) {
        m.pack_bytes_spec(seq![if *self { 1u8 } else { 0u8 }])
    }

    fn from_packet(bytes: &mut Packet) -> (res: Result<Self, PacketError>) {
        match bytes.unpack_bytes(1) {
            Ok(res) => {
                proof {
                    assert(res@.len() >= 1);
                }
                Ok(res[0] == 1u8)
            },
            Err(e) => Err(e),
        }
    }

    fn to_packet(&self, bytes: &mut Packet) -> (res: Result<(), PacketError>) {
        let b: [u8; 1] = [if *self { 1u8 } else { 0u8 }];
        proof {
            assert(b@ =~= seq![if *self { 1u8 } else { 0u8 }]);
        }
        let r = bytes.pack_bytes(b.as_slice());
        match r {
            Ok(_) => Ok(()),
            Err(e) => Err(e),
        }
    }
}


impl FromToPacket for u8 {
    open spec fn from_packet_requires(m: PacketModel) -> bool {
        uint_from_packet_requires(m, 1)
    }

    open spec fn from_packet_spec(m: PacketModel) -> (PacketModel, Result<u8, PacketError>) {
        let (m2, r) = uint_from_packet(m, 1);
        (
            m2,
            match r {
                Ok(v) => Ok(v as u8),
                Err(e) => Err(e),
            },
        )
    }

    open spec fn to_packet_requires(&self, m: PacketModel) -> bool {
        m.room_for(1)
    }

    open spec fn to_packet_spec(&self, m: PacketModel) -> (PacketModel, Result<(), PacketError>) {
        m.pack_bytes_spec(le_bytes(*self as nat, 1))
    }

    fn from_packet(bytes: &mut Packet) -> (res: Result<Self, PacketError>) {
        match unpack_uint(bytes, 1) {
            Ok(v) => {
                proof {
                    lemma_pow256_values();
                }
                Ok(v as u8)
            },
            Err(e) => Err(e),
        }
    }

    fn to_packet(&self, bytes: &mut Packet) -> (res: Result<(), PacketError>) {
        pack_uint(bytes, *self as u128, 1)
    }
}

impl FromToPacket for u16 {
    open spec fn from_packet_requires(m: PacketModel) -> bool {
        uint_from_packet_requires(m, 2)
    }

    open spec fn from_packet_spec(m: PacketModel) -> (PacketModel, Result<u16, PacketError>) {
        let (m2, r) = uint_from_packet(m, 2);
        (
            m2,
            match r {
                Ok(v) => Ok(v as u16),
                Err(e) => Err(e),
            },
        )
    }

    open spec fn to_packet_requires(&self, m: PacketModel) -> bool {
        m.room_for(2)
    }

    open spec fn to_packet_spec(&self, m: PacketModel) -> (PacketModel, Result<(), PacketError>) {
        m.pack_bytes_spec(le_bytes(*self as nat, 2))
    }

    fn from_packet(bytes: &mut Packet) -> (res: Result<Self, PacketError>) {
        match unpack_uint(bytes, 2) {
            Ok(v) => {
                proof {
                    lemma_pow256_values();
                }
                Ok(v as u16)
            },
            Err(e) => Err(e),
        }
    }

    fn to_packet(&self, bytes: &mut Packet) -> (res: Result<(), PacketError>) {
        pack_uint(bytes, *self as u128, 2)
    }
}

impl FromToPacket for u32 {
    open spec fn from_packet_requires(m: PacketModel) -> bool {
        uint_from_packet_requires(m, 4)
    }

    open spec fn from_packet_spec(m: PacketModel) -> (PacketModel, Result<u32, PacketError>) {
        let (m2, r) = uint_from_packet(m, 4);
        (
            m2,
            match r {
                Ok(v) => Ok(v as u32),
                Err(e) => Err(e),
            },
        )
    }

    open spec fn to_packet_requires(&self, m: PacketModel) -> bool {
        m.room_for(4)
    }

    open spec fn to_packet_spec(&self, m: PacketModel) -> (PacketModel, Result<(), PacketError>) {
        m.pack_bytes_spec(le_bytes(*self as nat, 4))
    }

    fn from_packet(bytes: &mut Packet) -> (res: Result<Self, PacketError>) {
        match unpack_uint(bytes, 4) {
            Ok(v) => {
                proof {
                    lemma_pow256_values();
                }
                Ok(v as u32)
            },
            Err(e) => Err(e),
        }
    }

    fn to_packet(&self, bytes: &mut Packet) -> (res: Result<(), PacketError>) {
        pack_uint(bytes, *self as u128, 4)
    }
}

impl FromToPacket for u64 {
    open spec fn from_packet_requires(m: PacketModel) -> bool {
        uint_from_packet_requires(m, 8)
    }

    open spec fn from_packet_spec(m: PacketModel) -> (PacketModel, Result<u64, PacketError>) {
        let (m2, r) = uint_from_packet(m, 8);
        (
            m2,
            match r {
                Ok(v) => Ok(v as u64),
                Err(e) => Err(e),
            },
        )
    }

    open spec fn to_packet_requires(&self, m: PacketModel) -> bool {
        m.room_for(8)
    }

    open spec fn to_packet_spec(&self, m: PacketModel) -> (PacketModel, Result<(), PacketError>) {
        m.pack_bytes_spec(le_bytes(*self as nat, 8))
    }

    fn from_packet(bytes: &mut Packet) -> (res: Result<Self, PacketError>) {
        match unpack_uint(bytes, 8) {
            Ok(v) => {
                proof {
                    lemma_pow256_values();
                }
                Ok(v as u64)
            },
            Err(e) => Err(e),
        }
    }

    fn to_packet(&self, bytes: &mut Packet) -> (res: Result<(), PacketError>) {
        pack_uint(bytes, *self as u128, 8)
    }
}

impl FromToPacket for u128 {
    open spec fn from_packet_requires(m: PacketModel) -> bool {
        uint_from_packet_requires(m, 16)
    }

    open spec fn from_packet_spec(m: PacketModel) -> (PacketModel, Result<u128, PacketError>) {
        let (m2, r) = uint_from_packet(m, 16);
        (
            m2,
            match r {
                Ok(v) => Ok(v as u128),
                Err(e) => Err(e),
            },
        )
    }

    open spec fn to_packet_requires(&self, m: PacketModel) -> bool {
        m.room_for(16)
    }

    open spec fn to_packet_spec(&self, m: PacketModel) -> (PacketModel, Result<(), PacketError>) {
        m.pack_bytes_spec(le_bytes(*self as nat, 16))
    }

    fn from_packet(bytes: &mut Packet) -> (res: Result<Self, PacketError>) {
        match unpack_uint(bytes, 16) {
            Ok(v) => {
                proof {
                    lemma_pow256_values();
                }
                Ok(v as u128)
            },
            Err(e) => Err(e),
        }
    }

    fn to_packet(&self, bytes: &mut Packet) -> (res: Result<(), PacketError>) {
        pack_uint(bytes, *self as u128, 16)
    }
}

impl FromToPacket for i8 {
    open spec fn from_packet_requires(m: PacketModel) -> bool {
        uint_from_packet_requires(m, 1)
    }

    /// The two's complement number of the next 1 little-endian bytes.
    open spec fn from_packet_spec(m: PacketModel) -> (PacketModel, Result<i8, PacketError>) {
        let (m2, r) = uint_from_packet(m, 1);
        (
            m2,
            match r {
                Ok(v) => Ok((v as u8) as i8),
                Err(e) => Err(e),
            },
        )
    }

    open spec fn to_packet_requires(&self, m: PacketModel) -> bool {
        m.room_for(1)
    }

    /// The 1 little-endian bytes of the two's complement of the number.
    open spec fn to_packet_spec(&self, m: PacketModel) -> (PacketModel, Result<(), PacketError>) {
        m.pack_bytes_spec(le_bytes((*self as u8) as nat, 1))
    }

    fn from_packet(bytes: &mut Packet) -> (res: Result<Self, PacketError>) {
        match unpack_uint(bytes, 1) {
            Ok(v) => {
                proof {
                    lemma_pow256_values();
                }
                Ok((v as u8) as i8)
            },
            Err(e) => Err(e),
        }
    }

    fn to_packet(&self, bytes: &mut Packet) -> (res: Result<(), PacketError>) {
        pack_uint(bytes, (*self as u8) as u128, 1)
    }
}

impl FromToPacket for i16 {
    open spec fn from_packet_requires(m: PacketModel) -> bool {
        uint_from_packet_requires(m, 2)
    }

    /// The two's complement number of the next 2 little-endian bytes.
    open spec fn from_packet_spec(m: PacketModel) -> (PacketModel, Result<i16, PacketError>) {
        let (m2, r) = uint_from_packet(m, 2);
        (
            m2,
            match r {
                Ok(v) => Ok((v as u16) as i16),
                Err(e) => Err(e),
            },
        )
    }

    open spec fn to_packet_requires(&self, m: PacketModel) -> bool {
        m.room_for(2)
    }

    /// The 2 little-endian bytes of the two's complement of the number.
    open spec fn to_packet_spec(&self, m: PacketModel) -> (PacketModel, Result<(), PacketError>) {
        m.pack_bytes_spec(le_bytes((*self as u16) as nat, 2))
    }

    fn from_packet(bytes: &mut Packet) -> (res: Result<Self, PacketError>) {
        match unpack_uint(bytes, 2) {
            Ok(v) => {
                proof {
                    lemma_pow256_values();
                }
                Ok((v as u16) as i16)
            },
            Err(e) => Err(e),
        }
    }

    fn to_packet(&self, bytes: &mut Packet) -> (res: Result<(), PacketError>) {
        pack_uint(bytes, (*self as u16) as u128, 2)
    }
}

impl FromToPacket for i32 {
    open spec fn from_packet_requires(m: PacketModel) -> bool {
        uint_from_packet_requires(m, 4)
    }

    /// The two's complement number of the next 4 little-endian bytes.
    open spec fn from_packet_spec(m: PacketModel) -> (PacketModel, Result<i32, PacketError>) {
        let (m2, r) = uint_from_packet(m, 4);
        (
            m2,
            match r {
                Ok(v) => Ok((v as u32) as i32),
                Err(e) => Err(e),
            },
        )
    }

    open spec fn to_packet_requires(&self, m: PacketModel) -> bool {
        m.room_for(4)
    }

    /// The 4 little-endian bytes of the two's complement of the number.
    open spec fn to_packet_spec(&self, m: PacketModel) -> (PacketModel, Result<(), PacketError>) {
        m.pack_bytes_spec(le_bytes((*self as u32) as nat, 4))
    }

    fn from_packet(bytes: &mut Packet) -> (res: Result<Self, PacketError>) {
        match unpack_uint(bytes, 4) {
            Ok(v) => {
                proof {
                    lemma_pow256_values();
                }
                Ok((v as u32) as i32)
            },
            Err(e) => Err(e),
        }
    }

    fn to_packet(&self, bytes: &mut Packet) -> (res: Result<(), PacketError>) {
        pack_uint(bytes, (*self as u32) as u128, 4)
    }
}

impl FromToPacket for i64 {
    open spec fn from_packet_requires(m: PacketModel) -> bool {
        uint_from_packet_requires(m, 8)
    }

    /// The two's complement number of the next 8 little-endian bytes.
    open spec fn from_packet_spec(m: PacketModel) -> (PacketModel, Result<i64, PacketError>) {
        let (m2, r) = uint_from_packet(m, 8);
        (
            m2,
            match r {
                Ok(v) => Ok((v as u64) as i64),
                Err(e) => Err(e),
            },
        )
    }

    open spec fn to_packet_requires(&self, m: PacketModel) -> bool {
        m.room_for(8)
    }

    /// The 8 little-endian bytes of the two's complement of the number.
    open spec fn to_packet_spec(&self, m: PacketModel) -> (PacketModel, Result<(), PacketError>) {
        m.pack_bytes_spec(le_bytes((*self as u64) as nat, 8))
    }

    fn from_packet(bytes: &mut Packet) -> (res: Result<Self, PacketError>) {
        match unpack_uint(bytes, 8) {
            Ok(v) => {
                proof {
                    lemma_pow256_values();
                }
                Ok((v as u64) as i64)
            },
            Err(e) => Err(e),
        }
    }

    fn to_packet(&self, bytes: &mut Packet) -> (res: Result<(), PacketError>) {
        pack_uint(bytes, (*self as u64) as u128, 8)
    }
}

impl FromToPacket for i128 {
    open spec fn from_packet_requires(m: PacketModel) -> bool {
        uint_from_packet_requires(m, 16)
    }

    /// The two's complement number of the next 16 little-endian bytes.
    open spec fn from_packet_spec(m: PacketModel) -> (PacketModel, Result<i128, PacketError>) {
        let (m2, r) = uint_from_packet(m, 16);
        (
            m2,
            match r {
                Ok(v) => Ok((v as u128) as i128),
                Err(e) => Err(e),
            },
        )
    }

    open spec fn to_packet_requires(&self, m: PacketModel) -> bool {
        m.room_for(16)
    }

    /// The 16 little-endian bytes of the two's complement of the number.
    open spec fn to_packet_spec(&self, m: PacketModel) -> (PacketModel, Result<(), PacketError>) {
        m.pack_bytes_spec(le_bytes((*self as u128) as nat, 16))
    }

    fn from_packet(bytes: &mut Packet) -> (res: Result<Self, PacketError>) {
        match unpack_uint(bytes, 16) {
            Ok(v) => {
                proof {
                    lemma_pow256_values();
                }
                Ok((v as u128) as i128)
            },
            Err(e) => Err(e),
        }
    }

    fn to_packet(&self, bytes: &mut Packet) -> (res: Result<(), PacketError>) {
        pack_uint(bytes, (*self as u128) as u128, 16)
    }
}

impl<const N: usize> FromToPacket for [u8; N] {
    open spec fn from_packet_requires(m: PacketModel) -> bool {
        &&& uint_from_packet_requires(m, N as nat)
        &&& m.unpack_bytes_spec(N as nat).1 matches Ok(b) ==> b.len() == N
    }

    open spec fn from_packet_spec(m: PacketModel) -> (PacketModel, Result<Seq<u8>, PacketError>) {
        m.unpack_bytes_spec(N as nat)
    }

    open spec fn to_packet_requires(&self, m: PacketModel) -> bool {
        m.room_for(N as nat)
    }

    open spec fn to_packet_spec(&self, m: PacketModel) -> (PacketModel, Result<(), PacketError>) {
        m.pack_bytes_spec(self@)
    }

    fn from_packet(bytes: &mut Packet) -> (res: Result<Self, PacketError>) {
        let mut result = [0u8; N];
        match bytes.unpack_bytes(N) {
            Ok(output) => {
                let mut i: usize = 0;
                while i < N
                    invariant
                        output@.len() == N,
                        i <= N,
                        forall|j: int| 0 <= j < i ==> result@[j] == output@[j],
                    decreases N - i,
                {
                    result[i] = output[i];
                    i = i + 1;
                }
                proof {
                    assert(result@ =~= output@);
                }
                Ok(result)
            },
            Err(e) => Err(e),
        }
    }

    fn to_packet(&self, bytes: &mut Packet) -> (res: Result<(), PacketError>) {
        let r = bytes.pack_bytes(self.as_slice());
        match r {
            Ok(_) => Ok(()),
            Err(e) => Err(e),
        }
    }
}

impl FromToPacket for Vec<u8> {
    open spec fn from_packet_requires(m: PacketModel) -> bool {
        true
    }

    /// The rest of the data from the cursor on; the cursor does not move.
    open spec fn from_packet_spec(m: PacketModel) -> (PacketModel, Result<Seq<u8>, PacketError>) {
        (m, Ok(m.data.subrange(m.position as int, m.data.len() as int)))
    }

    open spec fn to_packet_requires(&self, m: PacketModel) -> bool {
        m.room_for(self@.len())
    }

    open spec fn to_packet_spec(&self, m: PacketModel) -> (PacketModel, Result<(), PacketError>) {
        m.pack_bytes_spec(self@)
    }

    fn from_packet(bytes: &mut Packet) -> (res: Result<Self, PacketError>) {
        Ok(bytes.rest())
    }

    fn to_packet(&self, bytes: &mut Packet) -> (res: Result<(), PacketError>) {
        let r = bytes.pack_bytes(self.as_slice());
        match r {
            Ok(_) => Ok(()),
            Err(e) => Err(e),
        }
    }
}

} // verus!
