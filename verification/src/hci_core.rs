//! HCI commands and events as they are read from and written to a `Packet`:
//! a command is its two-byte opcode, a one-byte parameter length and the
//! parameters; an event is its event code, parameter length (and subevent
//! code) followed by the parameters. Also the opcode as its two bit fields
//! and the device address. What is written is read back (the roundtrip laws
//! at the end of the file).
use vstd::prelude::*;
use crate::endian::le_bytes;
use crate::fixed_utf8::{no_nul, FixedSizeUtf8};
use crate::hci_types::{
    with_bits, lemma_match_tag_frame, lemma_read_status, lemma_read_tag, read_bits, status_bytes, write_bits,
    AddressType, ClockAccuracy, HciStatus, Role, ScanEnable,
};
use crate::bits::{bit_of, lemma_bits_ext, lemma_bytes_from_bits};
use crate::packer::{
    byte_count, get_bits_spec, grow, set_bits_spec, splice, view_result, zeros, FromToPacket, Packet,
    PacketError, PacketModel,
};
use crate::packer_laws::{
    law_set_then_get_bits, lemma_get_bits_congruent, lemma_low_bits_fit, lemma_low_bits_of_field,
    low_bits, holds_at, lemma_holds_after_pack, lemma_holds_split, lemma_pack_concat, lemma_read_number,
    rewound_to,
};

verus! {

broadcast use vstd::layout::group_layout_axioms;

/// An HCI command. On the wire: the opcode (little endian, below as
/// bytes), a one-byte parameter length, then the parameters.
#[derive(Debug, Clone, PartialEq, Eq)]
pub enum HciCommand {
    /// id = &[0x03, 0x0C]
    Reset,
    /// id = &[0x01, 0x0c]
    SetEventMask { event_mask: u64 },
    /// id = &[0x01, 0x20]
    LeSetEventMask { event_mask: u64 },
    /// id = &[0x1a, 0x0C]
    WriteScanEnable(ScanEnable),
    /// id = &[0x16, 0x0C]
    WriteConnectionAcceptTimeout(u16),
    /// id = &[0x18, 0x0C]
    WritePageTimeout(u16),
    /// id = &[0x02, 0x10]
    ReadLocalSupportedCommands,
    /// id = &[0x09, 0x10]
    ReadBdAddr,
    /// id = &[0x02, 0x20]
    LeReadBufferSize,
    /// id = &[0x13, 0x0c]
    WriteLocalName(FixedSizeUtf8<248>),
    /// id = &[0x14, 0x0c]
    ReadLocalName { status: HciStatus, name: FixedSizeUtf8<248> },
}

/// A command with its names by value.
pub enum HciCommandView {
    Reset,
    SetEventMask { event_mask: u64 },
    LeSetEventMask { event_mask: u64 },
    WriteScanEnable(ScanEnable),
    WriteConnectionAcceptTimeout(u16),
    WritePageTimeout(u16),
    ReadLocalSupportedCommands,
    ReadBdAddr,
    LeReadBufferSize,
    WriteLocalName(Seq<char>),
    ReadLocalName { status: HciStatus, name: Seq<char> },
}

impl View for HciCommand {
    type V = HciCommandView;

    open spec fn view(&self) -> HciCommandView {
        match self {
            HciCommand::Reset => HciCommandView::Reset,
            HciCommand::SetEventMask { event_mask } => HciCommandView::SetEventMask {
                event_mask: *event_mask,
            },
            HciCommand::LeSetEventMask { event_mask } => HciCommandView::LeSetEventMask {
                event_mask: *event_mask,
            },
            HciCommand::WriteScanEnable(s) => HciCommandView::WriteScanEnable(*s),
            HciCommand::WriteConnectionAcceptTimeout(t) => HciCommandView::WriteConnectionAcceptTimeout(
                *t,
            ),
            HciCommand::WritePageTimeout(t) => HciCommandView::WritePageTimeout(*t),
            HciCommand::ReadLocalSupportedCommands => HciCommandView::ReadLocalSupportedCommands,
            HciCommand::ReadBdAddr => HciCommandView::ReadBdAddr,
            HciCommand::LeReadBufferSize => HciCommandView::LeReadBufferSize,
            HciCommand::WriteLocalName(n) => HciCommandView::WriteLocalName(n@),
            HciCommand::ReadLocalName { status, name } => HciCommandView::ReadLocalName {
                status: *status,
                name: name@,
            },
        }
    }
}

/// The opcodes of the commands, little endian, in declaration order.
pub open spec fn command_ids() -> Seq<Seq<u8>> {
    seq![
        seq![0x03u8, 0x0C],
        seq![0x01u8, 0x0c],
        seq![0x01u8, 0x20],
        seq![0x1au8, 0x0C],
        seq![0x16u8, 0x0C],
        seq![0x18u8, 0x0C],
        seq![0x02u8, 0x10],
        seq![0x09u8, 0x10],
        seq![0x02u8, 0x20],
        seq![0x13u8, 0x0c],
        seq![0x14u8, 0x0c],
    ]
}

/// The first identifier of `ids` from index `i` on that the next bytes
/// equal (its index), with the state after consuming it; the state is
/// unchanged when none matches.
pub open spec fn match_id(m: PacketModel, ids: Seq<Seq<u8>>, i: nat) -> (PacketModel, Option<nat>)
    decreases ids.len() - i,
{
    if i >= ids.len() {
        (m, None)
    } else {
        let (m1, b) = m.next_if_eq_spec(ids[i as int]);
        if b {
            (m1, Some(i))
        } else {
            match_id(m, ids, i + 1)
        }
    }
}

/// Reading an identifier at a byte boundary with no width pending moves
/// the cursor by at most the identifier's length and changes nothing else.
proof fn lemma_match_id_frame(m: PacketModel, ids: Seq<Seq<u8>>, i: nat, width: nat)
    requires
        !m.has_instruction(),
        forall|j: int| 0 <= j < ids.len() ==> #[trigger] ids[j].len() == width,
    ensures
        ({
            let m1 = match_id(m, ids, i).0;
            &&& m1.instructions == m.instructions
            &&& m1.data == m.data
            &&& m1.length_positions == m.length_positions
            &&& m.position <= m1.position <= m.position + width
            &&& m1.bit_position == 0 || m1 == m
        }),
    decreases ids.len() - i,
{
    if i < ids.len() {
        lemma_match_id_frame(m, ids, i + 1, width);
    }
}

/// Tries each two-byte identifier of `ids` in turn on the next bytes and
/// consumes the first that matches.
fn next_id(bytes: &mut Packet, ids: &[[u8; 2]]) -> (r: Option<usize>)
    requires
        old(bytes).wf(),
        !old(bytes)@.has_instruction(),
        old(bytes)@.position + 2 <= usize::MAX,
    ensures
        final(bytes).wf(),
        r matches Some(i) ==> i < ids@.len(),
        match_id(old(bytes)@, ids@.map_values(|a: [u8; 2]| a@), 0) == (final(bytes)@, match r {
            Some(i) => Some(i as nat),
            None => None::<nat>,
        }),
{
    let ghost seqs = ids@.map_values(|a: [u8; 2]| a@);
    let mut i: usize = 0;
    while i < ids.len()
        invariant
            bytes.wf(),
            bytes@ == old(bytes)@,
            !old(bytes)@.has_instruction(),
            old(bytes)@.position + 2 <= usize::MAX,
            i <= ids@.len(),
            seqs == ids@.map_values(|a: [u8; 2]| a@),
            match_id(old(bytes)@, seqs, 0) == match_id(old(bytes)@, seqs, i as nat),
        decreases ids@.len() - i,
    {
        let id = &ids[i];
        assert(seqs[i as int] == id@);
        if bytes.next_if_eq(id) {
            return Some(i);
        }
        i = i + 1;
    }
    None
}

/// The parameters of the command at index `i` of `command_ids`, read after
/// the length.
pub open spec fn command_parameters(m: PacketModel, i: nat) -> (PacketModel, Result<HciCommandView, PacketError>) {
    if i == 0 {
        (m, Ok(HciCommandView::Reset))
    } else if i == 1 || i == 2 {
        let (m1, r) = <u64 as FromToPacket>::from_packet_spec(m);
        (
            m1,
            match r {
                Ok(v) => if i == 1 {
                    Ok(HciCommandView::SetEventMask { event_mask: v })
                } else {
                    Ok(HciCommandView::LeSetEventMask { event_mask: v })
                },
                Err(e) => Err(e),
            },
        )
    } else if i == 3 {
        let (m1, r) = <ScanEnable as FromToPacket>::from_packet_spec(m);
        (
            m1,
            match r {
                Ok(v) => Ok(HciCommandView::WriteScanEnable(v)),
                Err(e) => Err(e),
            },
        )
    } else if i == 4 || i == 5 {
        let (m1, r) = <u16 as FromToPacket>::from_packet_spec(m);
        (
            m1,
            match r {
                Ok(v) => if i == 4 {
                    Ok(HciCommandView::WriteConnectionAcceptTimeout(v))
                } else {
                    Ok(HciCommandView::WritePageTimeout(v))
                },
                Err(e) => Err(e),
            },
        )
    } else if i == 6 {
        (m, Ok(HciCommandView::ReadLocalSupportedCommands))
    } else if i == 7 {
        (m, Ok(HciCommandView::ReadBdAddr))
    } else if i == 8 {
        (m, Ok(HciCommandView::LeReadBufferSize))
    } else if i == 9 {
        let (m1, r) = <FixedSizeUtf8<248> as FromToPacket>::from_packet_spec(m);
        (
            m1,
            match r {
                Ok(v) => Ok(HciCommandView::WriteLocalName(v)),
                Err(e) => Err(e),
            },
        )
    } else {
        let (m1, r1) = <HciStatus as FromToPacket>::from_packet_spec(m);
        match r1 {
            Ok(status) => {
                let (m2, r2) = <FixedSizeUtf8<248> as FromToPacket>::from_packet_spec(m1);
                (
                    m2,
                    match r2 {
                        Ok(name) => Ok(HciCommandView::ReadLocalName { status, name }),
                        Err(e) => Err(e),
                    },
                )
            },
            Err(e) => (m1, Err(e)),
        }
    }
}

/// Reads the parameters of the command at index `i` of `command_ids`.
#[verifier::rlimit(40)]
fn read_command_parameters(bytes: &mut Packet, i: usize) -> (res: Result<HciCommand, PacketError>)
    requires
        old(bytes).wf(),
        !old(bytes)@.has_instruction(),
        old(bytes)@.position + 512 <= usize::MAX,
    ensures
        final(bytes).wf(),
        command_parameters(old(bytes)@, i as nat) == (final(bytes)@, view_result(res)),
{
    if i == 0 {
        Ok(HciCommand::Reset)
    } else if i == 1 || i == 2 {
        match bytes.unpack::<u64>() {
            Ok(event_mask) => if i == 1 {
                Ok(HciCommand::SetEventMask { event_mask })
            } else {
                Ok(HciCommand::LeSetEventMask { event_mask })
            },
            Err(e) => Err(e),
        }
    } else if i == 3 {
        match bytes.unpack::<ScanEnable>() {
            Ok(s) => Ok(HciCommand::WriteScanEnable(s)),
            Err(e) => Err(e),
        }
    } else if i == 4 || i == 5 {
        match bytes.unpack::<u16>() {
            Ok(t) => if i == 4 {
                Ok(HciCommand::WriteConnectionAcceptTimeout(t))
            } else {
                Ok(HciCommand::WritePageTimeout(t))
            },
            Err(e) => Err(e),
        }
    } else if i == 6 {
        Ok(HciCommand::ReadLocalSupportedCommands)
    } else if i == 7 {
        Ok(HciCommand::ReadBdAddr)
    } else if i == 8 {
        Ok(HciCommand::LeReadBufferSize)
    } else if i == 9 {
        match bytes.unpack::<FixedSizeUtf8<248>>() {
            Ok(n) => Ok(HciCommand::WriteLocalName(n)),
            Err(e) => Err(e),
        }
    } else {
        let status = match bytes.unpack::<HciStatus>() {
            Ok(s) => s,
            Err(e) => return Err(e),
        };
        assert(!bytes@.has_instruction() && bytes@.position <= old(bytes)@.position + 1);
        match bytes.unpack::<FixedSizeUtf8<248>>() {
            Ok(name) => Ok(HciCommand::ReadLocalName { status, name }),
            Err(e) => Err(e),
        }
    }
}

impl HciCommand {
    /// The index of the command's opcode in `command_ids`.
    pub open spec fn spec_index(&self) -> nat {
        match self {
            HciCommand::Reset => 0,
            HciCommand::SetEventMask { .. } => 1,
            HciCommand::LeSetEventMask { .. } => 2,
            HciCommand::WriteScanEnable(_) => 3,
            HciCommand::WriteConnectionAcceptTimeout(_) => 4,
            HciCommand::WritePageTimeout(_) => 5,
            HciCommand::ReadLocalSupportedCommands => 6,
            HciCommand::ReadBdAddr => 7,
            HciCommand::LeReadBufferSize => 8,
            HciCommand::WriteLocalName(_) => 9,
            HciCommand::ReadLocalName { .. } => 10,
        }
    }

    /// The names of the command fit their fields.
    pub open spec fn names_fit(&self) -> bool {
        match self {
            HciCommand::WriteLocalName(n) => n.spec_bytes().len() <= 248,
            HciCommand::ReadLocalName { name, .. } => name.spec_bytes().len() <= 248,
            _ => true,
        }
    }

    /// What writing the parameters does to a packet in state `m`.
    pub open spec fn parameters_to_packet(&self, m: PacketModel) -> (PacketModel, Result<(), PacketError>) {
        match self {
            HciCommand::SetEventMask { event_mask } => event_mask.to_packet_spec(m),
            HciCommand::LeSetEventMask { event_mask } => event_mask.to_packet_spec(m),
            HciCommand::WriteScanEnable(s) => s.to_packet_spec(m),
            HciCommand::WriteConnectionAcceptTimeout(t) => t.to_packet_spec(m),
            HciCommand::WritePageTimeout(t) => t.to_packet_spec(m),
            HciCommand::WriteLocalName(n) => n.to_packet_spec(m),
            HciCommand::ReadLocalName { status, name } => {
                let (m1, r1) = status.to_packet_spec(m);
                if r1 is Err {
                    (m1, r1)
                } else {
                    name.to_packet_spec(m1)
                }
            },
            _ => (m, Ok(())),
        }
    }

    /// Writes the parameters of the command.
    #[verifier::rlimit(40)]
    fn write_parameters(&self, bytes: &mut Packet) -> (res: Result<(), PacketError>)
        requires
            old(bytes).wf(),
            !old(bytes)@.has_instruction(),
            old(bytes)@.position + 512 <= usize::MAX,
            self.names_fit(),
        ensures
            final(bytes).wf(),
            self.parameters_to_packet(old(bytes)@) == (final(bytes)@, res),
    {
        let r = match self {
            HciCommand::SetEventMask { event_mask } => bytes.pack(event_mask),
            HciCommand::LeSetEventMask { event_mask } => bytes.pack(event_mask),
            HciCommand::WriteScanEnable(s) => bytes.pack(s),
            HciCommand::WriteConnectionAcceptTimeout(t) => bytes.pack(t),
            HciCommand::WritePageTimeout(t) => bytes.pack(t),
            HciCommand::WriteLocalName(n) => bytes.pack(n),
            HciCommand::ReadLocalName { status, name } => {
                match bytes.pack(status) {
                    Ok(_) => {},
                    Err(e) => return Err(e),
                }
                assert(!bytes@.has_instruction() && bytes@.position <= old(bytes)@.position + 1) by {
                    if let HciStatus::Failure(v) = *status {
                        crate::endian::lemma_le_bytes_len(v as nat, 1);
                    }
                }
                bytes.pack(name)
            },
            _ => return Ok(()),
        };
        match r {
            Ok(_) => Ok(()),
            Err(e) => Err(e),
        }
    }
}

impl FromToPacket for HciCommand {
    open spec fn from_packet_requires(m: PacketModel) -> bool {
        !m.has_instruction() && m.position + 1024 <= usize::MAX
    }

    /// The opcode, a one-byte parameter length (read, not checked), then the
    /// parameters of the command that the opcode names.
    open spec fn from_packet_spec(m: PacketModel) -> (PacketModel, Result<HciCommandView, PacketError>) {
        let (m1, t) = match_id(m, command_ids(), 0);
        match t {
            Some(i) => {
                let (m2, r2) = m1.unpack_length_spec::<u8>();
                match r2 {
                    Ok(_) => command_parameters(m2, i),
                    Err(e) => (m2, Err(e)),
                }
            },
            None => (m1, Err(PacketError::Unspecified("No matching variant found for HciCommand"))),
        }
    }

    open spec fn to_packet_requires(&self, m: PacketModel) -> bool {
        &&& !m.has_instruction()
        &&& m.position + 1024 <= usize::MAX
        &&& self.names_fit()
    }

    /// The opcode, a one-byte length field filled in when the bytes are
    /// taken, then the parameters.
    open spec fn to_packet_spec(&self, m: PacketModel) -> (PacketModel, Result<(), PacketError>) {
        let (m1, r1) = m.pack_bytes_spec(command_ids()[self.spec_index() as int]);
        if r1 is Err {
            (m1, r1)
        } else {
            let (m2, r2) = m1.pack_length_spec(1);
            if r2 is Err {
                (m2, r2)
            } else {
                self.parameters_to_packet(m2)
            }
        }
    }

    fn from_packet(bytes: &mut Packet) -> (res: Result<Self, PacketError>) {
        let ids: [[u8; 2]; 11] = [
            [0x03, 0x0C],
            [0x01, 0x0c],
            [0x01, 0x20],
            [0x1a, 0x0C],
            [0x16, 0x0C],
            [0x18, 0x0C],
            [0x02, 0x10],
            [0x09, 0x10],
            [0x02, 0x20],
            [0x13, 0x0c],
            [0x14, 0x0c],
        ];
        proof {
            assert(ids@.map_values(|a: [u8; 2]| a@) =~= command_ids());
            lemma_match_id_frame(bytes@, command_ids(), 0, 2);
        }
        let i = match next_id(bytes, &ids) {
            Some(i) => i,
            None => return Err(PacketError::Unspecified("No matching variant found for HciCommand")),
        };
        match bytes.unpack_length::<u8>() {
            Ok(_) => {},
            Err(e) => return Err(e),
        }
        read_command_parameters(bytes, i)
    }

    fn to_packet(&self, bytes: &mut Packet) -> (res: Result<(), PacketError>) {
        let id: [u8; 2] = match self {
            HciCommand::Reset => [0x03, 0x0C],
            HciCommand::SetEventMask { .. } => [0x01, 0x0c],
            HciCommand::LeSetEventMask { .. } => [0x01, 0x20],
            HciCommand::WriteScanEnable(_) => [0x1a, 0x0C],
            HciCommand::WriteConnectionAcceptTimeout(_) => [0x16, 0x0C],
            HciCommand::WritePageTimeout(_) => [0x18, 0x0C],
            HciCommand::ReadLocalSupportedCommands => [0x02, 0x10],
            HciCommand::ReadBdAddr => [0x09, 0x10],
            HciCommand::LeReadBufferSize => [0x02, 0x20],
            HciCommand::WriteLocalName(_) => [0x13, 0x0c],
            HciCommand::ReadLocalName { .. } => [0x14, 0x0c],
        };
        assert(id@ =~= command_ids()[self.spec_index() as int]);
        match bytes.pack(&id) {
            Ok(_) => {},
            Err(e) => return Err(e),
        }
        match bytes.pack_length::<u8>() {
            Ok(_) => {},
            Err(e) => return Err(e),
        }
        self.write_parameters(bytes)
    }
}

/// HCI OpCode: the command (OCF) in the low ten bits, the group (OGF) in
/// the high six bits.
#[derive(Debug, Clone, PartialEq, Eq, Copy, Default, Hash)]
pub struct OpCode(
    /// Command (OCF)
    /// bits = 10
    pub u16,
    /// Group (OGF)
    /// bits = 6
    pub u16,
);

impl View for OpCode {
    type V = OpCode;

    open spec fn view(&self) -> OpCode {
        *self
    }
}

impl FromToPacket for OpCode {
    open spec fn from_packet_requires(m: PacketModel) -> bool {
        m.position + 64 <= usize::MAX
    }

    /// The command from a ten-bit field, then the group from a six-bit field.
    open spec fn from_packet_spec(m: PacketModel) -> (PacketModel, Result<OpCode, PacketError>) {
        let (m1, r1) = read_bits::<u16>(m, 10);
        if r1 is Err {
            (m1, Err(r1->Err_0))
        } else {
            let (m2, r2) = read_bits::<u16>(m1, 6);
            if r2 is Err {
                (m2, Err(r2->Err_0))
            } else {
                (m2, Ok(OpCode(r1->Ok_0, r2->Ok_0)))
            }
        }
    }

    open spec fn to_packet_requires(&self, m: PacketModel) -> bool {
        m.position + 64 <= usize::MAX
    }

    open spec fn to_packet_spec(&self, m: PacketModel) -> (PacketModel, Result<(), PacketError>) {
        let (m1, r1) = write_bits(self.0, m, 10);
        if r1 is Err {
            (m1, r1)
        } else {
            write_bits(self.1, m1, 6)
        }
    }

    fn from_packet(bytes: &mut Packet) -> (res: Result<Self, PacketError>) {
        let ocf: u16 = match bytes.set_bits(10).unpack() {
            Ok(v) => v,
            Err(e) => return Err(e),
        };
        let ogf: u16 = match bytes.set_bits(6).unpack() {
            Ok(v) => v,
            Err(e) => return Err(e),
        };
        Ok(OpCode(ocf, ogf))
    }

    fn to_packet(&self, bytes: &mut Packet) -> (res: Result<(), PacketError>) {
        match bytes.set_bits(10).pack(&self.0) {
            Ok(_) => {},
            Err(e) => return Err(e),
        }
        match bytes.set_bits(6).pack(&self.1) {
            Ok(_) => Ok(()),
            Err(e) => Err(e),
        }
    }
}

/// A Bluetooth device address, six bytes as they stand in the packet.
#[derive(Debug, Clone, PartialEq, Eq, Default)]
pub struct BdAddr(pub [u8; 6]);

impl View for BdAddr {
    type V = Seq<u8>;

    open spec fn view(&self) -> Seq<u8> {
        self.0@
    }
}

impl FromToPacket for BdAddr {
    open spec fn from_packet_requires(m: PacketModel) -> bool {
        <[u8; 6] as FromToPacket>::from_packet_requires(m)
    }

    open spec fn from_packet_spec(m: PacketModel) -> (PacketModel, Result<Seq<u8>, PacketError>) {
        <[u8; 6] as FromToPacket>::from_packet_spec(m)
    }

    open spec fn to_packet_requires(&self, m: PacketModel) -> bool {
        self.0.to_packet_requires(m)
    }

    open spec fn to_packet_spec(&self, m: PacketModel) -> (PacketModel, Result<(), PacketError>) {
        self.0.to_packet_spec(m)
    }

    fn from_packet(bytes: &mut Packet) -> (res: Result<Self, PacketError>) {
        match bytes.unpack::<[u8; 6]>() {
            Ok(a) => Ok(BdAddr(a)),
            Err(e) => Err(e),
        }
    }

    fn to_packet(&self, bytes: &mut Packet) -> (res: Result<(), PacketError>) {
        match bytes.pack(&self.0) {
            Ok(_) => Ok(()),
            Err(e) => Err(e),
        }
    }
}

/// An HCI event. On the wire: the identifier (below as bytes), then the
/// fields in order.
#[derive(Debug, Clone, PartialEq, Eq)]
pub enum HciEventMsg {
    /// id = &[0x3e, 0x13, 0x01]
    LeConnectionComplete {
        status: HciStatus,
        connection_handle: u16,
        role: Role,
        peer_address_type: AddressType,
        peer_address: [u8; 6],
        connection_interval: u16,
        peripheral_latency: u16,
        supervision_timeout: u16,
        central_clock_accuracy: ClockAccuracy,
    },
    /// id = &[0x0E, 0x04]
    CommandComplete { num_hci_command_packets: u8, command_opcode: u16, status: HciStatus },
    /// id = &[0x0F, 0x04]
    CommandStatus { status: HciStatus, num_hci_command_packets: u8, command_opcode: u16 },
}

/// An event with its peer address as a sequence of bytes.
pub enum HciEventMsgView {
    LeConnectionComplete {
        status: HciStatus,
        connection_handle: u16,
        role: Role,
        peer_address_type: AddressType,
        peer_address: Seq<u8>,
        connection_interval: u16,
        peripheral_latency: u16,
        supervision_timeout: u16,
        central_clock_accuracy: ClockAccuracy,
    },
    CommandComplete { num_hci_command_packets: u8, command_opcode: u16, status: HciStatus },
    CommandStatus { status: HciStatus, num_hci_command_packets: u8, command_opcode: u16 },
}

impl View for HciEventMsg {
    type V = HciEventMsgView;

    open spec fn view(&self) -> HciEventMsgView {
        match *self {
            HciEventMsg::LeConnectionComplete {
                status,
                connection_handle,
                role,
                peer_address_type,
                peer_address,
                connection_interval,
                peripheral_latency,
                supervision_timeout,
                central_clock_accuracy,
            } => HciEventMsgView::LeConnectionComplete {
                status,
                connection_handle,
                role,
                peer_address_type,
                peer_address: peer_address@,
                connection_interval,
                peripheral_latency,
                supervision_timeout,
                central_clock_accuracy,
            },
            HciEventMsg::CommandComplete { num_hci_command_packets, command_opcode, status } =>
                HciEventMsgView::CommandComplete { num_hci_command_packets, command_opcode, status },
            HciEventMsg::CommandStatus { status, num_hci_command_packets, command_opcode } =>
                HciEventMsgView::CommandStatus { status, num_hci_command_packets, command_opcode },
        }
    }
}

/// The identifiers of the events: event code and parameter length, and for
/// the LE meta event the subevent code, in declaration order.
pub open spec fn event_ids() -> Seq<Seq<u8>> {
    seq![seq![0x3eu8, 0x13, 0x01], seq![0x0Eu8, 0x04], seq![0x0Fu8, 0x04]]
}

/// The fields of an LE connection complete event, in order.
#[verifier::opaque]
pub open spec fn le_connection_complete_fields(m: PacketModel) -> (PacketModel, Result<HciEventMsgView, PacketError>) {
    let (m1, r1) = <HciStatus as FromToPacket>::from_packet_spec(m);
    if r1 is Err {
        (m1, Err(r1->Err_0))
    } else {
        let (m2, r2) = <u16 as FromToPacket>::from_packet_spec(m1);
        if r2 is Err {
            (m2, Err(r2->Err_0))
        } else {
            let (m3, r3) = <Role as FromToPacket>::from_packet_spec(m2);
            if r3 is Err {
                (m3, Err(r3->Err_0))
            } else {
                let (m4, r4) = <AddressType as FromToPacket>::from_packet_spec(m3);
                if r4 is Err {
                    (m4, Err(r4->Err_0))
                } else {
                    let (m5, r5) = <[u8; 6] as FromToPacket>::from_packet_spec(m4);
                    if r5 is Err {
                        (m5, Err(r5->Err_0))
                    } else {
                        let (m6, r6) = <u16 as FromToPacket>::from_packet_spec(m5);
                        if r6 is Err {
                            (m6, Err(r6->Err_0))
                        } else {
                            let (m7, r7) = <u16 as FromToPacket>::from_packet_spec(m6);
                            if r7 is Err {
                                (m7, Err(r7->Err_0))
                            } else {
                                let (m8, r8) = <u16 as FromToPacket>::from_packet_spec(m7);
                                if r8 is Err {
                                    (m8, Err(r8->Err_0))
                                } else {
                                    let (m9, r9) = <ClockAccuracy as FromToPacket>::from_packet_spec(m8);
                                    if r9 is Err {
                                        (m9, Err(r9->Err_0))
                                    } else {
                                        (m9, Ok(HciEventMsgView::LeConnectionComplete {
                                            status: r1->Ok_0,
                                            connection_handle: r2->Ok_0,
                                            role: r3->Ok_0,
                                            peer_address_type: r4->Ok_0,
                                            peer_address: r5->Ok_0,
                                            connection_interval: r6->Ok_0,
                                            peripheral_latency: r7->Ok_0,
                                            supervision_timeout: r8->Ok_0,
                                            central_clock_accuracy: r9->Ok_0,
                                        }))
                                    }
                                }
                            }
                        }
                    }
                }
            }
        }
    }
}

/// The fields of a command complete event, in order.
pub open spec fn command_complete_fields(m: PacketModel) -> (PacketModel, Result<HciEventMsgView, PacketError>) {
    let (m1, r1) = <u8 as FromToPacket>::from_packet_spec(m);
    if r1 is Err {
        (m1, Err(r1->Err_0))
    } else {
        let (m2, r2) = <u16 as FromToPacket>::from_packet_spec(m1);
        if r2 is Err {
            (m2, Err(r2->Err_0))
        } else {
            let (m3, r3) = <HciStatus as FromToPacket>::from_packet_spec(m2);
            if r3 is Err {
                (m3, Err(r3->Err_0))
            } else {
                (m3, Ok(HciEventMsgView::CommandComplete {
                    num_hci_command_packets: r1->Ok_0,
                    command_opcode: r2->Ok_0,
                    status: r3->Ok_0,
                }))
            }
        }
    }
}

/// The fields of a command status event, in order.
pub open spec fn command_status_fields(m: PacketModel) -> (PacketModel, Result<HciEventMsgView, PacketError>) {
    let (m1, r1) = <HciStatus as FromToPacket>::from_packet_spec(m);
    if r1 is Err {
        (m1, Err(r1->Err_0))
    } else {
        let (m2, r2) = <u8 as FromToPacket>::from_packet_spec(m1);
        if r2 is Err {
            (m2, Err(r2->Err_0))
        } else {
            let (m3, r3) = <u16 as FromToPacket>::from_packet_spec(m2);
            if r3 is Err {
                (m3, Err(r3->Err_0))
            } else {
                (m3, Ok(HciEventMsgView::CommandStatus {
                    status: r1->Ok_0,
                    num_hci_command_packets: r2->Ok_0,
                    command_opcode: r3->Ok_0,
                }))
            }
        }
    }
}

/// Reading a status at a byte boundary with no width pending moves the
/// cursor by at most one byte and changes nothing else.
proof fn lemma_status_read_frame(m: PacketModel)
    requires
        !m.has_instruction(),
    ensures
        ({
            let m1 = <HciStatus as FromToPacket>::from_packet_spec(m).0;
            &&& !m1.has_instruction()
            &&& m.position <= m1.position <= m.position + 1
        }),
{
}

impl HciEventMsg {
    #[verifier::rlimit(60)]
    #[verifier::spinoff_prover]
    fn read_le_connection_complete(bytes: &mut Packet) -> (res: Result<HciEventMsg, PacketError>)
        requires
            old(bytes).wf(),
            !old(bytes)@.has_instruction(),
            old(bytes)@.position + 64 <= usize::MAX,
        ensures
            final(bytes).wf(),
            le_connection_complete_fields(old(bytes)@) == (final(bytes)@, view_result(res)),
    {
        proof {
            reveal(le_connection_complete_fields);
        }
        proof {
            lemma_status_read_frame(bytes@);
        }
        let status: HciStatus = match bytes.unpack() {
            Ok(v) => v,
            Err(e) => return Err(e),
        };
        let connection_handle: u16 = match bytes.unpack() {
            Ok(v) => v,
            Err(e) => return Err(e),
        };
        proof {
            lemma_match_tag_frame(bytes@, Role::spec_tags(), 0);
        }
        let role: Role = match bytes.unpack() {
            Ok(v) => v,
            Err(e) => return Err(e),
        };
        proof {
            lemma_match_tag_frame(bytes@, AddressType::spec_tags(), 0);
        }
        let peer_address_type: AddressType = match bytes.unpack() {
            Ok(v) => v,
            Err(e) => return Err(e),
        };
        let peer_address: [u8; 6] = match bytes.unpack() {
            Ok(v) => v,
            Err(e) => return Err(e),
        };
        let connection_interval: u16 = match bytes.unpack() {
            Ok(v) => v,
            Err(e) => return Err(e),
        };
        let peripheral_latency: u16 = match bytes.unpack() {
            Ok(v) => v,
            Err(e) => return Err(e),
        };
        let supervision_timeout: u16 = match bytes.unpack() {
            Ok(v) => v,
            Err(e) => return Err(e),
        };
        let central_clock_accuracy: ClockAccuracy = match bytes.unpack() {
            Ok(v) => v,
            Err(e) => return Err(e),
        };
        Ok(HciEventMsg::LeConnectionComplete {
            status,
            connection_handle,
            role,
            peer_address_type,
            peer_address,
            connection_interval,
            peripheral_latency,
            supervision_timeout,
            central_clock_accuracy,
        })
    }

    fn read_command_complete(bytes: &mut Packet) -> (res: Result<HciEventMsg, PacketError>)
        requires
            old(bytes).wf(),
            !old(bytes)@.has_instruction(),
            old(bytes)@.position + 64 <= usize::MAX,
        ensures
            final(bytes).wf(),
            command_complete_fields(old(bytes)@) == (final(bytes)@, view_result(res)),
    {
        let num_hci_command_packets: u8 = match bytes.unpack() {
            Ok(v) => v,
            Err(e) => return Err(e),
        };
        let command_opcode: u16 = match bytes.unpack() {
            Ok(v) => v,
            Err(e) => return Err(e),
        };
        let status: HciStatus = match bytes.unpack() {
            Ok(v) => v,
            Err(e) => return Err(e),
        };
        Ok(HciEventMsg::CommandComplete { num_hci_command_packets, command_opcode, status })
    }

    fn read_command_status(bytes: &mut Packet) -> (res: Result<HciEventMsg, PacketError>)
        requires
            old(bytes).wf(),
            !old(bytes)@.has_instruction(),
            old(bytes)@.position + 64 <= usize::MAX,
        ensures
            final(bytes).wf(),
            command_status_fields(old(bytes)@) == (final(bytes)@, view_result(res)),
    {
        proof {
            lemma_status_read_frame(bytes@);
        }
        let status: HciStatus = match bytes.unpack() {
            Ok(v) => v,
            Err(e) => return Err(e),
        };
        let num_hci_command_packets: u8 = match bytes.unpack() {
            Ok(v) => v,
            Err(e) => return Err(e),
        };
        let command_opcode: u16 = match bytes.unpack() {
            Ok(v) => v,
            Err(e) => return Err(e),
        };
        Ok(HciEventMsg::CommandStatus { status, num_hci_command_packets, command_opcode })
    }
}

impl HciEventMsg {
    /// The index of the event's identifier in `event_ids`.
    pub open spec fn spec_index(&self) -> int {
        match self {
            HciEventMsg::LeConnectionComplete { .. } => 0,
            HciEventMsg::CommandComplete { .. } => 1,
            HciEventMsg::CommandStatus { .. } => 2,
        }
    }

    /// What writing the fields does to a packet in state `m`.
    pub open spec fn fields_to_packet(&self, m: PacketModel) -> (PacketModel, Result<(), PacketError>) {
        match *self {
            HciEventMsg::LeConnectionComplete {
                status,
                connection_handle,
                role,
                peer_address_type,
                peer_address,
                connection_interval,
                peripheral_latency,
                supervision_timeout,
                central_clock_accuracy,
            } => {
                let (m1, r1) = status.to_packet_spec(m);
                if r1 is Err {
                    (m1, r1)
                } else {
                    let (m2, r2) = connection_handle.to_packet_spec(m1);
                    if r2 is Err {
                        (m2, r2)
                    } else {
                        let (m3, r3) = role.to_packet_spec(m2);
                        if r3 is Err {
                            (m3, r3)
                        } else {
                            let (m4, r4) = peer_address_type.to_packet_spec(m3);
                            if r4 is Err {
                                (m4, r4)
                            } else {
                                let (m5, r5) = peer_address.to_packet_spec(m4);
                                if r5 is Err {
                                    (m5, r5)
                                } else {
                                    let (m6, r6) = connection_interval.to_packet_spec(m5);
                                    if r6 is Err {
                                        (m6, r6)
                                    } else {
                                        let (m7, r7) = peripheral_latency.to_packet_spec(m6);
                                        if r7 is Err {
                                            (m7, r7)
                                        } else {
                                            let (m8, r8) = supervision_timeout.to_packet_spec(m7);
                                            if r8 is Err {
                                                (m8, r8)
                                            } else {
                                                central_clock_accuracy.to_packet_spec(m8)
                                            }
                                        }
                                    }
                                }
                            }
                        }
                    }
                }
            },
            HciEventMsg::CommandComplete { num_hci_command_packets, command_opcode, status } => {
                let (m1, r1) = num_hci_command_packets.to_packet_spec(m);
                if r1 is Err {
                    (m1, r1)
                } else {
                    let (m2, r2) = command_opcode.to_packet_spec(m1);
                    if r2 is Err {
                        (m2, r2)
                    } else {
                        status.to_packet_spec(m2)
                    }
                }
            },
            HciEventMsg::CommandStatus { status, num_hci_command_packets, command_opcode } => {
                let (m1, r1) = status.to_packet_spec(m);
                if r1 is Err {
                    (m1, r1)
                } else {
                    let (m2, r2) = num_hci_command_packets.to_packet_spec(m1);
                    if r2 is Err {
                        (m2, r2)
                    } else {
                        command_opcode.to_packet_spec(m2)
                    }
                }
            },
        }
    }

    /// Writes the fields of the event.
    #[verifier::rlimit(60)]
    #[verifier::spinoff_prover]
    fn write_fields(&self, bytes: &mut Packet) -> (res: Result<(), PacketError>)
        requires
            old(bytes).wf(),
            !old(bytes)@.has_instruction(),
            old(bytes)@.position + 64 <= usize::MAX,
        ensures
            final(bytes).wf(),
            self.fields_to_packet(old(bytes)@) == (final(bytes)@, res),
    {
        let r = match self {
            HciEventMsg::LeConnectionComplete {
                status,
                connection_handle,
                role,
                peer_address_type,
                peer_address,
                connection_interval,
                peripheral_latency,
                supervision_timeout,
                central_clock_accuracy,
            } => {
                proof {
                    if let HciStatus::Failure(v) = *status {
                        crate::endian::lemma_le_bytes_len(v as nat, 1);
                    }
                    crate::endian::lemma_le_bytes_len(*connection_handle as nat, 2);
                    crate::endian::lemma_le_bytes_len(*connection_interval as nat, 2);
                    crate::endian::lemma_le_bytes_len(*peripheral_latency as nat, 2);
                    crate::endian::lemma_le_bytes_len(*supervision_timeout as nat, 2);
                }
                match bytes.pack(status) {
                    Ok(_) => {},
                    Err(e) => return Err(e),
                }
                match bytes.pack(connection_handle) {
                    Ok(_) => {},
                    Err(e) => return Err(e),
                }
                match bytes.pack(role) {
                    Ok(_) => {},
                    Err(e) => return Err(e),
                }
                match bytes.pack(peer_address_type) {
                    Ok(_) => {},
                    Err(e) => return Err(e),
                }
                match bytes.pack(peer_address) {
                    Ok(_) => {},
                    Err(e) => return Err(e),
                }
                match bytes.pack(connection_interval) {
                    Ok(_) => {},
                    Err(e) => return Err(e),
                }
                match bytes.pack(peripheral_latency) {
                    Ok(_) => {},
                    Err(e) => return Err(e),
                }
                match bytes.pack(supervision_timeout) {
                    Ok(_) => {},
                    Err(e) => return Err(e),
                }
                bytes.pack(central_clock_accuracy)
            },
            HciEventMsg::CommandComplete { num_hci_command_packets, command_opcode, status } => {
                proof {
                    crate::endian::lemma_le_bytes_len(*num_hci_command_packets as nat, 1);
                    crate::endian::lemma_le_bytes_len(*command_opcode as nat, 2);
                }
                match bytes.pack(num_hci_command_packets) {
                    Ok(_) => {},
                    Err(e) => return Err(e),
                }
                match bytes.pack(command_opcode) {
                    Ok(_) => {},
                    Err(e) => return Err(e),
                }
                bytes.pack(status)
            },
            HciEventMsg::CommandStatus { status, num_hci_command_packets, command_opcode } => {
                proof {
                    if let HciStatus::Failure(v) = *status {
                        crate::endian::lemma_le_bytes_len(v as nat, 1);
                    }
                    crate::endian::lemma_le_bytes_len(*num_hci_command_packets as nat, 1);
                }
                match bytes.pack(status) {
                    Ok(_) => {},
                    Err(e) => return Err(e),
                }
                match bytes.pack(num_hci_command_packets) {
                    Ok(_) => {},
                    Err(e) => return Err(e),
                }
                bytes.pack(command_opcode)
            },
        };
        match r {
            Ok(_) => Ok(()),
            Err(e) => Err(e),
        }
    }
}

impl FromToPacket for HciEventMsg {
    open spec fn from_packet_requires(m: PacketModel) -> bool {
        !m.has_instruction() && m.position + 128 <= usize::MAX
    }

    /// The identifier (event code and parameter length, and the subevent
    /// code of an LE meta event), then the fields of the event it names.
    open spec fn from_packet_spec(m: PacketModel) -> (PacketModel, Result<HciEventMsgView, PacketError>) {
        let (m1, t) = match_id(m, event_ids(), 0);
        match t {
            Some(i) => if i == 0 {
                le_connection_complete_fields(m1)
            } else if i == 1 {
                command_complete_fields(m1)
            } else {
                command_status_fields(m1)
            },
            None => (m1, Err(PacketError::Unspecified("No matching variant found for HciEventMsg"))),
        }
    }

    open spec fn to_packet_requires(&self, m: PacketModel) -> bool {
        !m.has_instruction() && m.position + 128 <= usize::MAX
    }

    /// The identifier, then the fields.
    open spec fn to_packet_spec(&self, m: PacketModel) -> (PacketModel, Result<(), PacketError>) {
        let (m1, r1) = m.pack_bytes_spec(event_ids()[self.spec_index()]);
        if r1 is Err {
            (m1, r1)
        } else {
            self.fields_to_packet(m1)
        }
    }

    fn from_packet(bytes: &mut Packet) -> (res: Result<Self, PacketError>) {
        proof {
            reveal_with_fuel(match_id, 4);
        }
        let le_connection_complete = [0x3e, 0x13, 0x01];
        let command_complete = [0x0E, 0x04];
        let command_status = [0x0F, 0x04];
        assert(le_connection_complete@ =~= event_ids()[0]);
        assert(command_complete@ =~= event_ids()[1]);
        assert(command_status@ =~= event_ids()[2]);
        if bytes.next_if_eq(&le_connection_complete) {
            return HciEventMsg::read_le_connection_complete(bytes);
        }
        if bytes.next_if_eq(&command_complete) {
            return HciEventMsg::read_command_complete(bytes);
        }
        if bytes.next_if_eq(&command_status) {
            return HciEventMsg::read_command_status(bytes);
        }
        Err(PacketError::Unspecified("No matching variant found for HciEventMsg"))
    }

    fn to_packet(&self, bytes: &mut Packet) -> (res: Result<(), PacketError>) {
        let r = match self {
            HciEventMsg::LeConnectionComplete { .. } => {
                let id = [0x3e, 0x13, 0x01];
                assert(id@ =~= event_ids()[self.spec_index()]);
                bytes.pack_bytes(&id)
            },
            HciEventMsg::CommandComplete { .. } => {
                let id = [0x0E, 0x04];
                assert(id@ =~= event_ids()[self.spec_index()]);
                bytes.pack_bytes(&id)
            },
            HciEventMsg::CommandStatus { .. } => {
                let id = [0x0F, 0x04];
                assert(id@ =~= event_ids()[self.spec_index()]);
                bytes.pack_bytes(&id)
            },
        };
        match r {
            Ok(_) => {},
            Err(e) => return Err(e),
        }
        self.write_fields(bytes)
    }
}

// --- Laws ---

/// The opcode at index `i` of `command_ids`, as a number.
spec fn opcode_of(i: int) -> int {
    if i == 0 { 0x0C03 } else if i == 1 { 0x0C01 } else if i == 2 { 0x2001 } else if i == 3 { 0x0C1A }
    else if i == 4 { 0x0C16 } else if i == 5 { 0x0C18 } else if i == 6 { 0x1002 } else if i == 7 { 0x1009 }
    else if i == 8 { 0x2002 } else if i == 9 { 0x0C13 } else { 0x0C14 }
}

/// The opcodes of the commands differ from one another.
#[verifier::rlimit(60)]
#[verifier::spinoff_prover]
proof fn lemma_command_ids_distinct()
    ensures
        forall|a: int, b: int| 0 <= a < b < command_ids().len() ==> command_ids()[a] != command_ids()[b],
        forall|a: int| 0 <= a < command_ids().len() ==> #[trigger] command_ids()[a].len() == 2,
{
    let ids = command_ids();
    assert forall|a: int| 0 <= a < ids.len() implies #[trigger] ids[a].len() == 2 && ids[a][0] as int + 256 * ids[a][1] == opcode_of(a) by {
    }
    assert forall|a: int, b: int| 0 <= a < b < ids.len() implies ids[a] != ids[b] by {
        assert(ids[a].len() == 2 && ids[a][0] as int + 256 * ids[a][1] == opcode_of(a));
        assert(ids[b].len() == 2 && ids[b][0] as int + 256 * ids[b][1] == opcode_of(b));
    }
}


/// Reading an identifier where the cursor holds the identifier at index
/// `k`, all identifiers before it being as long and different, finds `k`
/// and moves the cursor past it.
#[verifier::rlimit(60)]
#[verifier::spinoff_prover]
proof fn lemma_match_id_hit(m: PacketModel, ids: Seq<Seq<u8>>, i: nat, k: nat, rest: Seq<u8>)
    requires
        holds_at(m, ids[k as int] + rest),
        i <= k < ids.len(),
        forall|j: int| i <= j < k ==> #[trigger] ids[j].len() == ids[k as int].len() && ids[j] != ids[k as int],
    ensures
        match_id(m, ids, i) == (m.advance_bytes(ids[k as int].len()), Some(k)),
    decreases k - i,
{
    lemma_holds_split(m, ids[k as int], rest);
    if i < k {
        assert(ids[i as int].len() == ids[k as int].len() && ids[i as int] != ids[k as int]);
        lemma_match_id_hit(m, ids, i + 1, k, rest);
    }
}

/// Two states that differ at most in their recorded length fields.
pub open spec fn same_bytes(a: PacketModel, b: PacketModel) -> bool {
    &&& a.data == b.data
    &&& a.position == b.position
    &&& a.bit_position == b.bit_position
    &&& a.instructions == b.instructions
}

/// Packing bytes does the same to two states that differ at most in their
/// recorded length fields.
proof fn lemma_pack_same_bytes(a: PacketModel, b: PacketModel, bytes: Seq<u8>)
    requires
        same_bytes(a, b),
    ensures
        same_bytes(a.pack_bytes_spec(bytes).0, b.pack_bytes_spec(bytes).0),
        a.pack_bytes_spec(bytes).1 == b.pack_bytes_spec(bytes).1,
{
}

impl HciCommand {
    /// The parameters as they are written.
    pub open spec fn parameter_bytes(&self) -> Seq<u8> {
        match *self {
            HciCommand::SetEventMask { event_mask } => le_bytes(event_mask as nat, 8),
            HciCommand::LeSetEventMask { event_mask } => le_bytes(event_mask as nat, 8),
            HciCommand::WriteScanEnable(s) => seq![s.spec_tag()],
            HciCommand::WriteConnectionAcceptTimeout(t) => le_bytes(t as nat, 2),
            HciCommand::WritePageTimeout(t) => le_bytes(t as nat, 2),
            HciCommand::WriteLocalName(n) => n.field_bytes(),
            HciCommand::ReadLocalName { status, name } => status_bytes(status) + name.field_bytes(),
            _ => Seq::empty(),
        }
    }

    /// The command with `length` in its length byte: the opcode, the length
    /// byte and the parameters.
    pub open spec fn command_bytes_with(&self, length: u8) -> Seq<u8> {
        command_ids()[self.spec_index() as int] + seq![length] + self.parameter_bytes()
    }

    /// The command as it is written: its length byte is zero until it is
    /// filled in when the bytes are taken.
    pub open spec fn command_bytes(&self) -> Seq<u8> {
        self.command_bytes_with(0)
    }

    /// Reading the command back gives it: its names hold no NUL, and a
    /// status is not a failure with code zero (that byte reads as success).
    pub open spec fn reads_back(&self) -> bool {
        match *self {
            HciCommand::WriteLocalName(n) => no_nul(n@),
            HciCommand::ReadLocalName { status, name } => no_nul(name@) && status != HciStatus::Failure(0),
            _ => true,
        }
    }
}

/// Writing a command puts its bytes at the cursor.
#[verifier::rlimit(60)]
#[verifier::spinoff_prover]
proof fn lemma_command_written(m: PacketModel, c: HciCommand)
    requires
        m.wf(),
        c.to_packet_requires(m),
    ensures
        same_bytes(c.to_packet_spec(m).0, m.pack_bytes_spec(c.command_bytes()).0),
{
    let id = command_ids()[c.spec_index() as int];
    let params = c.parameter_bytes();
    let m1 = m.pack_bytes_spec(id).0;
    let z = m1.pack_bytes_spec(zeros(1)).0;
    let m2 = m1.pack_length_spec(1).0;
    assert(same_bytes(m2, z));
    assert(same_bytes(c.parameters_to_packet(m2).0, z.pack_bytes_spec(params).0)) by {
        match c {
            HciCommand::SetEventMask { event_mask } => lemma_pack_same_bytes(m2, z, params),
            HciCommand::LeSetEventMask { event_mask } => lemma_pack_same_bytes(m2, z, params),
            HciCommand::WriteScanEnable(s) => lemma_pack_same_bytes(m2, z, params),
            HciCommand::WriteConnectionAcceptTimeout(t) => lemma_pack_same_bytes(m2, z, params),
            HciCommand::WritePageTimeout(t) => lemma_pack_same_bytes(m2, z, params),
            HciCommand::WriteLocalName(n) => lemma_pack_same_bytes(m2, z, params),
            HciCommand::ReadLocalName { status, name } => {
                let sb = status_bytes(status);
                assert(status.to_packet_spec(m2) == m2.pack_bytes_spec(sb));
                lemma_pack_same_bytes(m2, z, sb);
                let m3 = m2.pack_bytes_spec(sb).0;
                let z3 = z.pack_bytes_spec(sb).0;
                lemma_pack_same_bytes(m3, z3, name.field_bytes());
                lemma_pack_concat(z, sb, name.field_bytes());
            },
            _ => {
                assert(z.pack_bytes_spec(Seq::<u8>::empty()).0.data =~= z.data);
            },
        }
    }
    lemma_pack_concat(m1, zeros(1), params);
    lemma_pack_concat(m, id, zeros(1) + params);
    assert(id + (zeros(1) + params) =~= c.command_bytes());
}


/// The parameters of a command that reads back are read from its bytes.
#[verifier::rlimit(60)]
#[verifier::spinoff_prover]
proof fn lemma_parameters_read(r: PacketModel, c: HciCommand, rest: Seq<u8>)
    requires
        holds_at(r, c.parameter_bytes() + rest),
        c.reads_back(),
        c.names_fit(),
    ensures
        command_parameters(r, c.spec_index()).1 == Ok::<HciCommandView, PacketError>(c@),
{
    crate::endian::lemma_pow256_values();
    let tags = ScanEnable::spec_tags();
    match c {
        HciCommand::SetEventMask { event_mask } => lemma_read_number(r, event_mask as nat, 8, rest),
        HciCommand::LeSetEventMask { event_mask } => lemma_read_number(r, event_mask as nat, 8, rest),
        HciCommand::WriteScanEnable(s) => {
            assert(crate::hci_types::distinct_tags(tags));
            match s {
                ScanEnable::NoScans => lemma_read_tag(r, tags, 0, rest),
                ScanEnable::InquiryScanEnabled_PageScanDisabled => lemma_read_tag(r, tags, 1, rest),
                ScanEnable::InquiryScanDisabled_PageScanEnabled => lemma_read_tag(r, tags, 2, rest),
                ScanEnable::InquiryScanEnabled_PageScanEnabled => lemma_read_tag(r, tags, 3, rest),
            }
        },
        HciCommand::WriteConnectionAcceptTimeout(t) => lemma_read_number(r, t as nat, 2, rest),
        HciCommand::WritePageTimeout(t) => lemma_read_number(r, t as nat, 2, rest),
        HciCommand::WriteLocalName(n) => FixedSizeUtf8::<248>::lemma_read_field(r, n, rest),
        HciCommand::ReadLocalName { status, name } => {
            assert(status_bytes(status) + name.field_bytes() + rest =~= status_bytes(status) + (
            name.field_bytes() + rest));
            lemma_read_status(r, status, name.field_bytes() + rest);
            FixedSizeUtf8::<248>::lemma_read_field(r.advance_bytes(1), name, rest);
        },
        _ => {},
    }
}

/// A command that reads back is read from its bytes, whatever its length
/// byte holds.
#[verifier::rlimit(60)]
#[verifier::spinoff_prover]
proof fn lemma_command_read(r: PacketModel, c: HciCommand, length: u8, rest: Seq<u8>)
    requires
        holds_at(r, c.command_bytes_with(length) + rest),
        c.reads_back(),
        c.names_fit(),
    ensures
        <HciCommand as FromToPacket>::from_packet_spec(r).1 == Ok::<HciCommandView, PacketError>(c@),
{
    let k = c.spec_index();
    let id = command_ids()[k as int];
    let after_id = seq![length] + (c.parameter_bytes() + rest);
    assert(c.command_bytes_with(length) + rest =~= id + after_id);
    lemma_command_ids_distinct();
    lemma_match_id_hit(r, command_ids(), 0, k, after_id);
    lemma_holds_split(r, id, after_id);
    let r1 = r.advance_bytes(2);
    assert(crate::endian::le_bytes(length as nat, 1) =~= seq![length]) by {
        reveal_with_fuel(le_bytes, 2);
    }
    crate::endian::lemma_pow256_values();
    lemma_read_number(r1, length as nat, 1, c.parameter_bytes() + rest);
    lemma_parameters_read(r1.advance_bytes(1), c, rest);
}

/// Writing a command into a packet and reading a command back from the
/// place it was written at gives the same command, when its names hold no
/// NUL and a status in it is not a failure with code zero.
#[verifier::rlimit(60)]
#[verifier::spinoff_prover]
pub proof fn law_hci_command_roundtrip(m: PacketModel, c: HciCommand)
    requires
        m.wf(),
        c.to_packet_requires(m),
        c.reads_back(),
    ensures
        <HciCommand as FromToPacket>::from_packet_spec(rewound_to(c.to_packet_spec(m).0, m.position)).1
            == Ok::<HciCommandView, PacketError>(c@),
{
    lemma_command_written(m, c);
    lemma_holds_after_pack(m, c.command_bytes());
    assert(c.command_bytes() + Seq::<u8>::empty() =~= c.command_bytes());
    lemma_command_read(rewound_to(c.to_packet_spec(m).0, m.position), c, 0, Seq::empty());
}


impl HciEventMsg {
    /// The fields as they are written.
    pub open spec fn field_bytes(&self) -> Seq<u8> {
        match *self {
            HciEventMsg::LeConnectionComplete {
                status,
                connection_handle,
                role,
                peer_address_type,
                peer_address,
                connection_interval,
                peripheral_latency,
                supervision_timeout,
                central_clock_accuracy,
            } => status_bytes(status) + le_bytes(connection_handle as nat, 2) + seq![role.spec_tag()]
                + seq![peer_address_type.spec_tag()] + peer_address@ + le_bytes(
                connection_interval as nat,
                2,
            ) + le_bytes(peripheral_latency as nat, 2) + le_bytes(supervision_timeout as nat, 2)
                + seq![central_clock_accuracy.spec_tag()],
            HciEventMsg::CommandComplete { num_hci_command_packets, command_opcode, status } =>
                le_bytes(num_hci_command_packets as nat, 1) + le_bytes(command_opcode as nat, 2)
                + status_bytes(status),
            HciEventMsg::CommandStatus { status, num_hci_command_packets, command_opcode } =>
                status_bytes(status) + le_bytes(num_hci_command_packets as nat, 1) + le_bytes(
                command_opcode as nat,
                2,
            ),
        }
    }

    /// The event as it is written: its identifier, then its fields.
    pub open spec fn event_bytes(&self) -> Seq<u8> {
        event_ids()[self.spec_index()] + self.field_bytes()
    }

    /// Reading the event back gives it: its status is not a failure with
    /// code zero (that byte reads as success).
    pub open spec fn reads_back(&self) -> bool {
        match *self {
            HciEventMsg::LeConnectionComplete { status, .. } => status != HciStatus::Failure(0),
            HciEventMsg::CommandComplete { status, .. } => status != HciStatus::Failure(0),
            HciEventMsg::CommandStatus { status, .. } => status != HciStatus::Failure(0),
        }
    }
}

/// Writing an LE connection complete event puts its bytes at the cursor.
#[verifier::rlimit(100)]
#[verifier::spinoff_prover]
proof fn lemma_le_connection_complete_written(m: PacketModel, e: HciEventMsg)
    requires
        m.wf(),
        !m.has_instruction(),
        e is LeConnectionComplete,
    ensures
        e.to_packet_spec(m) == m.pack_bytes_spec(e.event_bytes()),
{
    let id = event_ids()[0];
    if let HciEventMsg::LeConnectionComplete {
        status,
        connection_handle,
        role,
        peer_address_type,
        peer_address,
        connection_interval,
        peripheral_latency,
        supervision_timeout,
        central_clock_accuracy,
    } = e {
        let b1 = status_bytes(status);
        let b2 = le_bytes(connection_handle as nat, 2);
        let b3 = seq![role.spec_tag()];
        let b4 = seq![peer_address_type.spec_tag()];
        let b5 = peer_address@;
        let b6 = le_bytes(connection_interval as nat, 2);
        let b7 = le_bytes(peripheral_latency as nat, 2);
        let b8 = le_bytes(supervision_timeout as nat, 2);
        let b9 = seq![central_clock_accuracy.spec_tag()];
        let a1 = id + b1;
        let a2 = a1 + b2;
        let a3 = a2 + b3;
        let a4 = a3 + b4;
        let a5 = a4 + b5;
        let a6 = a5 + b6;
        let a7 = a6 + b7;
        let a8 = a7 + b8;
        let a9 = a8 + b9;
        let s0 = m.pack_bytes_spec(id).0;
        assert(status.to_packet_spec(s0) == m.pack_bytes_spec(a1)) by {
            lemma_pack_concat(m, id, b1);
        }
        assert(connection_handle.to_packet_spec(m.pack_bytes_spec(a1).0) == m.pack_bytes_spec(a2)) by {
            lemma_pack_concat(m, a1, b2);
        }
        assert(role.to_packet_spec(m.pack_bytes_spec(a2).0) == m.pack_bytes_spec(a3)) by {
            lemma_pack_concat(m, a2, b3);
        }
        assert(peer_address_type.to_packet_spec(m.pack_bytes_spec(a3).0) == m.pack_bytes_spec(a4)) by {
            lemma_pack_concat(m, a3, b4);
        }
        assert(peer_address.to_packet_spec(m.pack_bytes_spec(a4).0) == m.pack_bytes_spec(a5)) by {
            lemma_pack_concat(m, a4, b5);
        }
        assert(connection_interval.to_packet_spec(m.pack_bytes_spec(a5).0) == m.pack_bytes_spec(a6)) by {
            lemma_pack_concat(m, a5, b6);
        }
        assert(peripheral_latency.to_packet_spec(m.pack_bytes_spec(a6).0) == m.pack_bytes_spec(a7)) by {
            lemma_pack_concat(m, a6, b7);
        }
        assert(supervision_timeout.to_packet_spec(m.pack_bytes_spec(a7).0) == m.pack_bytes_spec(a8)) by {
            lemma_pack_concat(m, a7, b8);
        }
        assert(central_clock_accuracy.to_packet_spec(m.pack_bytes_spec(a8).0) == m.pack_bytes_spec(a9)) by {
            lemma_pack_concat(m, a8, b9);
        }
        assert(m.pack_bytes_spec(id).1 is Ok);
        assert(a9 =~= e.event_bytes());
    }
}

/// Writing an event puts its bytes at the cursor.
#[verifier::rlimit(80)]
#[verifier::spinoff_prover]
proof fn lemma_event_written(m: PacketModel, e: HciEventMsg)
    requires
        m.wf(),
        !m.has_instruction(),
    ensures
        e.to_packet_spec(m) == m.pack_bytes_spec(e.event_bytes()),
{
    let id = event_ids()[e.spec_index()];
    match e {
        HciEventMsg::LeConnectionComplete {
            status,
            connection_handle,
            role,
            peer_address_type,
            peer_address,
            connection_interval,
            peripheral_latency,
            supervision_timeout,
            central_clock_accuracy,
        } => {
            lemma_le_connection_complete_written(m, e);
        },
        HciEventMsg::CommandComplete { num_hci_command_packets, command_opcode, status } => {
            let b1 = le_bytes(num_hci_command_packets as nat, 1);
            let b2 = le_bytes(command_opcode as nat, 2);
            let b3 = status_bytes(status);
            lemma_pack_concat(m, id, b1);
            lemma_pack_concat(m, id + b1, b2);
            assert(status.to_packet_spec(m.pack_bytes_spec(id + b1 + b2).0) == m.pack_bytes_spec(id + b1 + b2).0.pack_bytes_spec(b3));
            lemma_pack_concat(m, id + b1 + b2, b3);
            assert(id + b1 + b2 + b3 =~= e.event_bytes());
        },
        HciEventMsg::CommandStatus { status, num_hci_command_packets, command_opcode } => {
            let b1 = status_bytes(status);
            let b2 = le_bytes(num_hci_command_packets as nat, 1);
            let b3 = le_bytes(command_opcode as nat, 2);
            assert(status.to_packet_spec(m.pack_bytes_spec(id).0) == m.pack_bytes_spec(id).0.pack_bytes_spec(b1));
            lemma_pack_concat(m, id, b1);
            lemma_pack_concat(m, id + b1, b2);
            lemma_pack_concat(m, id + b1 + b2, b3);
            assert(id + b1 + b2 + b3 =~= e.event_bytes());
        },
    }
}


/// Reading an event identifier where the cursor holds the identifier at
/// index `k` finds `k` and moves the cursor past it.
#[verifier::rlimit(60)]
#[verifier::spinoff_prover]
proof fn lemma_event_id_read(r: PacketModel, k: int, rest: Seq<u8>)
    requires
        0 <= k < 3,
        holds_at(r, event_ids()[k] + rest),
        rest.len() >= 1,
    ensures
        match_id(r, event_ids(), 0) == (r.advance_bytes(event_ids()[k].len()), Some(k as nat)),
{
    reveal_with_fuel(match_id, 4);
    let ids = event_ids();
    let p = r.position as int;
    lemma_holds_split(r, ids[k], rest);
    let w = r.data.subrange(p, p + (ids[k] + rest).len());
    assert(w[0] == ids[k][0]);
    if k >= 1 {
        assert(r.data.subrange(p, p + 3)[0] == w[0]);
        assert(r.data.subrange(p, p + 3) != ids[0]);
    }
    if k == 2 {
        assert(r.data.subrange(p, p + 2)[0] == w[0]);
        assert(r.data.subrange(p, p + 2) != ids[1]);
    }
}

/// The fields of an LE connection complete event, from the fields that
/// were read.
#[verifier::rlimit(60)]
#[verifier::spinoff_prover]
proof fn lemma_le_connection_complete_compose(
    r: PacketModel,
    r2: PacketModel,
    r3: PacketModel,
    r4: PacketModel,
    r5: PacketModel,
    r6: PacketModel,
    r7: PacketModel,
    r8: PacketModel,
    r9: PacketModel,
    r10: PacketModel,
    e: HciEventMsg,
)
    requires
        e matches HciEventMsg::LeConnectionComplete {
            status,
            connection_handle,
            role,
            peer_address_type,
            peer_address,
            connection_interval,
            peripheral_latency,
            supervision_timeout,
            central_clock_accuracy,
        } && {
            &&& <HciStatus as FromToPacket>::from_packet_spec(r) == (r2, Ok::<HciStatus, PacketError>(status))
            &&& <u16 as FromToPacket>::from_packet_spec(r2) == (r3, Ok::<u16, PacketError>(connection_handle))
            &&& <Role as FromToPacket>::from_packet_spec(r3) == (r4, Ok::<Role, PacketError>(role))
            &&& <AddressType as FromToPacket>::from_packet_spec(r4) == (r5, Ok::<AddressType, PacketError>(peer_address_type))
            &&& <[u8; 6] as FromToPacket>::from_packet_spec(r5) == (r6, Ok::<Seq<u8>, PacketError>(peer_address@))
            &&& <u16 as FromToPacket>::from_packet_spec(r6) == (r7, Ok::<u16, PacketError>(connection_interval))
            &&& <u16 as FromToPacket>::from_packet_spec(r7) == (r8, Ok::<u16, PacketError>(peripheral_latency))
            &&& <u16 as FromToPacket>::from_packet_spec(r8) == (r9, Ok::<u16, PacketError>(supervision_timeout))
            &&& <ClockAccuracy as FromToPacket>::from_packet_spec(r9) == (r10, Ok::<ClockAccuracy, PacketError>(central_clock_accuracy))
        },
    ensures
        le_connection_complete_fields(r).1 == Ok::<HciEventMsgView, PacketError>(e@),
{
    reveal(le_connection_complete_fields);
}

/// The fields of an LE connection complete event are read from its bytes.
#[verifier::rlimit(100)]
#[verifier::spinoff_prover]
proof fn lemma_le_connection_complete_read(r: PacketModel, e: HciEventMsg, rest: Seq<u8>)
    requires
        e is LeConnectionComplete,
        e.reads_back(),
        holds_at(r, e.field_bytes() + rest),
    ensures
        le_connection_complete_fields(r).1 == Ok::<HciEventMsgView, PacketError>(e@),
{
    crate::endian::lemma_pow256_values();
    if let HciEventMsg::LeConnectionComplete {
        status,
        connection_handle,
        role,
        peer_address_type,
        peer_address,
        connection_interval,
        peripheral_latency,
        supervision_timeout,
        central_clock_accuracy,
    } = e {
        let b1 = status_bytes(status);
        let b2 = le_bytes(connection_handle as nat, 2);
        let b3 = seq![role.spec_tag()];
        let b4 = seq![peer_address_type.spec_tag()];
        let b5 = peer_address@;
        let b6 = le_bytes(connection_interval as nat, 2);
        let b7 = le_bytes(peripheral_latency as nat, 2);
        let b8 = le_bytes(supervision_timeout as nat, 2);
        let b9 = seq![central_clock_accuracy.spec_tag()];
        let t9 = b9 + rest;
        let t8 = b8 + t9;
        let t7 = b7 + t8;
        let t6 = b6 + t7;
        let t5 = b5 + t6;
        let t4 = b4 + t5;
        let t3 = b3 + t4;
        let t2 = b2 + t3;
        let t1 = b1 + t2;
        assert(e.field_bytes() + rest =~= t1);
        let r2 = r.advance_bytes(1);
        let r3 = r2.advance_bytes(2);
        let r4 = r3.advance_bytes(1);
        let r5 = r4.advance_bytes(1);
        let r6 = r5.advance_bytes(6);
        let r7 = r6.advance_bytes(2);
        let r8 = r7.advance_bytes(2);
        let r9 = r8.advance_bytes(2);
        let r10 = r9.advance_bytes(1);
        assert(<HciStatus as FromToPacket>::from_packet_spec(r) == (r2, Ok::<HciStatus, PacketError>(status))
            && holds_at(r2, t2)) by {
            lemma_read_status(r, status, t2);
        }
        assert(<u16 as FromToPacket>::from_packet_spec(r2) == (r3, Ok::<u16, PacketError>(connection_handle))
            && holds_at(r3, t3)) by {
            lemma_read_number(r2, connection_handle as nat, 2, t3);
        }
        assert(<Role as FromToPacket>::from_packet_spec(r3) == (r4, Ok::<Role, PacketError>(role))
            && holds_at(r4, t4)) by {
            assert(crate::hci_types::distinct_tags(Role::spec_tags()));
            match role {
                Role::Central => lemma_read_tag(r3, Role::spec_tags(), 0, t4),
                Role::Peripheral => lemma_read_tag(r3, Role::spec_tags(), 1, t4),
            }
        }
        assert(<AddressType as FromToPacket>::from_packet_spec(r4) == (r5, Ok::<AddressType, PacketError>(peer_address_type))
            && holds_at(r5, t5)) by {
            assert(crate::hci_types::distinct_tags(AddressType::spec_tags()));
            match peer_address_type {
                AddressType::Public => lemma_read_tag(r4, AddressType::spec_tags(), 0, t5),
                AddressType::Random => lemma_read_tag(r4, AddressType::spec_tags(), 1, t5),
            }
        }
        assert(<[u8; 6] as FromToPacket>::from_packet_spec(r5) == (r6, Ok::<Seq<u8>, PacketError>(b5))
            && holds_at(r6, t6)) by {
            lemma_holds_split(r5, b5, t6);
        }
        assert(<u16 as FromToPacket>::from_packet_spec(r6) == (r7, Ok::<u16, PacketError>(connection_interval))
            && holds_at(r7, t7)) by {
            lemma_read_number(r6, connection_interval as nat, 2, t7);
        }
        assert(<u16 as FromToPacket>::from_packet_spec(r7) == (r8, Ok::<u16, PacketError>(peripheral_latency))
            && holds_at(r8, t8)) by {
            lemma_read_number(r7, peripheral_latency as nat, 2, t8);
        }
        assert(<u16 as FromToPacket>::from_packet_spec(r8) == (r9, Ok::<u16, PacketError>(supervision_timeout))
            && holds_at(r9, t9)) by {
            lemma_read_number(r8, supervision_timeout as nat, 2, t9);
        }
        assert(<ClockAccuracy as FromToPacket>::from_packet_spec(r9) == (r10, Ok::<ClockAccuracy, PacketError>(central_clock_accuracy))) by {
            let tags = ClockAccuracy::spec_tags();
            assert(crate::hci_types::distinct_tags(tags));
            match central_clock_accuracy {
                ClockAccuracy::Ppm500 => lemma_read_tag(r9, tags, 0, rest),
                ClockAccuracy::Ppm250 => lemma_read_tag(r9, tags, 1, rest),
                ClockAccuracy::Ppm150 => lemma_read_tag(r9, tags, 2, rest),
                ClockAccuracy::Ppm100 => lemma_read_tag(r9, tags, 3, rest),
                ClockAccuracy::Ppm75 => lemma_read_tag(r9, tags, 4, rest),
                ClockAccuracy::Ppm50 => lemma_read_tag(r9, tags, 5, rest),
                ClockAccuracy::Ppm30 => lemma_read_tag(r9, tags, 6, rest),
                ClockAccuracy::Ppm20 => lemma_read_tag(r9, tags, 7, rest),
            }
        }
        lemma_le_connection_complete_compose(r, r2, r3, r4, r5, r6, r7, r8, r9, r10, e);
    }
}

/// The fields of the command complete and command status events are read
/// from their bytes.
#[verifier::rlimit(60)]
#[verifier::spinoff_prover]
proof fn lemma_command_events_read(r: PacketModel, e: HciEventMsg, rest: Seq<u8>)
    requires
        !(e is LeConnectionComplete),
        e.reads_back(),
        holds_at(r, e.field_bytes() + rest),
    ensures
        e is CommandComplete ==> command_complete_fields(r).1 == Ok::<HciEventMsgView, PacketError>(e@),
        e is CommandStatus ==> command_status_fields(r).1 == Ok::<HciEventMsgView, PacketError>(e@),
{
    crate::endian::lemma_pow256_values();
    match e {
        HciEventMsg::CommandComplete { num_hci_command_packets, command_opcode, status } => {
            let b1 = le_bytes(num_hci_command_packets as nat, 1);
            let b2 = le_bytes(command_opcode as nat, 2);
            let b3 = status_bytes(status);
            assert(e.field_bytes() + rest =~= b1 + (b2 + (b3 + rest)));
            lemma_read_number(r, num_hci_command_packets as nat, 1, b2 + (b3 + rest));
            let r2 = r.advance_bytes(1);
            lemma_read_number(r2, command_opcode as nat, 2, b3 + rest);
            lemma_read_status(r2.advance_bytes(2), status, rest);
        },
        HciEventMsg::CommandStatus { status, num_hci_command_packets, command_opcode } => {
            let b1 = status_bytes(status);
            let b2 = le_bytes(num_hci_command_packets as nat, 1);
            let b3 = le_bytes(command_opcode as nat, 2);
            assert(e.field_bytes() + rest =~= b1 + (b2 + (b3 + rest)));
            lemma_read_status(r, status, b2 + (b3 + rest));
            let r2 = r.advance_bytes(1);
            lemma_read_number(r2, num_hci_command_packets as nat, 1, b3 + rest);
            lemma_read_number(r2.advance_bytes(1), command_opcode as nat, 2, rest);
        },
        _ => {},
    }
}

/// Writing an event into a packet and reading an event back from the place
/// it was written at gives the same event, when its status is not a
/// failure with code zero.
#[verifier::rlimit(60)]
#[verifier::spinoff_prover]
pub proof fn law_hci_event_roundtrip(m: PacketModel, e: HciEventMsg)
    requires
        m.wf(),
        e.to_packet_requires(m),
        e.reads_back(),
    ensures
        <HciEventMsg as FromToPacket>::from_packet_spec(rewound_to(e.to_packet_spec(m).0, m.position)).1
            == Ok::<HciEventMsgView, PacketError>(e@),
{
    lemma_event_written(m, e);
    lemma_holds_after_pack(m, e.event_bytes());
    let r = rewound_to(e.to_packet_spec(m).0, m.position);
    let id = event_ids()[e.spec_index()];
    let f = e.field_bytes();
    assert(e.event_bytes() =~= id + f);
    assert(f.len() >= 1) by {
        match e {
            HciEventMsg::LeConnectionComplete { status, .. } => {},
            HciEventMsg::CommandComplete { num_hci_command_packets, .. } => {
                crate::endian::lemma_le_bytes_len(num_hci_command_packets as nat, 1);
            },
            HciEventMsg::CommandStatus { status, .. } => {},
        }
    }
    lemma_event_id_read(r, e.spec_index(), f);
    lemma_holds_split(r, id, f);
    let r1 = r.advance_bytes(id.len());
    assert(f + Seq::<u8>::empty() =~= f);
    if e is LeConnectionComplete {
        lemma_le_connection_complete_read(r1, e, Seq::empty());
    } else {
        lemma_command_events_read(r1, e, Seq::empty());
    }
}


/// A packet in its first state over `data`: cursor at the start, nothing
/// pending and no length fields recorded.
pub open spec fn fresh(data: Seq<u8>) -> PacketModel {
    PacketModel {
        position: 0,
        bit_position: 0,
        data,
        instructions: Seq::empty(),
        length_positions: Seq::empty(),
    }
}

/// Writing a command into a new packet and taking its bytes gives the
/// opcode, the number of parameter bytes (on one byte) and the parameters;
/// a packet over those bytes reads back the same command, when its names
/// hold no NUL and a status in it is not a failure with code zero.
#[verifier::rlimit(60)]
#[verifier::spinoff_prover]
pub proof fn law_hci_command_bytes_roundtrip(c: HciCommand)
    requires
        c.names_fit(),
        c.reads_back(),
    ensures
        ({
            let bytes = c.to_packet_spec(fresh(Seq::empty())).0.filled_data();
            &&& bytes == c.command_bytes_with((c.parameter_bytes().len() % 256) as u8)
            &&& <HciCommand as FromToPacket>::from_packet_spec(fresh(bytes)).1
                == Ok::<HciCommandView, PacketError>(c@)
        }),
{
    let m = fresh(Seq::empty());
    let w = c.to_packet_spec(m).0;
    let cb = c.command_bytes();
    let params = c.parameter_bytes();
    let id = command_ids()[c.spec_index() as int];
    lemma_command_written(m, c);
    lemma_command_ids_distinct();
    assert(m.pack_bytes_spec(cb).0.data =~= cb);
    assert(w.length_positions == seq![(2nat, 1nat)]) by {
        let m1 = m.pack_bytes_spec(id).0;
        let m2 = m1.pack_length_spec(1).0;
        assert(m2.length_positions =~= seq![(2nat, 1nat)]);
        match c {
            HciCommand::ReadLocalName { status, name } => {
                assert(status.to_packet_spec(m2).0.length_positions == m2.length_positions);
            },
            _ => {},
        }
    }
    let n = (params.len() % 256) as u8;
    assert(cb.len() == 3 + params.len());
    assert(crate::endian::le_bytes((cb.len() - 2 - 1) as nat, 1) =~= seq![n]) by {
        reveal_with_fuel(le_bytes, 2);
    }
    let bytes = w.filled_data();
    assert(bytes =~= c.command_bytes_with(n)) by {
        let lps = seq![(2nat, 1nat)];
        assert(lps.drop_last() =~= Seq::<(nat, nat)>::empty());
        assert(crate::packer::fill_lengths(cb, lps.drop_last(), cb.len()) == cb);
    }
    assert(bytes + Seq::<u8>::empty() =~= bytes);
    assert(holds_at(fresh(bytes), bytes)) by {
        assert(bytes.subrange(0, bytes.len() as int) =~= bytes);
    }
    lemma_command_read(fresh(bytes), c, n, Seq::empty());
}


/// A command number below 1024 is its own low ten bits.
#[verifier::rlimit(60)]
#[verifier::spinoff_prover]
proof fn lemma_command_field_fits(v: u16)
    requires
        v < 1024,
    ensures
        low_bits(le_bytes(v as nat, 2), 10, 2) == le_bytes(v as nat, 2),
{
    let b = le_bytes(v as nat, 2);
    assert(b =~= seq![(v as nat % 256) as u8, ((v as nat / 256) % 256) as u8]) by {
        reveal_with_fuel(le_bytes, 3);
    }
    let hi = ((v as nat / 256) % 256) as u8;
    assert(hi < 4);
    assert forall|j: int| 10 <= j < 8 * b.len() implies !#[trigger] bit_of(b, j) by {
        assert(j / 8 == 1);
        let k = (j % 8) as u8;
        assert(2 <= k < 8);
        assert(hi < 4 && 2 <= k && k < 8 ==> (hi >> k) & 1u8 != 1u8) by (bit_vector);
    }
    lemma_low_bits_fit(b, 10);
}

/// A group number below 64 is the byte of its own low six bits.
#[verifier::rlimit(60)]
#[verifier::spinoff_prover]
proof fn lemma_group_field_fits(v: u16)
    requires
        v < 64,
    ensures
        low_bits(le_bytes(v as nat, 2), 6, 1) == seq![v as u8],
{
    let b = le_bytes(v as nat, 2);
    assert(b =~= seq![(v as nat % 256) as u8, ((v as nat / 256) % 256) as u8]) by {
        reveal_with_fuel(le_bytes, 3);
    }
    let lo = v as u8;
    assert(b[0] == lo);
    let lb = low_bits(b, 6, 1);
    let t = seq![lo];
    assert forall|j: int| 0 <= j < 8 * lb.len() implies bit_of(lb, j) == bit_of(t, j) by {
        lemma_bytes_from_bits(|i: int| crate::packer::sel_bit(b, 0, 6, i), 1, j);
        assert(j / 8 == 0);
        let k = j as u8;
        assert(lo < 64 && 6 <= k && k < 8 ==> (lo >> k) & 1u8 != 1u8) by (bit_vector);
    }
    lemma_bits_ext(lb, t);
}

/// The two bytes of an opcode written over the bytes `w0`: the command in
/// the low ten bits, the group in the high six.
pub open spec fn opcode_window(w0: Seq<u8>, v: OpCode) -> Seq<u8> {
    let w1 = set_bits_spec(w0, 0, 10, get_bits_spec(le_bytes(v.0 as nat, 2), 0, 10));
    let w2 = set_bits_spec(w1.subrange(1, 2), 2, 6, get_bits_spec(le_bytes(v.1 as nat, 2), 0, 6));
    seq![w1[0], w2[0]]
}

/// The command field of an opcode window reads back as the command number
/// when it fits.
#[verifier::rlimit(60)]
#[verifier::spinoff_prover]
proof fn lemma_opcode_window_command(w0: Seq<u8>, v: OpCode)
    requires
        w0.len() == 2,
        v.0 < 1024,
    ensures
        get_bits_spec(opcode_window(w0, v), 0, 10) == le_bytes(v.0 as nat, 2),
{
    let b1 = le_bytes(v.0 as nat, 2);
    let b2 = le_bytes(v.1 as nat, 2);
    crate::endian::lemma_le_bytes_len(v.0 as nat, 2);
    let in1 = get_bits_spec(b1, 0, 10);
    let w1 = set_bits_spec(w0, 0, 10, in1);
    law_set_then_get_bits(w0, 0, 10, in1);
    let win2 = w1.subrange(1, 2);
    let in2 = get_bits_spec(b2, 0, 6);
    let w2 = set_bits_spec(win2, 2, 6, in2);
    law_set_then_get_bits(win2, 2, 6, in2);
    let f = opcode_window(w0, v);
    assert forall|k: int| 0 <= k < 10 implies #[trigger] bit_of(f, k) == bit_of(w1, k) by {
        if k < 8 {
            assert(f[0] == w1[0]);
        } else {
            assert(f[1] == w2[0]);
            assert(bit_of(f, k) == bit_of(w2, k - 8));
            assert(bit_of(w2, k - 8) == bit_of(win2, k - 8));
            assert(win2[0] == w1[1]);
            assert(bit_of(win2, k - 8) == bit_of(w1, k));
        }
    }
    lemma_get_bits_congruent(f, w1, 0, 10);
    lemma_low_bits_of_field(b1, 10, 2);
    lemma_command_field_fits(v.0);
}

/// The group field of an opcode window reads back as the group number when
/// it fits.
#[verifier::rlimit(60)]
#[verifier::spinoff_prover]
proof fn lemma_opcode_window_group(w0: Seq<u8>, v: OpCode)
    requires
        w0.len() == 2,
        v.1 < 64,
    ensures
        get_bits_spec(opcode_window(w0, v).subrange(1, 2), 2, 6) == seq![v.1 as u8],
{
    let b1 = le_bytes(v.0 as nat, 2);
    let b2 = le_bytes(v.1 as nat, 2);
    let in1 = get_bits_spec(b1, 0, 10);
    let w1 = set_bits_spec(w0, 0, 10, in1);
    law_set_then_get_bits(w0, 0, 10, in1);
    let win2 = w1.subrange(1, 2);
    let in2 = get_bits_spec(b2, 0, 6);
    let w2 = set_bits_spec(win2, 2, 6, in2);
    law_set_then_get_bits(win2, 2, 6, in2);
    let f = opcode_window(w0, v);
    assert(f.subrange(1, 2) =~= w2);
    lemma_low_bits_of_field(b2, 6, 1);
    lemma_group_field_fits(v.1);
}

/// Writing an opcode at a byte boundary writes its two bytes over the two
/// bytes at the cursor.
#[verifier::rlimit(60)]
#[verifier::spinoff_prover]
proof fn lemma_opcode_written(m: PacketModel, v: OpCode)
    requires
        m.bit_position == 0,
        !m.has_instruction(),
        m.position + 64 <= usize::MAX,
    ensures
        ({
            let g = grow(m.data, m.position + 2);
            let w = v.to_packet_spec(m).0;
            &&& w.position == m.position + 2
            &&& w.bit_position == 0
            &&& w.instructions == m.instructions
            &&& w.data == splice(g, m.position, opcode_window(g.subrange(m.position as int, m.position + 2int), v))
        }),
{
    let p = m.position;
    let b1 = le_bytes(v.0 as nat, 2);
    let b2 = le_bytes(v.1 as nat, 2);
    assert(byte_count(0, 10) == 2);
    assert(byte_count(2, 6) == 1);
    let g1 = grow(m.data, p + 2);
    let win1 = g1.subrange(p as int, p + 2int);
    let in1 = get_bits_spec(b1, 0, 10);
    let w1 = set_bits_spec(win1, 0, 10, in1);
    let d1 = splice(g1, p, w1);
    law_set_then_get_bits(win1, 0, 10, in1);
    let m1 = with_bits(m, 10).pack_bytes_spec(b1).0;
    assert(m1.data == d1 && m1.position == p + 1 && m1.bit_position == 2 && m1.instructions == m.instructions) by {
        assert(m.instructions.push(10).drop_last() =~= m.instructions);
    }
    assert(grow(d1, p + 2) == d1);
    let win2 = d1.subrange(p + 1int, p + 2int);
    assert(win2 =~= w1.subrange(1, 2));
    let in2 = get_bits_spec(b2, 0, 6);
    let w2 = set_bits_spec(win2, 2, 6, in2);
    law_set_then_get_bits(win2, 2, 6, in2);
    let d2 = splice(d1, p + 1, w2);
    let m2 = with_bits(m1, 6).pack_bytes_spec(b2).0;
    assert(m2.data == d2 && m2.position == p + 2 && m2.bit_position == 0 && m2.instructions == m.instructions) by {
        assert(m1.instructions.push(6).drop_last() =~= m1.instructions);
    }
    assert(v.to_packet_spec(m).0 == m2);
    assert(d2 =~= splice(g1, p, opcode_window(win1, v)));
}

/// An opcode whose numbers fit is read back from its two bytes.
#[verifier::rlimit(60)]
#[verifier::spinoff_prover]
proof fn lemma_opcode_read(r: PacketModel, w0: Seq<u8>, v: OpCode)
    requires
        r.bit_position == 0,
        !r.has_instruction(),
        r.position + 2 <= r.data.len(),
        r.position + 64 <= usize::MAX,
        w0.len() == 2,
        r.data.subrange(r.position as int, r.position + 2int) == opcode_window(w0, v),
        v.0 < 1024,
        v.1 < 64,
    ensures
        <OpCode as FromToPacket>::from_packet_spec(r).1 == Ok::<OpCode, PacketError>(v),
{
    let p = r.position;
    lemma_opcode_window_command(w0, v);
    lemma_opcode_window_group(w0, v);
    let f = opcode_window(w0, v);
    assert(byte_count(0, 10) == 2);
    assert(byte_count(2, 6) == 1);
    let b1 = le_bytes(v.0 as nat, 2);
    let t1 = with_bits(r, 10);
    assert(t1.field_bits() == b1);
    assert(crate::packer_impls::resize_spec(b1, 2) =~= b1) by {
        crate::endian::lemma_le_bytes_len(v.0 as nat, 2);
    }
    crate::endian::lemma_le_value_of_bytes(v.0 as nat, 2);
    crate::endian::lemma_pow256_values();
    assert(read_bits::<u16>(r, 10).1 == Ok::<u16, PacketError>(v.0));
    let r1 = read_bits::<u16>(r, 10).0;
    assert(r1.position == p + 1 && r1.bit_position == 2 && r1.data == r.data && r1.instructions == r.instructions) by {
        assert(r.instructions.push(10).drop_last() =~= r.instructions);
    }
    let t2 = with_bits(r1, 6);
    assert(r.data.subrange(p + 1int, p + 2int) =~= f.subrange(1, 2));
    assert(t2.field_bits() == seq![v.1 as u8]);
    assert(crate::packer_impls::resize_spec(seq![v.1 as u8], 2) =~= seq![v.1 as u8, 0u8]);
    assert(crate::endian::le_value(seq![v.1 as u8, 0u8]) == v.1) by {
        reveal_with_fuel(crate::endian::le_value, 3);
        assert(seq![v.1 as u8, 0u8].drop_first() =~= seq![0u8]);
        assert(seq![0u8].drop_first() =~= Seq::<u8>::empty());
    }
    assert(read_bits::<u16>(r1, 6).1 == Ok::<u16, PacketError>(v.1));
}

/// Writing an opcode whose numbers fit their bit fields at a byte boundary
/// and reading an opcode back from the place it was written at gives the
/// same opcode.
#[verifier::rlimit(60)]
#[verifier::spinoff_prover]
pub proof fn law_opcode_roundtrip(m: PacketModel, v: OpCode)
    requires
        m.wf(),
        m.bit_position == 0,
        !m.has_instruction(),
        m.position + 64 <= usize::MAX,
        v.0 < 1024,
        v.1 < 64,
    ensures
        <OpCode as FromToPacket>::from_packet_spec(rewound_to(v.to_packet_spec(m).0, m.position)).1
            == Ok::<OpCode, PacketError>(v),
{
    let p = m.position;
    let g = grow(m.data, p + 2);
    let w0 = g.subrange(p as int, p + 2int);
    lemma_opcode_written(m, v);
    let w = v.to_packet_spec(m).0;
    let win = opcode_window(w0, v);
    assert(w.data.subrange(p as int, p + 2int) =~= win);
    lemma_opcode_read(rewound_to(w, p), w0, v);
}


// --- The opcodes of the commands ---

/// The two bytes of the opcode with group `ogf` and command `ocf`: the
/// 16-bit value `ogf << 10 | ocf`, low byte first.
pub open spec fn opcode_bytes(ogf: nat, ocf: nat) -> Seq<u8> {
    seq![(ocf % 256) as u8, (ogf * 4 + ocf / 256) as u8]
}

/// Each command is written under the opcode the HCI assigns it: Reset
/// (OGF 0x03, OCF 0x003), Set Event Mask (0x03, 0x001), LE Set Event Mask
/// (0x08, 0x001), Write Scan Enable (0x03, 0x01A), Write Connection Accept
/// Timeout (0x03, 0x016), Write Page Timeout (0x03, 0x018), Read Local
/// Supported Commands (0x04, 0x002), Read BD_ADDR (0x04, 0x009), LE Read
/// Buffer Size (0x08, 0x002), Write Local Name (0x03, 0x013), Read Local
/// Name (0x03, 0x014).
pub proof fn law_hci_command_opcodes(c: HciCommand)
    ensures
        c is Reset ==> command_ids()[c.spec_index() as int] == opcode_bytes(0x03, 0x003),
        c is SetEventMask ==> command_ids()[c.spec_index() as int] == opcode_bytes(0x03, 0x001),
        c is LeSetEventMask ==> command_ids()[c.spec_index() as int] == opcode_bytes(0x08, 0x001),
        c is WriteScanEnable ==> command_ids()[c.spec_index() as int] == opcode_bytes(0x03, 0x01A),
        c is WriteConnectionAcceptTimeout ==> command_ids()[c.spec_index() as int] == opcode_bytes(0x03, 0x016),
        c is WritePageTimeout ==> command_ids()[c.spec_index() as int] == opcode_bytes(0x03, 0x018),
        c is ReadLocalSupportedCommands ==> command_ids()[c.spec_index() as int] == opcode_bytes(0x04, 0x002),
        c is ReadBdAddr ==> command_ids()[c.spec_index() as int] == opcode_bytes(0x04, 0x009),
        c is LeReadBufferSize ==> command_ids()[c.spec_index() as int] == opcode_bytes(0x08, 0x002),
        c is WriteLocalName ==> command_ids()[c.spec_index() as int] == opcode_bytes(0x03, 0x013),
        c is ReadLocalName ==> command_ids()[c.spec_index() as int] == opcode_bytes(0x03, 0x014),
{
    assert(opcode_bytes(0x03, 0x003) =~= seq![0x03u8, 0x0C]);
    assert(opcode_bytes(0x03, 0x001) =~= seq![0x01u8, 0x0C]);
    assert(opcode_bytes(0x08, 0x001) =~= seq![0x01u8, 0x20]);
    assert(opcode_bytes(0x03, 0x01A) =~= seq![0x1Au8, 0x0C]);
    assert(opcode_bytes(0x03, 0x016) =~= seq![0x16u8, 0x0C]);
    assert(opcode_bytes(0x03, 0x018) =~= seq![0x18u8, 0x0C]);
    assert(opcode_bytes(0x04, 0x002) =~= seq![0x02u8, 0x10]);
    assert(opcode_bytes(0x04, 0x009) =~= seq![0x09u8, 0x10]);
    assert(opcode_bytes(0x08, 0x002) =~= seq![0x02u8, 0x20]);
    assert(opcode_bytes(0x03, 0x013) =~= seq![0x13u8, 0x0C]);
    assert(opcode_bytes(0x03, 0x014) =~= seq![0x14u8, 0x0C]);
}

/// Each event is read and written under its event code: LE Meta (0x3E)
/// with parameter length 0x13 and subevent 0x01 for a connection complete,
/// Command Complete (0x0E) and Command Status (0x0F) with parameter length
/// 0x04.
pub proof fn law_hci_event_codes(e: HciEventMsg)
    ensures
        e is LeConnectionComplete ==> event_ids()[e.spec_index()] == seq![0x3Eu8, 0x13, 0x01],
        e is CommandComplete ==> event_ids()[e.spec_index()] == seq![0x0Eu8, 0x04],
        e is CommandStatus ==> event_ids()[e.spec_index()] == seq![0x0Fu8, 0x04],
{
}

} // verus!
