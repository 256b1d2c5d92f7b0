//! HCI packets (commands, events, ACL data) and the L2CAP, ATT and SMP PDUs
//! they carry, with their wire encodings.

use vstd::prelude::*;
use byteorder::{LittleEndian, ReadBytesExt, WriteBytesExt};
use std::io::Cursor;

verus! {

#[derive(Debug, Clone, PartialEq, Eq)]
pub enum ParseError {
    InvalidHciPacketType(u8),
    InvalidHciAclPacketHandle(u16),
    InvalidL2capChannelId(u16),
    InsufficientData,
}

pub type ParseResult<T> = Result<T, ParseError>;

#[derive(Debug, Clone, PartialEq, Eq)]
pub enum HciPacket {
    Command(HciCommand),
    AclData(HciAclData),
    Event(HciEvent),
    Unknown(u8, Vec<u8>),
}

#[derive(Debug, Clone, PartialEq, Eq)]
pub struct HciCommand {
    pub opcode: u16,
    pub data: Vec<u8>,
}

#[derive(Debug, Clone, PartialEq, Eq)]
pub struct HciEvent {
    pub event_code: u8,
    pub data: Vec<u8>,
}

#[derive(Debug, Clone, PartialEq, Eq)]
pub enum L2capPacket {
    Att(AttPdu),
    Smp(SmpPdu),
    Unknown(u16, Vec<u8>),
}

#[derive(Debug, Clone, PartialEq, Eq, Copy)]
pub enum PacketBoundaryFlag {
    FirstNonFlushable,
    Continuation,
    FirstFlushable,
    Deprecated,
}

#[derive(Debug, Clone, PartialEq, Eq, Copy)]
pub enum BroadcastFlag {
    PointToPoint,
    BdEdrBroadcast,
}

#[derive(Debug, Clone, PartialEq, Eq)]
pub struct HciAclData {
    pub handle: u16,
    pub pb: PacketBoundaryFlag,
    pub bc: BroadcastFlag,
    pub data: L2capPacket,
}

#[derive(Debug, Clone, PartialEq, Eq)]
pub struct AttPdu {
    pub opcode: u8,
    pub data: Vec<u8>,
}

#[derive(Debug, Clone, PartialEq, Eq)]
pub struct SmpPdu {
    pub code: u8,
    pub data: Vec<u8>,
}

// --- Abstract values ---

/// An L2CAP PDU with its payload bytes by value.
pub enum L2capView {
    Att(u8, Seq<u8>),
    Smp(u8, Seq<u8>),
    Unknown(u16, Seq<u8>),
}

/// An ACL data packet with its payload by value.
pub struct AclView {
    pub handle: u16,
    pub pb: PacketBoundaryFlag,
    pub bc: BroadcastFlag,
    pub data: L2capView,
}

/// An HCI packet with its payload bytes by value.
pub enum HciPacketView {
    Command(u16, Seq<u8>),
    AclData(AclView),
    Event(u8, Seq<u8>),
    Unknown(u8, Seq<u8>),
}

impl View for AttPdu {
    type V = (u8, Seq<u8>);

    open spec fn view(&self) -> (u8, Seq<u8>) {
        (self.opcode, self.data@)
    }
}

impl View for SmpPdu {
    type V = (u8, Seq<u8>);

    open spec fn view(&self) -> (u8, Seq<u8>) {
        (self.code, self.data@)
    }
}

impl View for HciCommand {
    type V = (u16, Seq<u8>);

    open spec fn view(&self) -> (u16, Seq<u8>) {
        (self.opcode, self.data@)
    }
}

impl View for HciEvent {
    type V = (u8, Seq<u8>);

    open spec fn view(&self) -> (u8, Seq<u8>) {
        (self.event_code, self.data@)
    }
}

impl View for L2capPacket {
    type V = L2capView;

    open spec fn view(&self) -> L2capView {
        match self {
            L2capPacket::Att(pdu) => L2capView::Att(pdu.opcode, pdu.data@),
            L2capPacket::Smp(pdu) => L2capView::Smp(pdu.code, pdu.data@),
            L2capPacket::Unknown(cid, data) => L2capView::Unknown(*cid, data@),
        }
    }
}

impl View for HciAclData {
    type V = AclView;

    open spec fn view(&self) -> AclView {
        AclView { handle: self.handle, pb: self.pb, bc: self.bc, data: self.data@ }
    }
}

impl View for HciPacket {
    type V = HciPacketView;

    open spec fn view(&self) -> HciPacketView {
        match self {
            HciPacket::Command(c) => HciPacketView::Command(c.opcode, c.data@),
            HciPacket::AclData(a) => HciPacketView::AclData(a@),
            HciPacket::Event(e) => HciPacketView::Event(e.event_code, e.data@),
            HciPacket::Unknown(t, d) => HciPacketView::Unknown(*t, d@),
        }
    }
}

/// A parse result with its value replaced by the value's view.
pub open spec fn parsed<T: View>(r: ParseResult<T>) -> ParseResult<T::V> {
    match r {
        Ok(v) => Ok(v@),
        Err(e) => Err(e),
    }
}

// --- Wire format ---

/// An ATT or SMP PDU read from `d`: its first byte (the opcode or code) and
/// the parameters that follow; an empty input is too short.
pub open spec fn parse_pdu(d: Seq<u8>) -> ParseResult<(u8, Seq<u8>)> {
    if d.len() == 0 {
        Err(ParseError::InsufficientData)
    } else {
        Ok((d[0], d.drop_first()))
    }
}

/// The bytes of an ATT or SMP PDU: its opcode (or code), then its parameters.
pub open spec fn pdu_bytes(p: (u8, Seq<u8>)) -> Seq<u8> {
    seq![p.0] + p.1
}

/// The little-endian `u16` in the first two bytes of `s`.
pub open spec fn le16_at(s: Seq<u8>, i: int) -> u16 {
    (s[i] + 256 * s[i + 1]) as u16
}

/// The two little-endian bytes of `v`.
pub open spec fn le16(v: u16) -> Seq<u8> {
    seq![(v % 256) as u8, (v / 256) as u8]
}

/// The two flag bits of a packet boundary flag.
pub open spec fn pb_bits(pb: PacketBoundaryFlag) -> u16 {
    match pb {
        PacketBoundaryFlag::FirstNonFlushable => 0,
        PacketBoundaryFlag::Continuation => 1,
        PacketBoundaryFlag::FirstFlushable => 2,
        PacketBoundaryFlag::Deprecated => 3,
    }
}

/// The flag bit of a broadcast flag.
pub open spec fn bc_bits(bc: BroadcastFlag) -> u16 {
    match bc {
        BroadcastFlag::PointToPoint => 0,
        BroadcastFlag::BdEdrBroadcast => 1,
    }
}

/// The packet boundary flag of two flag bits.
pub open spec fn pb_of(bits: u16) -> PacketBoundaryFlag {
    if bits == 0 {
        PacketBoundaryFlag::FirstNonFlushable
    } else if bits == 1 {
        PacketBoundaryFlag::Continuation
    } else if bits == 2 {
        PacketBoundaryFlag::FirstFlushable
    } else {
        PacketBoundaryFlag::Deprecated
    }
}

/// The channel id and the payload bytes of an L2CAP PDU.
pub open spec fn l2cap_payload(m: L2capView) -> (u16, Seq<u8>) {
    match m {
        L2capView::Att(op, d) => (0x0004, seq![op] + d),
        L2capView::Smp(code, d) => (0x0006, seq![code] + d),
        L2capView::Unknown(cid, d) => (cid, d),
    }
}

/// The bytes of an L2CAP PDU: payload length, channel id, payload.
pub open spec fn l2cap_bytes(m: L2capView) -> Seq<u8> {
    let (cid, payload) = l2cap_payload(m);
    le16(payload.len() as u16) + le16(cid) + payload
}

/// The handle-and-flags field of an ACL packet.
pub open spec fn acl_header(handle: u16, pb: PacketBoundaryFlag, bc: BroadcastFlag) -> u16 {
    (handle & 0x0FFF) | (pb_bits(pb) << 12u16) | (bc_bits(bc) << 14u16)
}

/// The bytes of an ACL packet after its type indicator.
pub open spec fn acl_bytes(a: AclView) -> Seq<u8> {
    let l2 = l2cap_bytes(a.data);
    le16(acl_header(a.handle, a.pb, a.bc)) + le16(l2.len() as u16) + l2
}

/// The bytes of an HCI packet, type indicator first.
pub open spec fn hci_bytes(m: HciPacketView) -> Seq<u8> {
    match m {
        HciPacketView::Command(op, d) => seq![0x01u8] + le16(op) + seq![d.len() as u8] + d,
        HciPacketView::AclData(a) => seq![0x02u8] + acl_bytes(a),
        HciPacketView::Event(code, d) => seq![0x04u8] + seq![code, d.len() as u8] + d,
        HciPacketView::Unknown(t, d) => seq![t] + d,
    }
}

/// The L2CAP PDU at the start of `d`.
pub open spec fn parse_l2cap(d: Seq<u8>) -> ParseResult<L2capView> {
    if d.len() < 4 {
        Err(ParseError::InsufficientData)
    } else {
        let len = le16_at(d, 0);
        let cid = le16_at(d, 2);
        if d.len() < 4 + len {
            Err(ParseError::InsufficientData)
        } else {
            let payload = d.subrange(4, 4 + len);
            if cid == 0x0004 || cid == 0x0006 {
                if payload.len() == 0 {
                    Err(ParseError::InsufficientData)
                } else if cid == 0x0004 {
                    Ok(L2capView::Att(payload[0], payload.drop_first()))
                } else {
                    Ok(L2capView::Smp(payload[0], payload.drop_first()))
                }
            } else {
                Ok(L2capView::Unknown(cid, payload))
            }
        }
    }
}

/// The ACL packet at the start of `d` (after the type indicator); the
/// ACL length field is not read.
pub open spec fn parse_acl(d: Seq<u8>) -> ParseResult<AclView> {
    if d.len() < 4 {
        Err(ParseError::InsufficientData)
    } else {
        let hf = le16_at(d, 0);
        let handle = hf & 0x0FFF;
        if handle > 0x0EFF {
            Err(ParseError::InvalidHciAclPacketHandle(hf))
        } else if (hf >> 14u16) & 0b11 > 1 {
            Err(ParseError::InvalidHciAclPacketHandle(hf))
        } else {
            match parse_l2cap(d.subrange(4, d.len() as int)) {
                Ok(l2) => Ok(
                    AclView {
                        handle,
                        pb: pb_of((hf >> 12u16) & 0b11),
                        bc: if (hf >> 14u16) & 0b11 == 0 {
                            BroadcastFlag::PointToPoint
                        } else {
                            BroadcastFlag::BdEdrBroadcast
                        },
                        data: l2,
                    },
                ),
                Err(e) => Err(e),
            }
        }
    }
}

/// The command at the start of `d` (after the type indicator).
pub open spec fn parse_command(d: Seq<u8>) -> ParseResult<(u16, Seq<u8>)> {
    if d.len() < 3 || d.len() < 3 + d[2] {
        Err(ParseError::InsufficientData)
    } else {
        Ok((le16_at(d, 0), d.subrange(3, 3 + d[2])))
    }
}

/// The event at the start of `d` (after the type indicator).
pub open spec fn parse_event(d: Seq<u8>) -> ParseResult<(u8, Seq<u8>)> {
    if d.len() < 2 || d.len() < 2 + d[1] {
        Err(ParseError::InsufficientData)
    } else {
        Ok((d[0], d.subrange(2, 2 + d[1])))
    }
}

/// The HCI packet at the start of `d`, type indicator first.
pub open spec fn parse_hci(d: Seq<u8>) -> ParseResult<HciPacketView> {
    if d.len() == 0 {
        Err(ParseError::InsufficientData)
    } else {
        let payload = d.drop_first();
        if d[0] == 1 {
            match parse_command(payload) {
                Ok((op, params)) => Ok(HciPacketView::Command(op, params)),
                Err(e) => Err(e),
            }
        } else if d[0] == 2 {
            match parse_acl(payload) {
                Ok(a) => Ok(HciPacketView::AclData(a)),
                Err(e) => Err(e),
            }
        } else if d[0] == 4 {
            match parse_event(payload) {
                Ok((code, params)) => Ok(HciPacketView::Event(code, params)),
                Err(e) => Err(e),
            }
        } else {
            Ok(HciPacketView::Unknown(d[0], payload))
        }
    }
}

// --- Byte order ---

/// `ReadBytesExt::read_u16::<LittleEndian>` on a cursor over `buf`: the
/// first two bytes of `buf` as a little-endian number, or `None` when `buf`
/// holds fewer than two bytes (the reader's unexpected-end error).
#[verifier::external_body]
fn read_u16_le(buf: &[u8]) -> (r: Option<u16>)
    ensures
        r == if buf@.len() >= 2 {
            Some(le16_at(buf@, 0))
        } else {
            None::<u16>
        },
{
    Cursor::new(buf).read_u16::<LittleEndian>().ok()
}

/// `WriteBytesExt::write_u16::<LittleEndian>` on a vector: appends the two
/// little-endian bytes of `n` (writing to a vector does not fail).
#[verifier::external_body]
fn write_u16_le(bytes: &mut Vec<u8>, n: u16)
    ensures
        final(bytes)@ == old(bytes)@ + le16(n),
{
    bytes.write_u16::<LittleEndian>(n).unwrap()
}

/// `WriteBytesExt::write_u8` on a vector: appends `n` (writing to a vector
/// does not fail).
#[verifier::external_body]
fn write_u8(bytes: &mut Vec<u8>, n: u8)
    ensures
        final(bytes)@ == old(bytes)@.push(n),
{
    bytes.write_u8(n).unwrap()
}

/// Appends `tail` to `bytes`.
pub(crate) fn append(bytes: &mut Vec<u8>, tail: &[u8])
    ensures
        final(bytes)@ == old(bytes)@ + tail@,
{
    let mut i: usize = 0;
    let ghost start = bytes@;
    while i < tail.len()
        invariant
            i <= tail@.len(),
            bytes@ == start + tail@.subrange(0, i as int),
        decreases tail@.len() - i,
    {
        bytes.push(tail[i]);
        i = i + 1;
        proof {
            assert(tail@.subrange(0, i as int) =~= tail@.subrange(0, i - 1).push(tail@[i - 1]));
        }
    }
    proof {
        assert(tail@.subrange(0, tail@.len() as int) =~= tail@);
    }
}

/// The bytes of `s` from `from` to the end.
fn tail_of(s: &[u8], from: usize) -> (r: &[u8])
    requires
        from <= s@.len(),
    ensures
        r@ == s@.subrange(from as int, s@.len() as int),
{
    vstd::slice::slice_subrange(s, from, s.len())
}

// --- Packet Parsing and Serialization ---

impl HciPacket {
    /// Parses a complete HCI packet (including the type indicator) from a byte slice.
    pub fn from_bytes(data: &[u8]) -> (r: ParseResult<Self>)
        ensures
            parsed(r) == parse_hci(data@),
    {
        if data.len() == 0 {
            return Err(ParseError::InsufficientData);
        }
        let packet_type = data[0];
        let payload = tail_of(data, 1);  // Data after the type indicator
        proof {
            assert(payload@ =~= data@.drop_first());
        }
        match packet_type {
            1 => {
                // Command
                match HciCommand::from_bytes(payload) {
                    Ok(cmd) => Ok(HciPacket::Command(cmd)),
                    Err(e) => Err(e),
                }
            },
            2 => {
                // ACL Data
                match HciAclData::from_bytes(payload) {
                    Ok(acl) => Ok(HciPacket::AclData(acl)),
                    Err(e) => Err(e),
                }
            },
            4 => {
                // Event
                match HciEvent::from_bytes(payload) {
                    Ok(evt) => Ok(HciPacket::Event(evt)),
                    Err(e) => Err(e),
                }
            },
            unknown => Ok(HciPacket::Unknown(unknown, vstd::slice::slice_to_vec(payload))),
        }
    }

    /// The length fields of the packet fit their widths.
    pub open spec fn serializable(&self) -> bool {
        match self {
            HciPacket::Command(cmd) => cmd.data@.len() <= 255,
            HciPacket::AclData(acl) => acl.serializable(),
            HciPacket::Event(evt) => evt.data@.len() <= 255,
            HciPacket::Unknown(_, data) => data@.len() < usize::MAX,
        }
    }

    pub fn to_bytes(&self) -> (r: Vec<u8>)
        requires
            self.serializable(),
        ensures
            r@ == hci_bytes(self@),
    {
        match self {
            HciPacket::Command(cmd) => {
                let mut bytes = vec![0x01u8];
                let tail = cmd.to_bytes();
                append(&mut bytes, tail.as_slice());
                proof {
                    assert(bytes@ =~= hci_bytes(self@));
                }
                bytes
            },
            HciPacket::AclData(acl) => {
                let mut bytes = vec![0x02u8];
                let tail = acl.to_bytes();
                append(&mut bytes, tail.as_slice());
                proof {
                    assert(bytes@ =~= hci_bytes(self@));
                }
                bytes
            },
            HciPacket::Event(evt) => {
                let mut bytes = vec![0x04u8];
                let tail = evt.to_bytes();
                append(&mut bytes, tail.as_slice());
                proof {
                    assert(bytes@ =~= hci_bytes(self@));
                }
                bytes
            },
            HciPacket::Unknown(packet_type, data) => {
                let mut bytes = Vec::with_capacity(1 + data.len());
                bytes.push(*packet_type);
                append(&mut bytes, data.as_slice());
                proof {
                    assert(bytes@ =~= hci_bytes(self@));
                }
                bytes
            },
        }
    }
}

impl HciCommand {
    /// Parses the payload of an HCI Command packet (Opcode, Length, Parameters).
    /// Assumes the HCI packet type indicator (0x01) has already been consumed.
    pub fn from_bytes(data: &[u8]) -> (r: ParseResult<Self>)
        ensures
            parsed(r) == parse_command(data@),
    {
        // Expects Opcode (2) + Length (1) = 3 bytes minimum payload
        if data.len() < 3 {
            return Err(ParseError::InsufficientData);
        }
        let opcode = match read_u16_le(vstd::slice::slice_subrange(data, 0, 2)) {
            Some(v) => v,
            None => {
                return Err(ParseError::InsufficientData);
            },
        };  // Index 0, 1
        let param_len = data[2] as usize;  // Index 2

        let total_expected_payload_len = 3 + param_len;
        if data.len() < total_expected_payload_len {
            return Err(ParseError::InsufficientData);
        }
        Ok(
            Self {
                opcode,
                // Parameters start after opcode (2) and length (1)
                data: vstd::slice::slice_to_vec(
                    vstd::slice::slice_subrange(data, 3, total_expected_payload_len),
                ),
            },
        )
    }

    pub fn to_bytes(&self) -> (r: Vec<u8>)
        requires
            self.data@.len() <= 255,
        ensures
            r@ == le16(self.opcode) + seq![self.data@.len() as u8] + self.data@,
    {
        let capacity = 4 + self.data.len();  // 1 (Type) + 2 (Opcode) + 1 (Len) + Params
        let mut bytes = Vec::with_capacity(capacity);
        write_u16_le(&mut bytes, self.opcode);
        write_u8(&mut bytes, self.data.len() as u8);
        append(&mut bytes, self.data.as_slice());
        proof {
            assert(bytes@ =~= le16(self.opcode) + seq![self.data@.len() as u8] + self.data@);
        }
        bytes
    }
}

impl HciEvent {
    /// Parses the payload of an HCI Event packet (Event Code, Length, Parameters).
    /// Assumes the HCI packet type indicator (0x04) has already been consumed.
    pub fn from_bytes(data: &[u8]) -> (r: ParseResult<Self>)
        ensures
            parsed(r) == parse_event(data@),
    {
        // Expects Event Code (1) + Length (1) = 2 bytes minimum payload
        if data.len() < 2 {
            return Err(ParseError::InsufficientData);
        }
        let event_code = data[0];  // Index 0
        let param_len = data[1] as usize;  // Index 1

        let total_expected_payload_len = 2 + param_len;
        if data.len() < total_expected_payload_len {
            return Err(ParseError::InsufficientData);
        }
        Ok(
            Self {
                event_code,
                // Parameters start after event code (1) and length (1)
                data: vstd::slice::slice_to_vec(
                    vstd::slice::slice_subrange(data, 2, total_expected_payload_len),
                ),
            },
        )
    }

    pub fn to_bytes(&self) -> (r: Vec<u8>)
        requires
            self.data@.len() <= 255,
        ensures
            r@ == seq![self.event_code, self.data@.len() as u8] + self.data@,
    {
        let capacity = 3 + self.data.len();  // 1 (Type) + 1 (Code) + 1 (Len) + Params
        let mut bytes = Vec::with_capacity(capacity);
        write_u8(&mut bytes, self.event_code);
        write_u8(&mut bytes, self.data.len() as u8);
        append(&mut bytes, self.data.as_slice());
        proof {
            assert(bytes@ =~= seq![self.event_code, self.data@.len() as u8] + self.data@);
        }
        bytes
    }
}

impl L2capPacket {
    /// Parses an L2CAP PDU (Length, CID, Payload).
    pub fn from_bytes(data: &[u8]) -> (r: ParseResult<Self>)
        ensures
            parsed(r) == parse_l2cap(data@),
    {
        // L2CAP Basic Header: Length (2) + CID (2) = 4 bytes minimum
        if data.len() < 4 {
            return Err(ParseError::InsufficientData);
        }
        let l2cap_payload_len = match read_u16_le(vstd::slice::slice_subrange(data, 0, 2)) {
            Some(v) => v as usize,
            None => {
                return Err(ParseError::InsufficientData);
            },
        };  // Index 0, 1

        let channel_id = match read_u16_le(vstd::slice::slice_subrange(data, 2, 4)) {
            Some(v) => v,
            None => {
                return Err(ParseError::InsufficientData);
            },
        };  // Index 2, 3

        let total_expected_l2cap_len = 4 + l2cap_payload_len;
        if data.len() < total_expected_l2cap_len {
            return Err(ParseError::InsufficientData);
        }

        // Slice the actual inner payload data (ATT, SMP, etc.)
        let inner_payload_data = vstd::slice::slice_subrange(data, 4, total_expected_l2cap_len);

        let l2cap_packet_data = match channel_id {
            0x0004 => {
                // ATT CID
                match AttPdu::from_bytes(inner_payload_data) {
                    Ok(att_pdu) => L2capPacket::Att(att_pdu),
                    Err(e) => {
                        return Err(e);
                    },
                }
            },
            0x0006 => {
                // SMP CID (BLE)
                match SmpPdu::from_bytes(inner_payload_data) {
                    Ok(smp_pdu) => L2capPacket::Smp(smp_pdu),
                    Err(e) => {
                        return Err(e);
                    },
                }
            },
            _ => L2capPacket::Unknown(channel_id, vstd::slice::slice_to_vec(inner_payload_data)),
        };
        Ok(l2cap_packet_data)
    }

    /// The payload fits the 16-bit length field.
    pub open spec fn serializable(&self) -> bool {
        l2cap_payload(self@).1.len() <= u16::MAX
    }

    pub fn to_bytes(&self) -> (r: Vec<u8>)
        requires
            self.serializable(),
        ensures
            r@ == l2cap_bytes(self@),
    {
        let (channel_id, inner_pdu_bytes) = self.to_bytes_with_cid();
        let l2cap_payload_len = inner_pdu_bytes.len();

        let capacity = 4 + l2cap_payload_len;
        let mut bytes = Vec::with_capacity(capacity);

        write_u16_le(&mut bytes, l2cap_payload_len as u16);
        write_u16_le(&mut bytes, channel_id);
        append(&mut bytes, inner_pdu_bytes.as_slice());
        proof {
            assert(bytes@ =~= l2cap_bytes(self@));
        }
        bytes
    }

    fn to_bytes_with_cid(&self) -> (r: (u16, Vec<u8>))
        requires
            self.serializable(),
        ensures
            (r.0, r.1@) == l2cap_payload(self@),
    {
        match self {
            L2capPacket::Att(pdu) => (self.channel_id(), pdu.to_bytes()),
            L2capPacket::Smp(pdu) => (self.channel_id(), pdu.to_bytes()),
            L2capPacket::Unknown(cid, data) => (*cid, vstd::slice::slice_to_vec(data.as_slice())),
        }
    }

    pub fn channel_id(&self) -> (r: u16)
        ensures
            r == l2cap_payload(self@).0,
    {
        match self {
            L2capPacket::Att(_) => 0x0004,
            L2capPacket::Smp(_) => 0x0006,
            L2capPacket::Unknown(cid, _) => *cid,
        }
    }
}

impl PacketBoundaryFlag {
    /// The two flag bits (the enum discriminant of the wire format).
    fn bits(&self) -> (r: u16)
        ensures
            r == pb_bits(*self),
    {
        match self {
            PacketBoundaryFlag::FirstNonFlushable => 0b00,
            PacketBoundaryFlag::Continuation => 0b01,
            PacketBoundaryFlag::FirstFlushable => 0b10,
            PacketBoundaryFlag::Deprecated => 0b11,
        }
    }
}

impl BroadcastFlag {
    /// The flag bits (the enum discriminant of the wire format).
    fn bits(&self) -> (r: u16)
        ensures
            r == bc_bits(*self),
    {
        match self {
            BroadcastFlag::PointToPoint => 0b00,
            BroadcastFlag::BdEdrBroadcast => 0b01,
        }
    }
}

impl HciAclData {
    /// Assumes the HCI packet type indicator (0x02) has already been consumed
    pub fn from_bytes(data: &[u8]) -> (r: ParseResult<Self>)
        ensures
            parsed(r) == parse_acl(data@),
    {
        if data.len() < 4 {
            return Err(ParseError::InsufficientData);
        }

        let handle_and_flags = match read_u16_le(vstd::slice::slice_subrange(data, 0, 2)) {
            Some(v) => v,
            None => {
                return Err(ParseError::InsufficientData);
            },
        };

        // Handle range: 0x000 to 0xEFF (all other values reserved for future use)
        let handle = handle_and_flags & 0x0FFF;  // Mask to 12 bits
        if handle > 0x0EFF {
            return Err(ParseError::InvalidHciAclPacketHandle(handle_and_flags));
        }

        let pb = match (handle_and_flags >> 12) & 0b11 {
            0 => PacketBoundaryFlag::FirstNonFlushable,
            1 => PacketBoundaryFlag::Continuation,
            2 => PacketBoundaryFlag::FirstFlushable,
            _ => PacketBoundaryFlag::Deprecated,
        };

        let bc = match (handle_and_flags >> 14) & 0b11 {
            0 => BroadcastFlag::PointToPoint,
            1 => BroadcastFlag::BdEdrBroadcast,
            _ => {
                return Err(ParseError::InvalidHciAclPacketHandle(handle_and_flags));
            },
        };

        let l2cap_packet = match L2capPacket::from_bytes(tail_of(data, 4)) {
            Ok(p) => p,
            Err(e) => {
                return Err(e);
            },
        };

        Ok(HciAclData { handle, pb, bc, data: l2cap_packet })
    }

    /// The handle fits 12 bits and the L2CAP PDU fits the 16-bit ACL length field.
    pub open spec fn serializable(&self) -> bool {
        &&& self.handle <= 0x0FFF
        &&& self.data.serializable()
        &&& l2cap_bytes(self.data@).len() <= u16::MAX
    }

    pub fn to_bytes(&self) -> (r: Vec<u8>)
        requires
            self.serializable(),
        ensures
            r@ == acl_bytes(self@),
    {
        let l2cap_pdu_bytes = self.data.to_bytes();
        let hci_total_data_len = l2cap_pdu_bytes.len();

        let capacity = 5 + hci_total_data_len;
        let mut bytes = Vec::with_capacity(capacity);

        let mut handle_and_flags = self.handle & 0x0FFF;  // Mask to 12 bits
        handle_and_flags = handle_and_flags | (self.pb.bits() << 12);  // Set Packet Boundary Flag
        handle_and_flags = handle_and_flags | (self.bc.bits() << 14);  // Set Broadcast Flag

        write_u16_le(&mut bytes, handle_and_flags);
        write_u16_le(&mut bytes, hci_total_data_len as u16);
        append(&mut bytes, l2cap_pdu_bytes.as_slice());
        proof {
            assert(bytes@ =~= acl_bytes(self@));
        }
        bytes
    }
}

impl AttPdu {
    /// Parses an ATT PDU payload (Opcode, Parameters).
    pub fn from_bytes(data: &[u8]) -> (r: ParseResult<Self>)
        ensures
            parsed(r) == parse_pdu(data@),
    {
        if data.len() == 0 {
            return Err(ParseError::InsufficientData);
        }
        let opcode = data[0];  // Index 0
        let rest = tail_of(data, 1);
        proof {
            assert(rest@ =~= data@.drop_first());
        }
        Ok(AttPdu {
            opcode,
            data: vstd::slice::slice_to_vec(rest),  // Parameters start after opcode
        })
    }

    pub fn to_bytes(&self) -> (r: Vec<u8>)
        requires
            self.data@.len() < usize::MAX,
        ensures
            r@ == pdu_bytes(self@),
    {
        let capacity = 1 + self.data.len();
        let mut bytes = Vec::with_capacity(capacity);
        write_u8(&mut bytes, self.opcode);
        append(&mut bytes, self.data.as_slice());
        proof {
            assert(bytes@ =~= seq![self.opcode] + self.data@);
        }
        bytes
    }
}

impl SmpPdu {
    /// Parses an SMP PDU payload (Code, Parameters).
    pub fn from_bytes(data: &[u8]) -> (r: ParseResult<Self>)
        ensures
            parsed(r) == parse_pdu(data@),
    {
        if data.len() == 0 {
            return Err(ParseError::InsufficientData);
        }
        let code = data[0];  // Index 0
        let rest = tail_of(data, 1);
        proof {
            assert(rest@ =~= data@.drop_first());
        }
        Ok(SmpPdu {
            code,
            data: vstd::slice::slice_to_vec(rest),  // Parameters start after code
        })
    }

    pub fn to_bytes(&self) -> (r: Vec<u8>)
        requires
            self.data@.len() < usize::MAX,
        ensures
            r@ == pdu_bytes(self@),
    {
        let capacity = 1 + self.data.len();
        let mut bytes = Vec::with_capacity(capacity);
        write_u8(&mut bytes, self.code);
        append(&mut bytes, self.data.as_slice());
        proof {
            assert(bytes@ =~= seq![self.code] + self.data@);
        }
        bytes
    }
}


// --- Laws ---

/// `a` is the start of `b`.
pub open spec fn is_prefix(a: Seq<u8>, b: Seq<u8>) -> bool {
    a.len() <= b.len() && b.subrange(0, a.len() as int) == a
}

/// An L2CAP PDU that its encoding reproduces: Att and Smp payloads and
/// Unknown channels other than the ATT and SMP ones, all within the 16-bit
/// length field.
pub open spec fn l2cap_canonical(m: L2capView) -> bool {
    &&& l2cap_payload(m).1.len() <= u16::MAX
    &&& m matches L2capView::Unknown(cid, _) ==> cid != 0x0004 && cid != 0x0006
}

/// An HCI packet that its encoding reproduces.
pub open spec fn hci_canonical(m: HciPacketView) -> bool {
    match m {
        HciPacketView::Command(_, d) => d.len() <= 255,
        HciPacketView::Event(_, d) => d.len() <= 255,
        HciPacketView::Unknown(t, _) => t != 1 && t != 2 && t != 4,
        HciPacketView::AclData(a) => {
            &&& a.handle <= 0x0EFF
            &&& l2cap_canonical(a.data)
            &&& l2cap_bytes(a.data).len() <= u16::MAX
        },
    }
}

proof fn lemma_le16(v: u16, rest: Seq<u8>)
    ensures
        le16_at(le16(v) + rest, 0) == v,
        (le16(v) + rest).len() == 2 + rest.len(),
{
    let s = le16(v) + rest;
    assert(s[0] == (v % 256) as u8);
    assert(s[1] == (v / 256) as u8);
}

proof fn lemma_le16_of_at(s: Seq<u8>, i: int)
    requires
        0 <= i,
        i + 2 <= s.len(),
    ensures
        le16(le16_at(s, i)) == s.subrange(i, i + 2),
{
    assert(le16(le16_at(s, i)) =~= s.subrange(i, i + 2));
}

proof fn lemma_acl_header(handle: u16, pb: PacketBoundaryFlag, bc: BroadcastFlag)
    requires
        handle <= 0x0FFF,
    ensures
        acl_header(handle, pb, bc) & 0x0FFF == handle,
        (acl_header(handle, pb, bc) >> 12u16) & 0b11 == pb_bits(pb),
        (acl_header(handle, pb, bc) >> 14u16) & 0b11 == bc_bits(bc),
{
    let p = pb_bits(pb);
    let b = bc_bits(bc);
    assert(((handle & 0x0FFF) | (p << 12u16) | (b << 14u16)) & 0x0FFF == handle && (((handle & 0x0FFF) | (p
        << 12u16) | (b << 14u16)) >> 12u16) & 0b11 == p && (((handle & 0x0FFF) | (p << 12u16) | (b << 14u16))
        >> 14u16) & 0b11 == b) by (bit_vector)
        requires
            handle <= 0x0FFF,
            p <= 3,
            b <= 1,
    ;
}

/// The flags of a parsed ACL header, put back, give the header.
proof fn lemma_acl_header_of(hf: u16)
    requires
        (hf >> 14u16) & 0b11 <= 1,
    ensures
        ({
            let bc = if (hf >> 14u16) & 0b11 == 0 {
                BroadcastFlag::PointToPoint
            } else {
                BroadcastFlag::BdEdrBroadcast
            };
            acl_header(hf & 0x0FFF, pb_of((hf >> 12u16) & 0b11), bc) == hf
        }),
{
    let p = (hf >> 12u16) & 0b11;
    let b = (hf >> 14u16) & 0b11;
    assert(p <= 3) by (bit_vector)
        requires
            p == (hf >> 12u16) & 0b11,
    ;
    assert(pb_bits(pb_of(p)) == p);
    let bc = if b == 0 {
        BroadcastFlag::PointToPoint
    } else {
        BroadcastFlag::BdEdrBroadcast
    };
    assert(bc_bits(bc) == b);
    assert(((hf & 0x0FFF) & 0x0FFF) | (p << 12u16) | (b << 14u16) == hf) by (bit_vector)
        requires
            p == (hf >> 12u16) & 0b11,
            b == (hf >> 14u16) & 0b11,
            b <= 1,
    ;
}

/// Parsing the encoding of a canonical L2CAP PDU gives it back.
pub proof fn law_l2cap_roundtrip(m: L2capView, rest: Seq<u8>)
    requires
        l2cap_canonical(m),
    ensures
        parse_l2cap(l2cap_bytes(m) + rest) == Ok::<L2capView, ParseError>(m),
{
    let (cid, payload) = l2cap_payload(m);
    let d = l2cap_bytes(m) + rest;
    lemma_le16(payload.len() as u16, le16(cid) + payload + rest);
    assert(d =~= le16(payload.len() as u16) + (le16(cid) + payload + rest));
    lemma_le16(cid, payload + rest);
    assert(d.subrange(2, d.len() as int) =~= le16(cid) + payload + rest);
    assert(le16_at(d, 2) == le16_at(d.subrange(2, d.len() as int), 0));
    assert(d.subrange(4, (4 + payload.len()) as int) =~= payload);
    match m {
        L2capView::Att(op, data) => {
            assert(payload.drop_first() =~= data);
        },
        L2capView::Smp(code, data) => {
            assert(payload.drop_first() =~= data);
        },
        L2capView::Unknown(_, _) => {},
    }
}

proof fn lemma_command_roundtrip(op: u16, params: Seq<u8>, rest: Seq<u8>)
    requires
        params.len() <= 255,
    ensures
        parse_command(le16(op) + seq![params.len() as u8] + params + rest) == Ok::<(u16, Seq<u8>), ParseError>(
            (op, params),
        ),
{
    let payload = le16(op) + seq![params.len() as u8] + params + rest;
    assert(payload =~= le16(op) + (seq![params.len() as u8] + params + rest));
    lemma_le16(op, seq![params.len() as u8] + params + rest);
    assert(payload[2] == params.len() as u8);
    assert(payload[2] as int == params.len());
    assert(payload.subrange(3, (3 + params.len()) as int) =~= params);
}

proof fn lemma_event_roundtrip(code: u8, params: Seq<u8>, rest: Seq<u8>)
    requires
        params.len() <= 255,
    ensures
        parse_event(seq![code, params.len() as u8] + params + rest) == Ok::<(u8, Seq<u8>), ParseError>(
            (code, params),
        ),
{
    let payload = seq![code, params.len() as u8] + params + rest;
    assert(payload[1] as int == params.len());
    assert(payload.subrange(2, (2 + params.len()) as int) =~= params);
}

proof fn lemma_acl_roundtrip(a: AclView, rest: Seq<u8>)
    requires
        a.handle <= 0x0EFF,
        l2cap_canonical(a.data),
        l2cap_bytes(a.data).len() <= u16::MAX,
    ensures
        parse_acl(acl_bytes(a) + rest) == Ok::<AclView, ParseError>(a),
{
    let l2 = l2cap_bytes(a.data);
    let hf = acl_header(a.handle, a.pb, a.bc);
    let payload = acl_bytes(a) + rest;
    assert(payload =~= le16(hf) + (le16(l2.len() as u16) + l2 + rest));
    lemma_le16(hf, le16(l2.len() as u16) + l2 + rest);
    lemma_acl_header(a.handle, a.pb, a.bc);
    assert(payload.subrange(4, payload.len() as int) =~= l2 + rest);
    law_l2cap_roundtrip(a.data, rest);
    assert(pb_of(pb_bits(a.pb)) == a.pb);
}

/// Parsing the encoding of a canonical HCI packet gives it back, whatever
/// bytes follow it (a packet of unknown type takes all bytes that follow
/// its type, so nothing may follow it).
pub proof fn law_hci_roundtrip(m: HciPacketView, rest: Seq<u8>)
    requires
        hci_canonical(m),
        m is Unknown ==> rest.len() == 0,
    ensures
        parse_hci(hci_bytes(m) + rest) == Ok::<HciPacketView, ParseError>(m),
{
    let d = hci_bytes(m) + rest;
    match m {
        HciPacketView::Command(op, params) => {
            assert(d[0] == 0x01u8);
            assert(d.drop_first() =~= le16(op) + seq![params.len() as u8] + params + rest);
            lemma_command_roundtrip(op, params, rest);
            assert(parse_command(d.drop_first()) == Ok::<(u16, Seq<u8>), ParseError>((op, params)));
            assert(d.len() > 0);
            assert(parse_hci(d) == Ok::<HciPacketView, ParseError>(HciPacketView::Command(op, params)));
        },
        HciPacketView::Event(code, params) => {
            assert(d.drop_first() =~= seq![code, params.len() as u8] + params + rest);
            lemma_event_roundtrip(code, params, rest);
        },
        HciPacketView::Unknown(t, data) => {
            assert(d.drop_first() =~= data);
        },
        HciPacketView::AclData(a) => {
            assert(d.drop_first() =~= acl_bytes(a) + rest);
            lemma_acl_roundtrip(a, rest);
        },
    }
}

/// A successfully parsed L2CAP PDU encodes back to the bytes it was read from.
pub proof fn law_l2cap_reencode(d: Seq<u8>)
    requires
        parse_l2cap(d) is Ok,
    ensures
        is_prefix(l2cap_bytes(parse_l2cap(d)->Ok_0), d),
{
    let m = parse_l2cap(d)->Ok_0;
    let len = le16_at(d, 0);
    let cid = le16_at(d, 2);
    let payload = d.subrange(4, 4 + len);
    lemma_le16_of_at(d, 0);
    lemma_le16_of_at(d, 2);
    match m {
        L2capView::Att(op, data) => {
            assert(seq![op] + data =~= payload);
        },
        L2capView::Smp(code, data) => {
            assert(seq![code] + data =~= payload);
        },
        L2capView::Unknown(_, _) => {},
    }
    assert(payload.len() == len);
    assert(d.subrange(0, 4 + len) =~= d.subrange(0, 2) + d.subrange(2, 4) + payload);
}

proof fn lemma_command_reencode(payload: Seq<u8>)
    requires
        parse_command(payload) is Ok,
    ensures
        ({
            let (op, params) = parse_command(payload)->Ok_0;
            is_prefix(le16(op) + seq![params.len() as u8] + params, payload)
        }),
{
    let (op, params) = parse_command(payload)->Ok_0;
    lemma_le16_of_at(payload, 0);
    assert(params.len() == payload[2] as int);
    assert(payload.subrange(0, (3 + params.len()) as int) =~= payload.subrange(0, 2) + seq![payload[2]]
        + params);
}

/// A successfully parsed HCI command, event or packet of unknown type
/// encodes back to the bytes it was read from; so does an ACL packet whose
/// length field holds the length of its L2CAP PDU (the parser does not read
/// that field).
pub proof fn law_hci_reencode(d: Seq<u8>)
    requires
        parse_hci(d) is Ok,
        parse_hci(d)->Ok_0 matches HciPacketView::AclData(a) ==> le16_at(d, 3) == l2cap_bytes(a.data).len(),
    ensures
        is_prefix(hci_bytes(parse_hci(d)->Ok_0), d),
{
    let m = parse_hci(d)->Ok_0;
    let payload = d.drop_first();
    match m {
        HciPacketView::Command(op, params) => {
            lemma_command_reencode(payload);
            assert(d[0] == 1);
            assert(parse_command(payload) == Ok::<(u16, Seq<u8>), ParseError>((op, params)));
            assert(d =~= seq![d[0]] + payload);
            let enc = le16(op) + seq![params.len() as u8] + params;
            assert(hci_bytes(m) =~= seq![0x01u8] + enc);
            assert(d.subrange(0, (1 + enc.len()) as int) =~= seq![0x01u8] + payload.subrange(0, enc.len() as int));
            assert(is_prefix(hci_bytes(m), d));
        },
        HciPacketView::Event(code, params) => {
            assert(params.len() == payload[1] as int);
            assert(d.subrange(0, (3 + params.len()) as int) =~= seq![0x04u8] + seq![code, payload[1]] + params);
            assert(is_prefix(hci_bytes(m), d));
        },
        HciPacketView::Unknown(t, data) => {
            assert(d.subrange(0, (1 + data.len()) as int) =~= seq![t] + data);
            assert(is_prefix(hci_bytes(m), d));
        },
        HciPacketView::AclData(a) => {
            let hf = le16_at(payload, 0);
            lemma_acl_header_of(hf);
            lemma_le16_of_at(payload, 0);
            lemma_le16_of_at(payload, 2);
            let l2d = payload.subrange(4, payload.len() as int);
            law_l2cap_reencode(l2d);
            let l2 = l2cap_bytes(a.data);
            assert(le16_at(payload, 2) == le16_at(d, 3));
            assert(parse_acl(payload) == Ok::<AclView, ParseError>(a));
            assert(acl_header(a.handle, a.pb, a.bc) == hf);
            assert(le16(l2.len() as u16) == payload.subrange(2, 4));
            assert(l2d.subrange(0, l2.len() as int) == l2);
            assert(hci_bytes(m) =~= seq![0x02u8] + payload.subrange(0, 2) + payload.subrange(2, 4) + l2);
            assert(d.subrange(0, (5 + l2.len()) as int) =~= seq![0x02u8] + payload.subrange(0, 2) + payload.subrange(2, 4)
                + l2d.subrange(0, l2.len() as int));
            assert(is_prefix(hci_bytes(m), d));
        },
    }
}


/// Parsing the bytes of an ATT or SMP PDU gives the PDU back.
pub proof fn law_pdu_roundtrip(p: (u8, Seq<u8>))
    ensures
        parse_pdu(pdu_bytes(p)) == Ok::<(u8, Seq<u8>), ParseError>(p),
{
    assert(pdu_bytes(p).drop_first() =~= p.1);
}

/// An ATT or SMP PDU parsed from bytes writes back as those bytes; only an
/// empty input fails, and it fails as too short.
pub proof fn law_pdu_reencode(d: Seq<u8>)
    ensures
        parse_pdu(d) is Err <==> d.len() == 0,
        parse_pdu(d) is Err ==> parse_pdu(d) == Err::<(u8, Seq<u8>), ParseError>(ParseError::InsufficientData),
        parse_pdu(d) matches Ok(p) ==> pdu_bytes(p) == d,
{
    if d.len() > 0 {
        assert(seq![d[0]] + d.drop_first() =~= d);
    }
}

/// The identifiers of the framing: an HCI packet starts with its type,
/// 0x01 for a command, 0x02 for ACL data, 0x04 for an event; an L2CAP PDU of
/// the attribute protocol goes on channel 0x0004 and one of the security
/// manager on channel 0x0006, and a packet read on either channel is read as
/// that protocol's PDU. The handle-and-flags field of an ACL packet holds the
/// connection handle in its low twelve bits, the packet boundary flag (0
/// first non-flushable, 1 continuation, 2 first flushable, 3 deprecated) in
/// bits 12 and 13 and the broadcast flag (0 point to point, 1 BR/EDR
/// broadcast) in bits 14 and 15.
pub proof fn law_framing_ids(
    op: u16,
    code: u8,
    d: Seq<u8>,
    a: AclView,
    handle: u16,
    pb: PacketBoundaryFlag,
    bc: BroadcastFlag,
    l2: Seq<u8>,
)
    ensures
        hci_bytes(HciPacketView::Command(op, d))[0] == 0x01,
        hci_bytes(HciPacketView::AclData(a))[0] == 0x02,
        hci_bytes(HciPacketView::Event(code, d))[0] == 0x04,
        l2cap_payload(L2capView::Att(code, d)).0 == 0x0004,
        l2cap_payload(L2capView::Smp(code, d)).0 == 0x0006,
        l2.len() >= 5 && le16_at(l2, 2) == 0x0004 && l2.len() >= 4 + le16_at(l2, 0) && le16_at(l2, 0) >= 1
            ==> parse_l2cap(l2) is Ok && parse_l2cap(l2)->Ok_0 is Att,
        l2.len() >= 5 && le16_at(l2, 2) == 0x0006 && l2.len() >= 4 + le16_at(l2, 0) && le16_at(l2, 0) >= 1
            ==> parse_l2cap(l2) is Ok && parse_l2cap(l2)->Ok_0 is Smp,
        pb_bits(PacketBoundaryFlag::FirstNonFlushable) == 0 && pb_bits(PacketBoundaryFlag::Continuation) == 1,
        pb_bits(PacketBoundaryFlag::FirstFlushable) == 2 && pb_bits(PacketBoundaryFlag::Deprecated) == 3,
        bc_bits(BroadcastFlag::PointToPoint) == 0 && bc_bits(BroadcastFlag::BdEdrBroadcast) == 1,
        acl_header(handle, pb, bc) == handle % 4096 + 4096 * pb_bits(pb) + 16384 * bc_bits(bc),
{
    let p = pb_bits(pb);
    let b = bc_bits(bc);
    assert(((handle & 0x0FFFu16) | (p << 12u16) | (b << 14u16)) == handle % 4096 + 4096 * p + 16384 * b)
        by (bit_vector)
        requires
            p < 4,
            b < 2,
    ;
}

} // verus!
