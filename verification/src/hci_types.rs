//! Small HCI and SMP values (flags, status, role, address and clock types,
//! connection handles, SMP pairing parameters and PDUs) and how they are
//! read from and written to a `Packet`, bit fields included.
use vstd::prelude::*;
use crate::packer::{FromToPacket, Packet, PacketError, PacketModel};
use crate::packer_laws::{
    holds_at,
    law_pack_then_unpack_bytes,
    law_set_then_get_bits,
    lemma_holds_split,
    lemma_low_bits_of_field,
    lemma_pack_concat,
    lemma_low_bits_small,
    lemma_pack_in_byte,
    lemma_pack_in_byte_frame,
    lemma_set_bits_keeps_other_field,
    lemma_unpack_in_byte,
    rewound_to,
};
use crate::packer::{get_bits_spec, grow, set_bit_at, set_bits_spec, splice};
use crate::bits::{bit_of, lemma_bits_ext, lemma_bytes_from_bits};
use crate::endian::{le_bytes, le_value};
use crate::packer_impls::resize_spec;

verus! {

#[derive(Debug, Clone, PartialEq, Eq)]
pub enum SmpPdu {
    /// id = &[0x03]
    SmpPairingConfirmation { confirm_value: u128 },
    /// id = &[0x04]
    SmpPairingRandom { random_value: u128 },
    /// id = &[0x01]
    SmpPairingRequest {
        io_capability: IOCapability,
        oob_data_flag: OOBDataFlag,
        authentication_requirements: AuthenticationRequirements,
        max_encryption_key_size: u8,
        initiator_key_distribution: KeyDistributionFlags,
        responder_key_distribution: KeyDistributionFlags,
    },
    /// id = &[0x02]
    SmpPairingResponse {
        io_capability: IOCapability,
        oob_data_flag: OOBDataFlag,
        authentication_requirements: AuthenticationRequirements,
        max_encryption_key_size: u8,
        initiator_key_distribution: KeyDistributionFlags,
        responder_key_distribution: KeyDistributionFlags,
    },
}

#[allow(non_camel_case_types)]
#[derive(Debug, Clone, Copy, PartialEq, Eq)]
pub enum ScanEnable {
    /// id = &[0x00]
    NoScans,
    /// id = &[0x01]
    InquiryScanEnabled_PageScanDisabled,
    /// id = &[0x02]
    InquiryScanDisabled_PageScanEnabled,
    /// id = &[0x03]
    InquiryScanEnabled_PageScanEnabled,
}

#[derive(Debug, Clone, PartialEq, Eq, Copy, Default)]
pub enum PacketBoundaryFlag {
    #[default]
    FirstNonFlushable,
    Continuation,
    FirstFlushable,
    Deprecated,
}

#[derive(Debug, Clone, PartialEq, Eq, Copy, Default)]
pub enum BroadcastFlag {
    #[default]
    PointToPoint,
    BdEdrBroadcast,
}

#[derive(Debug, Copy, Clone, PartialEq, Eq)]
pub enum HciStatus {
    /// id = &[0x00]
    Success,
    /// id = _
    Failure(u8),
}

#[derive(Debug, Copy, Clone, PartialEq, Eq)]
pub enum Role {
    Central,
    Peripheral,
}

#[derive(Debug, Copy, Clone, PartialEq, Eq)]
pub enum AddressType {
    Public,
    Random,
}

#[derive(Debug, Copy, Clone, PartialEq, Eq)]
pub enum ClockAccuracy {
    Ppm500,
    Ppm250,
    Ppm150,
    Ppm100,
    Ppm75,
    Ppm50,
    Ppm30,
    Ppm20,
}

/// max value 0x0EFF
#[derive(Debug, Clone, Copy, PartialEq, Eq, Default)]
pub struct ConnectionHandle(pub u16);

#[derive(Debug, Clone, Copy, PartialEq, Eq, Default)]
pub struct KeyDistributionFlags {
    /// bits = 1
    pub enc_key: bool,
    /// bits = 1
    pub id_key: bool,
    /// bits = 1
    pub sign_key: bool,
    /// bits = 1
    pub link_key: bool,
    /// bits = 4
    pub _reserved: u8,
}

#[derive(Debug, Clone, Copy, PartialEq, Eq, Default)]
pub struct AuthenticationRequirements {
    /// bits = 2
    pub bonding: bool,
    /// bits = 1
    pub mitm_protection: bool,
    /// bits = 1
    pub secure_connections: bool,
    /// bits = 1
    pub keypress_notification: bool,
    /// bits = 1
    pub ct2: bool,
    /// bits = 2
    pub _reserved: u8,
}

#[derive(Debug, Clone, Copy, PartialEq, Eq)]
pub enum IOCapability {
    DisplayOnly,
    DisplayYesNo,
    KeyboardOnly,
    NoInputNoOutput,
    KeyboardDisplay,
}

#[derive(Debug, Clone, Copy, PartialEq, Eq)]
pub enum OOBDataFlag {
    OobNotAvailable,
    OobAvailable,
}

/// SMP Pairing failures
#[derive(Debug, Clone, Copy, PartialEq, Eq)]
pub enum SmpPairingFailure {
    PasskeyEntryFailed,
    OobNotAvailable,
    AuthenticationRequirements,
    ConfirmValueFailed,
    PairingNotSupported,
    EncryptionKeySize,
    CommandNotSupported,
    UnspecifiedReason,
    RepeatedAttempts,
    InvalidParameters,
    DhKeyCheckFailed,
    NumericComparisonFailed,
    BrEdrPairingInProgress,
    CrossTransportKeyDerivationGenerationNotAllowed,
    KeyRejected,
    Busy,
}

// --- Reading one of several one-byte identifiers ---

/// The first identifier of `tags` from index `i` on that the next field
/// equals (its index), with the state after consuming it; the state is
/// unchanged when none matches.
pub open spec fn match_tag(m: PacketModel, tags: Seq<u8>, i: nat) -> (PacketModel, Option<nat>)
    decreases tags.len() - i,
{
    if i >= tags.len() {
        (m, None)
    } else {
        let (m1, b) = m.next_if_eq_spec(seq![tags[i as int]]);
        if b {
            (m1, Some(i))
        } else {
            match_tag(m, tags, i + 1)
        }
    }
}

/// Reading an identifier at a byte boundary with no width pending moves
/// the cursor by at most one byte and changes nothing else.
pub(crate) proof fn lemma_match_tag_frame(m: PacketModel, tags: Seq<u8>, i: nat)
    requires
        !m.has_instruction(),
    ensures
        ({
            let m1 = match_tag(m, tags, i).0;
            &&& m1.instructions == m.instructions
            &&& m1.data == m.data
            &&& m1.length_positions == m.length_positions
            &&& m.position <= m1.position <= m.position + 1
            &&& (m1.bit_position == 0 || m1 == m)
        }),
    decreases tags.len() - i,
{
    if i < tags.len() {
        lemma_match_tag_frame(m, tags, i + 1);
    }
}

/// Tries each identifier of `tags` in turn on the next field and consumes
/// the first that matches.
fn next_tag(bytes: &mut Packet, tags: &[u8]) -> (r: Option<usize>)
    requires
        old(bytes).wf(),
        old(bytes)@.field_fits(),
        old(bytes)@.position + 1 <= usize::MAX,
    ensures
        final(bytes).wf(),
        r matches Some(i) ==> i < tags@.len(),
        match_tag(old(bytes)@, tags@, 0) == (final(bytes)@, match r {
            Some(i) => Some(i as nat),
            None => None::<nat>,
        }),
{
    let mut i: usize = 0;
    while i < tags.len()
        invariant
            bytes.wf(),
            bytes@ == old(bytes)@,
            old(bytes)@.field_fits(),
            old(bytes)@.position + 1 <= usize::MAX,
            i <= tags@.len(),
            match_tag(old(bytes)@, tags@, 0) == match_tag(old(bytes)@, tags@, i as nat),
        decreases tags@.len() - i,
    {
        let tag = [tags[i]];
        assert(tag@ =~= seq![tags@[i as int]]);
        if bytes.next_if_eq(&tag) {
            return Some(i);
        }
        i = i + 1;
    }
    None
}

impl ScanEnable {
    /// The identifier of each variant, in the order they are tried.
    pub open spec fn spec_tags() -> Seq<u8> {
        seq![0x00u8, 0x01u8, 0x02u8, 0x03u8]
    }

    /// The variant at index `i` of `spec_tags`.
    pub open spec fn spec_from_index(i: nat) -> ScanEnable {
        if i == 0 {
            ScanEnable::NoScans
        } else if i == 1 {
            ScanEnable::InquiryScanEnabled_PageScanDisabled
        } else if i == 2 {
            ScanEnable::InquiryScanDisabled_PageScanEnabled
        } else {
            ScanEnable::InquiryScanEnabled_PageScanEnabled
        }
    }

    /// The identifier of this variant.
    pub open spec fn spec_tag(self) -> u8 {
        match self {
            ScanEnable::NoScans => 0x00,
            ScanEnable::InquiryScanEnabled_PageScanDisabled => 0x01,
            ScanEnable::InquiryScanDisabled_PageScanEnabled => 0x02,
            ScanEnable::InquiryScanEnabled_PageScanEnabled => 0x03,
        }
    }
}

impl View for ScanEnable {
    type V = ScanEnable;

    open spec fn view(&self) -> ScanEnable {
        *self
    }
}

impl FromToPacket for ScanEnable {
    open spec fn from_packet_requires(m: PacketModel) -> bool {
        m.field_fits() && m.position + 1 <= usize::MAX
    }

    open spec fn from_packet_spec(m: PacketModel) -> (PacketModel, Result<ScanEnable, PacketError>) {
        let (m1, t) = match_tag(m, ScanEnable::spec_tags(), 0);
        (
            m1,
            match t {
                Some(i) => Ok(ScanEnable::spec_from_index(i)),
                None => Err(PacketError::Unspecified("No matching variant found for ScanEnable")),
            },
        )
    }

    open spec fn to_packet_requires(&self, m: PacketModel) -> bool {
        m.room_for(1)
    }

    open spec fn to_packet_spec(&self, m: PacketModel) -> (PacketModel, Result<(), PacketError>) {
        m.pack_bytes_spec(seq![self.spec_tag()])
    }

    fn from_packet(bytes: &mut Packet) -> (res: Result<Self, PacketError>) {
        let tags = [0x00, 0x01, 0x02, 0x03];
        assert(tags@ =~= ScanEnable::spec_tags());
        match next_tag(bytes, &tags) {
            Some(0) => Ok(ScanEnable::NoScans),
            Some(1) => Ok(ScanEnable::InquiryScanEnabled_PageScanDisabled),
            Some(2) => Ok(ScanEnable::InquiryScanDisabled_PageScanEnabled),
            Some(3) => Ok(ScanEnable::InquiryScanEnabled_PageScanEnabled),
            _ => Err(PacketError::Unspecified("No matching variant found for ScanEnable")),
        }
    }

    fn to_packet(&self, bytes: &mut Packet) -> (res: Result<(), PacketError>) {
        let tag: [u8; 1] = [
            match self {
                ScanEnable::NoScans => 0x00,
                ScanEnable::InquiryScanEnabled_PageScanDisabled => 0x01,
                ScanEnable::InquiryScanDisabled_PageScanEnabled => 0x02,
                ScanEnable::InquiryScanEnabled_PageScanEnabled => 0x03,
            },
        ];
        assert(tag@ =~= seq![self.spec_tag()]);
        match bytes.pack(&tag) {
            Ok(_) => Ok(()),
            Err(e) => Err(e),
        }
    }
}

impl PacketBoundaryFlag {
    /// The identifier of each variant, in the order they are tried.
    pub open spec fn spec_tags() -> Seq<u8> {
        seq![0x00u8, 0x01u8, 0x02u8, 0x03u8]
    }

    /// The variant at index `i` of `spec_tags`.
    pub open spec fn spec_from_index(i: nat) -> PacketBoundaryFlag {
        if i == 0 {
            PacketBoundaryFlag::FirstNonFlushable
        } else if i == 1 {
            PacketBoundaryFlag::Continuation
        } else if i == 2 {
            PacketBoundaryFlag::FirstFlushable
        } else {
            PacketBoundaryFlag::Deprecated
        }
    }

    /// The identifier of this variant.
    pub open spec fn spec_tag(self) -> u8 {
        match self {
            PacketBoundaryFlag::FirstNonFlushable => 0x00,
            PacketBoundaryFlag::Continuation => 0x01,
            PacketBoundaryFlag::FirstFlushable => 0x02,
            PacketBoundaryFlag::Deprecated => 0x03,
        }
    }
}

impl View for PacketBoundaryFlag {
    type V = PacketBoundaryFlag;

    open spec fn view(&self) -> PacketBoundaryFlag {
        *self
    }
}

impl FromToPacket for PacketBoundaryFlag {
    open spec fn from_packet_requires(m: PacketModel) -> bool {
        m.field_fits() && m.position + 1 <= usize::MAX
    }

    open spec fn from_packet_spec(m: PacketModel) -> (PacketModel, Result<PacketBoundaryFlag, PacketError>) {
        let (m1, t) = match_tag(m, PacketBoundaryFlag::spec_tags(), 0);
        (
            m1,
            match t {
                Some(i) => Ok(PacketBoundaryFlag::spec_from_index(i)),
                None => Err(PacketError::Unspecified("No matching variant found for PacketBoundaryFlag")),
            },
        )
    }

    open spec fn to_packet_requires(&self, m: PacketModel) -> bool {
        m.room_for(1)
    }

    open spec fn to_packet_spec(&self, m: PacketModel) -> (PacketModel, Result<(), PacketError>) {
        m.pack_bytes_spec(seq![self.spec_tag()])
    }

    fn from_packet(bytes: &mut Packet) -> (res: Result<Self, PacketError>) {
        let tags = [0x00, 0x01, 0x02, 0x03];
        assert(tags@ =~= PacketBoundaryFlag::spec_tags());
        match next_tag(bytes, &tags) {
            Some(0) => Ok(PacketBoundaryFlag::FirstNonFlushable),
            Some(1) => Ok(PacketBoundaryFlag::Continuation),
            Some(2) => Ok(PacketBoundaryFlag::FirstFlushable),
            Some(3) => Ok(PacketBoundaryFlag::Deprecated),
            _ => Err(PacketError::Unspecified("No matching variant found for PacketBoundaryFlag")),
        }
    }

    fn to_packet(&self, bytes: &mut Packet) -> (res: Result<(), PacketError>) {
        let tag: [u8; 1] = [
            match self {
                PacketBoundaryFlag::FirstNonFlushable => 0x00,
                PacketBoundaryFlag::Continuation => 0x01,
                PacketBoundaryFlag::FirstFlushable => 0x02,
                PacketBoundaryFlag::Deprecated => 0x03,
            },
        ];
        assert(tag@ =~= seq![self.spec_tag()]);
        match bytes.pack(&tag) {
            Ok(_) => Ok(()),
            Err(e) => Err(e),
        }
    }
}

impl BroadcastFlag {
    /// The identifier of each variant, in the order they are tried.
    pub open spec fn spec_tags() -> Seq<u8> {
        seq![0x00u8, 0x01u8]
    }

    /// The variant at index `i` of `spec_tags`.
    pub open spec fn spec_from_index(i: nat) -> BroadcastFlag {
        if i == 0 {
            BroadcastFlag::PointToPoint
        } else {
            BroadcastFlag::BdEdrBroadcast
        }
    }

    /// The identifier of this variant.
    pub open spec fn spec_tag(self) -> u8 {
        match self {
            BroadcastFlag::PointToPoint => 0x00,
            BroadcastFlag::BdEdrBroadcast => 0x01,
        }
    }
}

impl View for BroadcastFlag {
    type V = BroadcastFlag;

    open spec fn view(&self) -> BroadcastFlag {
        *self
    }
}

impl FromToPacket for BroadcastFlag {
    open spec fn from_packet_requires(m: PacketModel) -> bool {
        m.field_fits() && m.position + 1 <= usize::MAX
    }

    open spec fn from_packet_spec(m: PacketModel) -> (PacketModel, Result<BroadcastFlag, PacketError>) {
        let (m1, t) = match_tag(m, BroadcastFlag::spec_tags(), 0);
        (
            m1,
            match t {
                Some(i) => Ok(BroadcastFlag::spec_from_index(i)),
                None => Err(PacketError::Unspecified("No matching variant found for BroadcastFlag")),
            },
        )
    }

    open spec fn to_packet_requires(&self, m: PacketModel) -> bool {
        m.room_for(1)
    }

    open spec fn to_packet_spec(&self, m: PacketModel) -> (PacketModel, Result<(), PacketError>) {
        m.pack_bytes_spec(seq![self.spec_tag()])
    }

    fn from_packet(bytes: &mut Packet) -> (res: Result<Self, PacketError>) {
        let tags = [0x00, 0x01];
        assert(tags@ =~= BroadcastFlag::spec_tags());
        match next_tag(bytes, &tags) {
            Some(0) => Ok(BroadcastFlag::PointToPoint),
            Some(1) => Ok(BroadcastFlag::BdEdrBroadcast),
            _ => Err(PacketError::Unspecified("No matching variant found for BroadcastFlag")),
        }
    }

    fn to_packet(&self, bytes: &mut Packet) -> (res: Result<(), PacketError>) {
        let tag: [u8; 1] = [
            match self {
                BroadcastFlag::PointToPoint => 0x00,
                BroadcastFlag::BdEdrBroadcast => 0x01,
            },
        ];
        assert(tag@ =~= seq![self.spec_tag()]);
        match bytes.pack(&tag) {
            Ok(_) => Ok(()),
            Err(e) => Err(e),
        }
    }
}

impl Role {
    /// The identifier of each variant, in the order they are tried.
    pub open spec fn spec_tags() -> Seq<u8> {
        seq![0x00u8, 0x01u8]
    }

    /// The variant at index `i` of `spec_tags`.
    pub open spec fn spec_from_index(i: nat) -> Role {
        if i == 0 {
            Role::Central
        } else {
            Role::Peripheral
        }
    }

    /// The identifier of this variant.
    pub open spec fn spec_tag(self) -> u8 {
        match self {
            Role::Central => 0x00,
            Role::Peripheral => 0x01,
        }
    }
}

impl View for Role {
    type V = Role;

    open spec fn view(&self) -> Role {
        *self
    }
}

impl FromToPacket for Role {
    open spec fn from_packet_requires(m: PacketModel) -> bool {
        m.field_fits() && m.position + 1 <= usize::MAX
    }

    open spec fn from_packet_spec(m: PacketModel) -> (PacketModel, Result<Role, PacketError>) {
        let (m1, t) = match_tag(m, Role::spec_tags(), 0);
        (
            m1,
            match t {
                Some(i) => Ok(Role::spec_from_index(i)),
                None => Err(PacketError::Unspecified("No matching variant found for Role")),
            },
        )
    }

    open spec fn to_packet_requires(&self, m: PacketModel) -> bool {
        m.room_for(1)
    }

    open spec fn to_packet_spec(&self, m: PacketModel) -> (PacketModel, Result<(), PacketError>) {
        m.pack_bytes_spec(seq![self.spec_tag()])
    }

    fn from_packet(bytes: &mut Packet) -> (res: Result<Self, PacketError>) {
        let tags = [0x00, 0x01];
        assert(tags@ =~= Role::spec_tags());
        match next_tag(bytes, &tags) {
            Some(0) => Ok(Role::Central),
            Some(1) => Ok(Role::Peripheral),
            _ => Err(PacketError::Unspecified("No matching variant found for Role")),
        }
    }

    fn to_packet(&self, bytes: &mut Packet) -> (res: Result<(), PacketError>) {
        let tag: [u8; 1] = [
            match self {
                Role::Central => 0x00,
                Role::Peripheral => 0x01,
            },
        ];
        assert(tag@ =~= seq![self.spec_tag()]);
        match bytes.pack(&tag) {
            Ok(_) => Ok(()),
            Err(e) => Err(e),
        }
    }
}

impl AddressType {
    /// The identifier of each variant, in the order they are tried.
    pub open spec fn spec_tags() -> Seq<u8> {
        seq![0x00u8, 0x01u8]
    }

    /// The variant at index `i` of `spec_tags`.
    pub open spec fn spec_from_index(i: nat) -> AddressType {
        if i == 0 {
            AddressType::Public
        } else {
            AddressType::Random
        }
    }

    /// The identifier of this variant.
    pub open spec fn spec_tag(self) -> u8 {
        match self {
            AddressType::Public => 0x00,
            AddressType::Random => 0x01,
        }
    }
}

impl View for AddressType {
    type V = AddressType;

    open spec fn view(&self) -> AddressType {
        *self
    }
}

impl FromToPacket for AddressType {
    open spec fn from_packet_requires(m: PacketModel) -> bool {
        m.field_fits() && m.position + 1 <= usize::MAX
    }

    open spec fn from_packet_spec(m: PacketModel) -> (PacketModel, Result<AddressType, PacketError>) {
        let (m1, t) = match_tag(m, AddressType::spec_tags(), 0);
        (
            m1,
            match t {
                Some(i) => Ok(AddressType::spec_from_index(i)),
                None => Err(PacketError::Unspecified("No matching variant found for AddressType")),
            },
        )
    }

    open spec fn to_packet_requires(&self, m: PacketModel) -> bool {
        m.room_for(1)
    }

    open spec fn to_packet_spec(&self, m: PacketModel) -> (PacketModel, Result<(), PacketError>) {
        m.pack_bytes_spec(seq![self.spec_tag()])
    }

    fn from_packet(bytes: &mut Packet) -> (res: Result<Self, PacketError>) {
        let tags = [0x00, 0x01];
        assert(tags@ =~= AddressType::spec_tags());
        match next_tag(bytes, &tags) {
            Some(0) => Ok(AddressType::Public),
            Some(1) => Ok(AddressType::Random),
            _ => Err(PacketError::Unspecified("No matching variant found for AddressType")),
        }
    }

    fn to_packet(&self, bytes: &mut Packet) -> (res: Result<(), PacketError>) {
        let tag: [u8; 1] = [
            match self {
                AddressType::Public => 0x00,
                AddressType::Random => 0x01,
            },
        ];
        assert(tag@ =~= seq![self.spec_tag()]);
        match bytes.pack(&tag) {
            Ok(_) => Ok(()),
            Err(e) => Err(e),
        }
    }
}

impl ClockAccuracy {
    /// The identifier of each variant, in the order they are tried.
    pub open spec fn spec_tags() -> Seq<u8> {
        seq![0x00u8, 0x01u8, 0x02u8, 0x03u8, 0x04u8, 0x05u8, 0x06u8, 0x07u8]
    }

    /// The variant at index `i` of `spec_tags`.
    pub open spec fn spec_from_index(i: nat) -> ClockAccuracy {
        if i == 0 {
            ClockAccuracy::Ppm500
        } else if i == 1 {
            ClockAccuracy::Ppm250
        } else if i == 2 {
            ClockAccuracy::Ppm150
        } else if i == 3 {
            ClockAccuracy::Ppm100
        } else if i == 4 {
            ClockAccuracy::Ppm75
        } else if i == 5 {
            ClockAccuracy::Ppm50
        } else if i == 6 {
            ClockAccuracy::Ppm30
        } else {
            ClockAccuracy::Ppm20
        }
    }

    /// The identifier of this variant.
    pub open spec fn spec_tag(self) -> u8 {
        match self {
            ClockAccuracy::Ppm500 => 0x00,
            ClockAccuracy::Ppm250 => 0x01,
            ClockAccuracy::Ppm150 => 0x02,
            ClockAccuracy::Ppm100 => 0x03,
            ClockAccuracy::Ppm75 => 0x04,
            ClockAccuracy::Ppm50 => 0x05,
            ClockAccuracy::Ppm30 => 0x06,
            ClockAccuracy::Ppm20 => 0x07,
        }
    }
}

impl View for ClockAccuracy {
    type V = ClockAccuracy;

    open spec fn view(&self) -> ClockAccuracy {
        *self
    }
}

impl FromToPacket for ClockAccuracy {
    open spec fn from_packet_requires(m: PacketModel) -> bool {
        m.field_fits() && m.position + 1 <= usize::MAX
    }

    open spec fn from_packet_spec(m: PacketModel) -> (PacketModel, Result<ClockAccuracy, PacketError>) {
        let (m1, t) = match_tag(m, ClockAccuracy::spec_tags(), 0);
        (
            m1,
            match t {
                Some(i) => Ok(ClockAccuracy::spec_from_index(i)),
                None => Err(PacketError::Unspecified("No matching variant found for ClockAccuracy")),
            },
        )
    }

    open spec fn to_packet_requires(&self, m: PacketModel) -> bool {
        m.room_for(1)
    }

    open spec fn to_packet_spec(&self, m: PacketModel) -> (PacketModel, Result<(), PacketError>) {
        m.pack_bytes_spec(seq![self.spec_tag()])
    }

    fn from_packet(bytes: &mut Packet) -> (res: Result<Self, PacketError>) {
        let tags = [0x00, 0x01, 0x02, 0x03, 0x04, 0x05, 0x06, 0x07];
        assert(tags@ =~= ClockAccuracy::spec_tags());
        match next_tag(bytes, &tags) {
            Some(0) => Ok(ClockAccuracy::Ppm500),
            Some(1) => Ok(ClockAccuracy::Ppm250),
            Some(2) => Ok(ClockAccuracy::Ppm150),
            Some(3) => Ok(ClockAccuracy::Ppm100),
            Some(4) => Ok(ClockAccuracy::Ppm75),
            Some(5) => Ok(ClockAccuracy::Ppm50),
            Some(6) => Ok(ClockAccuracy::Ppm30),
            Some(7) => Ok(ClockAccuracy::Ppm20),
            _ => Err(PacketError::Unspecified("No matching variant found for ClockAccuracy")),
        }
    }

    fn to_packet(&self, bytes: &mut Packet) -> (res: Result<(), PacketError>) {
        let tag: [u8; 1] = [
            match self {
                ClockAccuracy::Ppm500 => 0x00,
                ClockAccuracy::Ppm250 => 0x01,
                ClockAccuracy::Ppm150 => 0x02,
                ClockAccuracy::Ppm100 => 0x03,
                ClockAccuracy::Ppm75 => 0x04,
                ClockAccuracy::Ppm50 => 0x05,
                ClockAccuracy::Ppm30 => 0x06,
                ClockAccuracy::Ppm20 => 0x07,
            },
        ];
        assert(tag@ =~= seq![self.spec_tag()]);
        match bytes.pack(&tag) {
            Ok(_) => Ok(()),
            Err(e) => Err(e),
        }
    }
}

impl IOCapability {
    /// The identifier of each variant, in the order they are tried.
    pub open spec fn spec_tags() -> Seq<u8> {
        seq![0x00u8, 0x01u8, 0x02u8, 0x03u8, 0x04u8]
    }

    /// The variant at index `i` of `spec_tags`.
    pub open spec fn spec_from_index(i: nat) -> IOCapability {
        if i == 0 {
            IOCapability::DisplayOnly
        } else if i == 1 {
            IOCapability::DisplayYesNo
        } else if i == 2 {
            IOCapability::KeyboardOnly
        } else if i == 3 {
            IOCapability::NoInputNoOutput
        } else {
            IOCapability::KeyboardDisplay
        }
    }

    /// The identifier of this variant.
    pub open spec fn spec_tag(self) -> u8 {
        match self {
            IOCapability::DisplayOnly => 0x00,
            IOCapability::DisplayYesNo => 0x01,
            IOCapability::KeyboardOnly => 0x02,
            IOCapability::NoInputNoOutput => 0x03,
            IOCapability::KeyboardDisplay => 0x04,
        }
    }
}

impl View for IOCapability {
    type V = IOCapability;

    open spec fn view(&self) -> IOCapability {
        *self
    }
}

impl FromToPacket for IOCapability {
    open spec fn from_packet_requires(m: PacketModel) -> bool {
        m.field_fits() && m.position + 1 <= usize::MAX
    }

    open spec fn from_packet_spec(m: PacketModel) -> (PacketModel, Result<IOCapability, PacketError>) {
        let (m1, t) = match_tag(m, IOCapability::spec_tags(), 0);
        (
            m1,
            match t {
                Some(i) => Ok(IOCapability::spec_from_index(i)),
                None => Err(PacketError::Unspecified("No matching variant found for IOCapability")),
            },
        )
    }

    open spec fn to_packet_requires(&self, m: PacketModel) -> bool {
        m.room_for(1)
    }

    open spec fn to_packet_spec(&self, m: PacketModel) -> (PacketModel, Result<(), PacketError>) {
        m.pack_bytes_spec(seq![self.spec_tag()])
    }

    fn from_packet(bytes: &mut Packet) -> (res: Result<Self, PacketError>) {
        let tags = [0x00, 0x01, 0x02, 0x03, 0x04];
        assert(tags@ =~= IOCapability::spec_tags());
        match next_tag(bytes, &tags) {
            Some(0) => Ok(IOCapability::DisplayOnly),
            Some(1) => Ok(IOCapability::DisplayYesNo),
            Some(2) => Ok(IOCapability::KeyboardOnly),
            Some(3) => Ok(IOCapability::NoInputNoOutput),
            Some(4) => Ok(IOCapability::KeyboardDisplay),
            _ => Err(PacketError::Unspecified("No matching variant found for IOCapability")),
        }
    }

    fn to_packet(&self, bytes: &mut Packet) -> (res: Result<(), PacketError>) {
        let tag: [u8; 1] = [
            match self {
                IOCapability::DisplayOnly => 0x00,
                IOCapability::DisplayYesNo => 0x01,
                IOCapability::KeyboardOnly => 0x02,
                IOCapability::NoInputNoOutput => 0x03,
                IOCapability::KeyboardDisplay => 0x04,
            },
        ];
        assert(tag@ =~= seq![self.spec_tag()]);
        match bytes.pack(&tag) {
            Ok(_) => Ok(()),
            Err(e) => Err(e),
        }
    }
}

impl OOBDataFlag {
    /// The identifier of each variant, in the order they are tried.
    pub open spec fn spec_tags() -> Seq<u8> {
        seq![0x00u8, 0x01u8]
    }

    /// The variant at index `i` of `spec_tags`.
    pub open spec fn spec_from_index(i: nat) -> OOBDataFlag {
        if i == 0 {
            OOBDataFlag::OobNotAvailable
        } else {
            OOBDataFlag::OobAvailable
        }
    }

    /// The identifier of this variant.
    pub open spec fn spec_tag(self) -> u8 {
        match self {
            OOBDataFlag::OobNotAvailable => 0x00,
            OOBDataFlag::OobAvailable => 0x01,
        }
    }
}

impl View for OOBDataFlag {
    type V = OOBDataFlag;

    open spec fn view(&self) -> OOBDataFlag {
        *self
    }
}

impl FromToPacket for OOBDataFlag {
    open spec fn from_packet_requires(m: PacketModel) -> bool {
        m.field_fits() && m.position + 1 <= usize::MAX
    }

    open spec fn from_packet_spec(m: PacketModel) -> (PacketModel, Result<OOBDataFlag, PacketError>) {
        let (m1, t) = match_tag(m, OOBDataFlag::spec_tags(), 0);
        (
            m1,
            match t {
                Some(i) => Ok(OOBDataFlag::spec_from_index(i)),
                None => Err(PacketError::Unspecified("No matching variant found for OOBDataFlag")),
            },
        )
    }

    open spec fn to_packet_requires(&self, m: PacketModel) -> bool {
        m.room_for(1)
    }

    open spec fn to_packet_spec(&self, m: PacketModel) -> (PacketModel, Result<(), PacketError>) {
        m.pack_bytes_spec(seq![self.spec_tag()])
    }

    fn from_packet(bytes: &mut Packet) -> (res: Result<Self, PacketError>) {
        let tags = [0x00, 0x01];
        assert(tags@ =~= OOBDataFlag::spec_tags());
        match next_tag(bytes, &tags) {
            Some(0) => Ok(OOBDataFlag::OobNotAvailable),
            Some(1) => Ok(OOBDataFlag::OobAvailable),
            _ => Err(PacketError::Unspecified("No matching variant found for OOBDataFlag")),
        }
    }

    fn to_packet(&self, bytes: &mut Packet) -> (res: Result<(), PacketError>) {
        let tag: [u8; 1] = [
            match self {
                OOBDataFlag::OobNotAvailable => 0x00,
                OOBDataFlag::OobAvailable => 0x01,
            },
        ];
        assert(tag@ =~= seq![self.spec_tag()]);
        match bytes.pack(&tag) {
            Ok(_) => Ok(()),
            Err(e) => Err(e),
        }
    }
}

impl SmpPairingFailure {
    /// The identifier of each variant, in the order they are tried.
    pub open spec fn spec_tags() -> Seq<u8> {
        seq![0x01u8, 0x02u8, 0x03u8, 0x04u8, 0x05u8, 0x06u8, 0x07u8, 0x08u8, 0x09u8, 0x0Au8, 0x0Bu8, 0x0Cu8, 0x0Du8, 0x0Eu8, 0x0Fu8, 0x10u8]
    }

    /// The variant at index `i` of `spec_tags`.
    pub open spec fn spec_from_index(i: nat) -> SmpPairingFailure {
        if i == 0 {
            SmpPairingFailure::PasskeyEntryFailed
        } else if i == 1 {
            SmpPairingFailure::OobNotAvailable
        } else if i == 2 {
            SmpPairingFailure::AuthenticationRequirements
        } else if i == 3 {
            SmpPairingFailure::ConfirmValueFailed
        } else if i == 4 {
            SmpPairingFailure::PairingNotSupported
        } else if i == 5 {
            SmpPairingFailure::EncryptionKeySize
        } else if i == 6 {
            SmpPairingFailure::CommandNotSupported
        } else if i == 7 {
            SmpPairingFailure::UnspecifiedReason
        } else if i == 8 {
            SmpPairingFailure::RepeatedAttempts
        } else if i == 9 {
            SmpPairingFailure::InvalidParameters
        } else if i == 10 {
            SmpPairingFailure::DhKeyCheckFailed
        } else if i == 11 {
            SmpPairingFailure::NumericComparisonFailed
        } else if i == 12 {
            SmpPairingFailure::BrEdrPairingInProgress
        } else if i == 13 {
            SmpPairingFailure::CrossTransportKeyDerivationGenerationNotAllowed
        } else if i == 14 {
            SmpPairingFailure::KeyRejected
        } else {
            SmpPairingFailure::Busy
        }
    }

    /// The identifier of this variant.
    pub open spec fn spec_tag(self) -> u8 {
        match self {
            SmpPairingFailure::PasskeyEntryFailed => 0x01,
            SmpPairingFailure::OobNotAvailable => 0x02,
            SmpPairingFailure::AuthenticationRequirements => 0x03,
            SmpPairingFailure::ConfirmValueFailed => 0x04,
            SmpPairingFailure::PairingNotSupported => 0x05,
            SmpPairingFailure::EncryptionKeySize => 0x06,
            SmpPairingFailure::CommandNotSupported => 0x07,
            SmpPairingFailure::UnspecifiedReason => 0x08,
            SmpPairingFailure::RepeatedAttempts => 0x09,
            SmpPairingFailure::InvalidParameters => 0x0A,
            SmpPairingFailure::DhKeyCheckFailed => 0x0B,
            SmpPairingFailure::NumericComparisonFailed => 0x0C,
            SmpPairingFailure::BrEdrPairingInProgress => 0x0D,
            SmpPairingFailure::CrossTransportKeyDerivationGenerationNotAllowed => 0x0E,
            SmpPairingFailure::KeyRejected => 0x0F,
            SmpPairingFailure::Busy => 0x10,
        }
    }
}

impl View for SmpPairingFailure {
    type V = SmpPairingFailure;

    open spec fn view(&self) -> SmpPairingFailure {
        *self
    }
}

impl FromToPacket for SmpPairingFailure {
    open spec fn from_packet_requires(m: PacketModel) -> bool {
        m.field_fits() && m.position + 1 <= usize::MAX
    }

    open spec fn from_packet_spec(m: PacketModel) -> (PacketModel, Result<SmpPairingFailure, PacketError>) {
        let (m1, t) = match_tag(m, SmpPairingFailure::spec_tags(), 0);
        (
            m1,
            match t {
                Some(i) => Ok(SmpPairingFailure::spec_from_index(i)),
                None => Err(PacketError::Unspecified("No matching variant found for SmpPairingFailure")),
            },
        )
    }

    open spec fn to_packet_requires(&self, m: PacketModel) -> bool {
        m.room_for(1)
    }

    open spec fn to_packet_spec(&self, m: PacketModel) -> (PacketModel, Result<(), PacketError>) {
        m.pack_bytes_spec(seq![self.spec_tag()])
    }

    fn from_packet(bytes: &mut Packet) -> (res: Result<Self, PacketError>) {
        let tags = [0x01, 0x02, 0x03, 0x04, 0x05, 0x06, 0x07, 0x08, 0x09, 0x0A, 0x0B, 0x0C, 0x0D, 0x0E, 0x0F, 0x10];
        assert(tags@ =~= SmpPairingFailure::spec_tags());
        match next_tag(bytes, &tags) {
            Some(0) => Ok(SmpPairingFailure::PasskeyEntryFailed),
            Some(1) => Ok(SmpPairingFailure::OobNotAvailable),
            Some(2) => Ok(SmpPairingFailure::AuthenticationRequirements),
            Some(3) => Ok(SmpPairingFailure::ConfirmValueFailed),
            Some(4) => Ok(SmpPairingFailure::PairingNotSupported),
            Some(5) => Ok(SmpPairingFailure::EncryptionKeySize),
            Some(6) => Ok(SmpPairingFailure::CommandNotSupported),
            Some(7) => Ok(SmpPairingFailure::UnspecifiedReason),
            Some(8) => Ok(SmpPairingFailure::RepeatedAttempts),
            Some(9) => Ok(SmpPairingFailure::InvalidParameters),
            Some(10) => Ok(SmpPairingFailure::DhKeyCheckFailed),
            Some(11) => Ok(SmpPairingFailure::NumericComparisonFailed),
            Some(12) => Ok(SmpPairingFailure::BrEdrPairingInProgress),
            Some(13) => Ok(SmpPairingFailure::CrossTransportKeyDerivationGenerationNotAllowed),
            Some(14) => Ok(SmpPairingFailure::KeyRejected),
            Some(15) => Ok(SmpPairingFailure::Busy),
            _ => Err(PacketError::Unspecified("No matching variant found for SmpPairingFailure")),
        }
    }

    fn to_packet(&self, bytes: &mut Packet) -> (res: Result<(), PacketError>) {
        let tag: [u8; 1] = [
            match self {
                SmpPairingFailure::PasskeyEntryFailed => 0x01,
                SmpPairingFailure::OobNotAvailable => 0x02,
                SmpPairingFailure::AuthenticationRequirements => 0x03,
                SmpPairingFailure::ConfirmValueFailed => 0x04,
                SmpPairingFailure::PairingNotSupported => 0x05,
                SmpPairingFailure::EncryptionKeySize => 0x06,
                SmpPairingFailure::CommandNotSupported => 0x07,
                SmpPairingFailure::UnspecifiedReason => 0x08,
                SmpPairingFailure::RepeatedAttempts => 0x09,
                SmpPairingFailure::InvalidParameters => 0x0A,
                SmpPairingFailure::DhKeyCheckFailed => 0x0B,
                SmpPairingFailure::NumericComparisonFailed => 0x0C,
                SmpPairingFailure::BrEdrPairingInProgress => 0x0D,
                SmpPairingFailure::CrossTransportKeyDerivationGenerationNotAllowed => 0x0E,
                SmpPairingFailure::KeyRejected => 0x0F,
                SmpPairingFailure::Busy => 0x10,
            },
        ];
        assert(tag@ =~= seq![self.spec_tag()]);
        match bytes.pack(&tag) {
            Ok(_) => Ok(()),
            Err(e) => Err(e),
        }
    }
}

/// The state `m` with a pending width of `bits` for the next field.
pub open spec fn with_bits(m: PacketModel, bits: nat) -> PacketModel {
    PacketModel { instructions: m.instructions.push(bits), ..m }
}

impl View for HciStatus {
    type V = HciStatus;

    open spec fn view(&self) -> HciStatus {
        *self
    }
}

impl FromToPacket for HciStatus {
    open spec fn from_packet_requires(m: PacketModel) -> bool {
        m.field_fits() && m.position + 1 <= usize::MAX
    }

    /// `0x00` is success; any other value is read as a failure code.
    open spec fn from_packet_spec(m: PacketModel) -> (PacketModel, Result<HciStatus, PacketError>) {
        let (m1, b) = m.next_if_eq_spec(seq![0x00u8]);
        if b {
            (m1, Ok(HciStatus::Success))
        } else {
            let (m2, r) = <u8 as FromToPacket>::from_packet_spec(m);
            (
                m2,
                match r {
                    Ok(v) => Ok(HciStatus::Failure(v)),
                    Err(e) => Err(e),
                },
            )
        }
    }

    open spec fn to_packet_requires(&self, m: PacketModel) -> bool {
        m.room_for(1)
    }

    open spec fn to_packet_spec(&self, m: PacketModel) -> (PacketModel, Result<(), PacketError>) {
        match *self {
            HciStatus::Success => m.pack_bytes_spec(seq![0x00u8]),
            HciStatus::Failure(v) => v.to_packet_spec(m),
        }
    }

    fn from_packet(bytes: &mut Packet) -> (res: Result<Self, PacketError>) {
        let success = [0x00];
        assert(success@ =~= seq![0x00u8]);
        if bytes.next_if_eq(&success) {
            return Ok(HciStatus::Success);
        }
        match bytes.unpack::<u8>() {
            Ok(v) => Ok(HciStatus::Failure(v)),
            Err(e) => Err(e),
        }
    }

    fn to_packet(&self, bytes: &mut Packet) -> (res: Result<(), PacketError>) {
        match self {
            HciStatus::Success => {
                let success = [0x00];
                assert(success@ =~= seq![0x00u8]);
                match bytes.pack(&success) {
                    Ok(_) => Ok(()),
                    Err(e) => Err(e),
                }
            },
            HciStatus::Failure(m0) => match bytes.pack(m0) {
                Ok(_) => Ok(()),
                Err(e) => Err(e),
            },
        }
    }
}

impl View for ConnectionHandle {
    type V = ConnectionHandle;

    open spec fn view(&self) -> ConnectionHandle {
        *self
    }
}

impl FromToPacket for ConnectionHandle {
    open spec fn from_packet_requires(m: PacketModel) -> bool {
        <u16 as FromToPacket>::from_packet_requires(m)
    }

    /// The handle as a little-endian `u16` (or the bits of a pending width).
    open spec fn from_packet_spec(m: PacketModel) -> (PacketModel, Result<ConnectionHandle, PacketError>) {
        let (m1, r) = <u16 as FromToPacket>::from_packet_spec(m);
        (
            m1,
            match r {
                Ok(v) => Ok(ConnectionHandle(v)),
                Err(e) => Err(e),
            },
        )
    }

    open spec fn to_packet_requires(&self, m: PacketModel) -> bool {
        self.0.to_packet_requires(m)
    }

    open spec fn to_packet_spec(&self, m: PacketModel) -> (PacketModel, Result<(), PacketError>) {
        self.0.to_packet_spec(m)
    }

    fn from_packet(bytes: &mut Packet) -> (res: Result<Self, PacketError>) {
        match bytes.unpack::<u16>() {
            Ok(v) => Ok(ConnectionHandle(v)),
            Err(e) => Err(e),
        }
    }

    fn to_packet(&self, bytes: &mut Packet) -> (res: Result<(), PacketError>) {
        match bytes.pack(&self.0) {
            Ok(_) => Ok(()),
            Err(e) => Err(e),
        }
    }
}

/// Reads a `T` from a field of `bits` bits.
pub open spec fn read_bits<T: FromToPacket>(m: PacketModel, bits: nat) -> (PacketModel, Result<T::V, PacketError>) {
    T::from_packet_spec(with_bits(m, bits))
}

/// Writes `v` into a field of `bits` bits.
pub open spec fn write_bits<T: FromToPacket>(v: T, m: PacketModel, bits: nat) -> (PacketModel, Result<(), PacketError>) {
    v.to_packet_spec(with_bits(m, bits))
}

impl View for KeyDistributionFlags {
    type V = KeyDistributionFlags;

    open spec fn view(&self) -> KeyDistributionFlags {
        *self
    }
}

impl FromToPacket for KeyDistributionFlags {
    open spec fn from_packet_requires(m: PacketModel) -> bool {
        m.position + 64 <= usize::MAX
    }

    /// The fields in order, each from a bit field of its width.
    open spec fn from_packet_spec(m: PacketModel) -> (PacketModel, Result<KeyDistributionFlags, PacketError>) {
        let (m1, r1) = read_bits::<bool>(m, 1);
        if r1 is Err {
            (m1, Err(r1->Err_0))
        } else {
            let (m2, r2) = read_bits::<bool>(m1, 1);
            if r2 is Err {
                (m2, Err(r2->Err_0))
            } else {
                let (m3, r3) = read_bits::<bool>(m2, 1);
                if r3 is Err {
                    (m3, Err(r3->Err_0))
                } else {
                    let (m4, r4) = read_bits::<bool>(m3, 1);
                    if r4 is Err {
                        (m4, Err(r4->Err_0))
                    } else {
                        let (m5, r5) = read_bits::<u8>(m4, 4);
                        if r5 is Err {
                            (m5, Err(r5->Err_0))
                        } else {
                            (m5, Ok(KeyDistributionFlags { enc_key: r1->Ok_0, id_key: r2->Ok_0, sign_key: r3->Ok_0, link_key: r4->Ok_0, _reserved: r5->Ok_0 }))
                        }
                    }
                }
            }
        }
    }

    open spec fn to_packet_requires(&self, m: PacketModel) -> bool {
        m.position + 64 <= usize::MAX
    }

    open spec fn to_packet_spec(&self, m: PacketModel) -> (PacketModel, Result<(), PacketError>) {
        let (m1, r1) = write_bits(self.enc_key, m, 1);
        if r1 is Err {
            (m1, r1)
        } else {
            let (m2, r2) = write_bits(self.id_key, m1, 1);
            if r2 is Err {
                (m2, r2)
            } else {
                let (m3, r3) = write_bits(self.sign_key, m2, 1);
                if r3 is Err {
                    (m3, r3)
                } else {
                    let (m4, r4) = write_bits(self.link_key, m3, 1);
                    if r4 is Err {
                        (m4, r4)
                    } else {
                        let (m5, r5) = write_bits(self._reserved, m4, 4);
                        (m5, r5)
                    }
                }
            }
        }
    }

    fn from_packet(bytes: &mut Packet) -> (res: Result<Self, PacketError>) {
        let enc_key: bool = match bytes.set_bits(1).unpack() {
            Ok(v) => v,
            Err(e) => return Err(e),
        };
        let id_key: bool = match bytes.set_bits(1).unpack() {
            Ok(v) => v,
            Err(e) => return Err(e),
        };
        let sign_key: bool = match bytes.set_bits(1).unpack() {
            Ok(v) => v,
            Err(e) => return Err(e),
        };
        let link_key: bool = match bytes.set_bits(1).unpack() {
            Ok(v) => v,
            Err(e) => return Err(e),
        };
        let _reserved: u8 = match bytes.set_bits(4).unpack() {
            Ok(v) => v,
            Err(e) => return Err(e),
        };
        Ok(KeyDistributionFlags { enc_key, id_key, sign_key, link_key, _reserved })
    }

    fn to_packet(&self, bytes: &mut Packet) -> (res: Result<(), PacketError>) {
        match bytes.set_bits(1).pack(&self.enc_key) {
            Ok(_) => {},
            Err(e) => return Err(e),
        }
        match bytes.set_bits(1).pack(&self.id_key) {
            Ok(_) => {},
            Err(e) => return Err(e),
        }
        match bytes.set_bits(1).pack(&self.sign_key) {
            Ok(_) => {},
            Err(e) => return Err(e),
        }
        match bytes.set_bits(1).pack(&self.link_key) {
            Ok(_) => {},
            Err(e) => return Err(e),
        }
        match bytes.set_bits(4).pack(&self._reserved) {
            Ok(_) => {},
            Err(e) => return Err(e),
        }
        Ok(())
    }
}

impl View for AuthenticationRequirements {
    type V = AuthenticationRequirements;

    open spec fn view(&self) -> AuthenticationRequirements {
        *self
    }
}

impl FromToPacket for AuthenticationRequirements {
    open spec fn from_packet_requires(m: PacketModel) -> bool {
        m.position + 64 <= usize::MAX
    }

    /// The fields in order, each from a bit field of its width.
    open spec fn from_packet_spec(m: PacketModel) -> (PacketModel, Result<AuthenticationRequirements, PacketError>) {
        let (m1, r1) = read_bits::<bool>(m, 2);
        if r1 is Err {
            (m1, Err(r1->Err_0))
        } else {
            let (m2, r2) = read_bits::<bool>(m1, 1);
            if r2 is Err {
                (m2, Err(r2->Err_0))
            } else {
                let (m3, r3) = read_bits::<bool>(m2, 1);
                if r3 is Err {
                    (m3, Err(r3->Err_0))
                } else {
                    let (m4, r4) = read_bits::<bool>(m3, 1);
                    if r4 is Err {
                        (m4, Err(r4->Err_0))
                    } else {
                        let (m5, r5) = read_bits::<bool>(m4, 1);
                        if r5 is Err {
                            (m5, Err(r5->Err_0))
                        } else {
                            let (m6, r6) = read_bits::<u8>(m5, 2);
                            if r6 is Err {
                                (m6, Err(r6->Err_0))
                            } else {
                                (m6, Ok(AuthenticationRequirements { bonding: r1->Ok_0, mitm_protection: r2->Ok_0, secure_connections: r3->Ok_0, keypress_notification: r4->Ok_0, ct2: r5->Ok_0, _reserved: r6->Ok_0 }))
                            }
                        }
                    }
                }
            }
        }
    }

    open spec fn to_packet_requires(&self, m: PacketModel) -> bool {
        m.position + 64 <= usize::MAX
    }

    open spec fn to_packet_spec(&self, m: PacketModel) -> (PacketModel, Result<(), PacketError>) {
        let (m1, r1) = write_bits(self.bonding, m, 2);
        if r1 is Err {
            (m1, r1)
        } else {
            let (m2, r2) = write_bits(self.mitm_protection, m1, 1);
            if r2 is Err {
                (m2, r2)
            } else {
                let (m3, r3) = write_bits(self.secure_connections, m2, 1);
                if r3 is Err {
                    (m3, r3)
                } else {
                    let (m4, r4) = write_bits(self.keypress_notification, m3, 1);
                    if r4 is Err {
                        (m4, r4)
                    } else {
                        let (m5, r5) = write_bits(self.ct2, m4, 1);
                        if r5 is Err {
                            (m5, r5)
                        } else {
                            let (m6, r6) = write_bits(self._reserved, m5, 2);
                            (m6, r6)
                        }
                    }
                }
            }
        }
    }

    fn from_packet(bytes: &mut Packet) -> (res: Result<Self, PacketError>) {
        let bonding: bool = match bytes.set_bits(2).unpack() {
            Ok(v) => v,
            Err(e) => return Err(e),
        };
        let mitm_protection: bool = match bytes.set_bits(1).unpack() {
            Ok(v) => v,
            Err(e) => return Err(e),
        };
        let secure_connections: bool = match bytes.set_bits(1).unpack() {
            Ok(v) => v,
            Err(e) => return Err(e),
        };
        let keypress_notification: bool = match bytes.set_bits(1).unpack() {
            Ok(v) => v,
            Err(e) => return Err(e),
        };
        let ct2: bool = match bytes.set_bits(1).unpack() {
            Ok(v) => v,
            Err(e) => return Err(e),
        };
        let _reserved: u8 = match bytes.set_bits(2).unpack() {
            Ok(v) => v,
            Err(e) => return Err(e),
        };
        Ok(AuthenticationRequirements { bonding, mitm_protection, secure_connections, keypress_notification, ct2, _reserved })
    }

    #[verifier::rlimit(50)]
    #[verifier::spinoff_prover]
    fn to_packet(&self, bytes: &mut Packet) -> (res: Result<(), PacketError>) {
        match bytes.set_bits(2).pack(&self.bonding) {
            Ok(_) => {},
            Err(e) => return Err(e),
        }
        match bytes.set_bits(1).pack(&self.mitm_protection) {
            Ok(_) => {},
            Err(e) => return Err(e),
        }
        match bytes.set_bits(1).pack(&self.secure_connections) {
            Ok(_) => {},
            Err(e) => return Err(e),
        }
        match bytes.set_bits(1).pack(&self.keypress_notification) {
            Ok(_) => {},
            Err(e) => return Err(e),
        }
        match bytes.set_bits(1).pack(&self.ct2) {
            Ok(_) => {},
            Err(e) => return Err(e),
        }
        match bytes.set_bits(2).pack(&self._reserved) {
            Ok(_) => {},
            Err(e) => return Err(e),
        }
        Ok(())
    }
}

impl View for SmpPdu {
    type V = SmpPdu;

    open spec fn view(&self) -> SmpPdu {
        *self
    }
}

/// The pairing parameters of a pairing request or response, read in order
/// after the code.
#[verifier::opaque]
pub open spec fn read_pairing_parameters(m: PacketModel, request: bool) -> (PacketModel, Result<SmpPdu, PacketError>) {
    let (m1, r1) = <IOCapability as FromToPacket>::from_packet_spec(m);
    if r1 is Err {
        (m1, Err(r1->Err_0))
    } else {
        let (m2, r2) = <OOBDataFlag as FromToPacket>::from_packet_spec(m1);
        if r2 is Err {
            (m2, Err(r2->Err_0))
        } else {
            let (m3, r3) = <AuthenticationRequirements as FromToPacket>::from_packet_spec(m2);
            if r3 is Err {
                (m3, Err(r3->Err_0))
            } else {
                let (m4, r4) = <u8 as FromToPacket>::from_packet_spec(m3);
                if r4 is Err {
                    (m4, Err(r4->Err_0))
                } else {
                    let (m5, r5) = <KeyDistributionFlags as FromToPacket>::from_packet_spec(m4);
                    if r5 is Err {
                        (m5, Err(r5->Err_0))
                    } else {
                        let (m6, r6) = <KeyDistributionFlags as FromToPacket>::from_packet_spec(m5);
                        if r6 is Err {
                            (m6, Err(r6->Err_0))
                        } else if request {
                            (
                                m6,
                                Ok(
                                    SmpPdu::SmpPairingRequest {
                                        io_capability: r1->Ok_0,
                                        oob_data_flag: r2->Ok_0,
                                        authentication_requirements: r3->Ok_0,
                                        max_encryption_key_size: r4->Ok_0,
                                        initiator_key_distribution: r5->Ok_0,
                                        responder_key_distribution: r6->Ok_0,
                                    },
                                ),
                            )
                        } else {
                            (
                                m6,
                                Ok(
                                    SmpPdu::SmpPairingResponse {
                                        io_capability: r1->Ok_0,
                                        oob_data_flag: r2->Ok_0,
                                        authentication_requirements: r3->Ok_0,
                                        max_encryption_key_size: r4->Ok_0,
                                        initiator_key_distribution: r5->Ok_0,
                                        responder_key_distribution: r6->Ok_0,
                                    },
                                ),
                            )
                        }
                    }
                }
            }
        }
    }
}

/// Writing the pairing parameters of a pairing request or response, in
/// order after the code.
#[verifier::opaque]
pub open spec fn write_pairing_parameters(
    m: PacketModel,
    io_capability: IOCapability,
    oob_data_flag: OOBDataFlag,
    authentication_requirements: AuthenticationRequirements,
    max_encryption_key_size: u8,
    initiator_key_distribution: KeyDistributionFlags,
    responder_key_distribution: KeyDistributionFlags,
) -> (PacketModel, Result<(), PacketError>) {
    let (m1, r1) = io_capability.to_packet_spec(m);
    if r1 is Err {
        (m1, r1)
    } else {
        let (m2, r2) = oob_data_flag.to_packet_spec(m1);
        if r2 is Err {
            (m2, r2)
        } else {
            let (m3, r3) = authentication_requirements.to_packet_spec(m2);
            if r3 is Err {
                (m3, r3)
            } else {
                let (m4, r4) = max_encryption_key_size.to_packet_spec(m3);
                if r4 is Err {
                    (m4, r4)
                } else {
                    let (m5, r5) = initiator_key_distribution.to_packet_spec(m4);
                    if r5 is Err {
                        (m5, r5)
                    } else {
                        responder_key_distribution.to_packet_spec(m5)
                    }
                }
            }
        }
    }
}

/// The codes of the SMP PDUs, in the order they are tried.
pub open spec fn smp_codes() -> Seq<u8> {
    seq![0x03u8, 0x04u8, 0x01u8, 0x02u8]
}

impl SmpPdu {
    /// The code of this PDU.
    pub open spec fn spec_code(self) -> u8 {
        match self {
            SmpPdu::SmpPairingConfirmation { .. } => 0x03,
            SmpPdu::SmpPairingRandom { .. } => 0x04,
            SmpPdu::SmpPairingRequest { .. } => 0x01,
            SmpPdu::SmpPairingResponse { .. } => 0x02,
        }
    }

    /// Reads the pairing parameters that follow a pairing request or
    /// response code.
    fn read_pairing_parameters(bytes: &mut Packet, request: bool) -> (res: Result<SmpPdu, PacketError>)
        requires
            old(bytes).wf(),
            !old(bytes)@.has_instruction(),
            old(bytes)@.position + 100 <= usize::MAX,
        ensures
            final(bytes).wf(),
            read_pairing_parameters(old(bytes)@, request) == (final(bytes)@, res),
    {
        proof {
            reveal(read_pairing_parameters);
        }
        proof {
            lemma_match_tag_frame(bytes@, IOCapability::spec_tags(), 0);
        }
        let io_capability: IOCapability = match bytes.unpack() {
            Ok(v) => v,
            Err(e) => return Err(e),
        };
        proof {
            lemma_match_tag_frame(bytes@, OOBDataFlag::spec_tags(), 0);
        }
        let oob_data_flag: OOBDataFlag = match bytes.unpack() {
            Ok(v) => v,
            Err(e) => return Err(e),
        };
        proof {
            lemma_auth_req_read_frame(bytes@);
        }
        let authentication_requirements: AuthenticationRequirements = match bytes.unpack() {
            Ok(v) => v,
            Err(e) => return Err(e),
        };
        let max_encryption_key_size: u8 = match bytes.unpack() {
            Ok(v) => v,
            Err(e) => return Err(e),
        };
        proof {
            lemma_key_distribution_read_frame(bytes@);
        }
        let initiator_key_distribution: KeyDistributionFlags = match bytes.unpack() {
            Ok(v) => v,
            Err(e) => return Err(e),
        };
        proof {
            lemma_key_distribution_read_frame(bytes@);
        }
        let responder_key_distribution: KeyDistributionFlags = match bytes.unpack() {
            Ok(v) => v,
            Err(e) => return Err(e),
        };
        if request {
            Ok(
                SmpPdu::SmpPairingRequest {
                    io_capability,
                    oob_data_flag,
                    authentication_requirements,
                    max_encryption_key_size,
                    initiator_key_distribution,
                    responder_key_distribution,
                },
            )
        } else {
            Ok(
                SmpPdu::SmpPairingResponse {
                    io_capability,
                    oob_data_flag,
                    authentication_requirements,
                    max_encryption_key_size,
                    initiator_key_distribution,
                    responder_key_distribution,
                },
            )
        }
    }
}

/// Reading key distribution flags whole moves the cursor by at most two
/// bytes and keeps the pending widths and the data.
proof fn lemma_key_distribution_read_frame(m: PacketModel)
    requires
        m.bit_position < 8,
    ensures
        ({
            let (m1, r) = <KeyDistributionFlags as FromToPacket>::from_packet_spec(m);
            r is Ok ==> {
                &&& m1.instructions == m.instructions
                &&& m1.data == m.data
                &&& m1.length_positions == m.length_positions
                &&& m.position <= m1.position <= m.position + 2
                &&& m1.bit_position < 8
            }
        }),
{
    assert(m.instructions.push(1).drop_last() =~= m.instructions);
    assert(m.instructions.push(4).drop_last() =~= m.instructions);
}

/// Reading authentication requirements whole moves the cursor by at most
/// two bytes and keeps the pending widths and the data.
proof fn lemma_auth_req_read_frame(m: PacketModel)
    requires
        m.bit_position < 8,
    ensures
        ({
            let (m1, r) = <AuthenticationRequirements as FromToPacket>::from_packet_spec(m);
            r is Ok ==> {
                &&& m1.instructions == m.instructions
                &&& m1.data == m.data
                &&& m1.length_positions == m.length_positions
                &&& m.position <= m1.position <= m.position + 2
                &&& m1.bit_position < 8
            }
        }),
{
    assert(m.instructions.push(1).drop_last() =~= m.instructions);
    assert(m.instructions.push(2).drop_last() =~= m.instructions);
}

/// Writing key distribution flags whole moves the cursor by at most two
/// bytes and keeps the pending widths.
proof fn lemma_key_distribution_write_frame(m: PacketModel, k: KeyDistributionFlags)
    requires
        m.bit_position < 8,
    ensures
        ({
            let (m1, r) = k.to_packet_spec(m);
            r is Ok ==> {
                &&& m1.instructions == m.instructions
                &&& m1.length_positions == m.length_positions
                &&& m.position <= m1.position <= m.position + 2
                &&& m1.bit_position < 8
            }
        }),
{
    assert(m.instructions.push(1).drop_last() =~= m.instructions);
    assert(m.instructions.push(4).drop_last() =~= m.instructions);
}

/// Writing authentication requirements whole moves the cursor by at most
/// two bytes and keeps the pending widths.
proof fn lemma_auth_req_write_frame(m: PacketModel, a: AuthenticationRequirements)
    requires
        m.bit_position < 8,
    ensures
        ({
            let (m1, r) = a.to_packet_spec(m);
            r is Ok ==> {
                &&& m1.instructions == m.instructions
                &&& m1.length_positions == m.length_positions
                &&& m.position <= m1.position <= m.position + 2
                &&& m1.bit_position < 8
            }
        }),
{
    assert(m.instructions.push(1).drop_last() =~= m.instructions);
    assert(m.instructions.push(2).drop_last() =~= m.instructions);
}

impl FromToPacket for SmpPdu {
    open spec fn from_packet_requires(m: PacketModel) -> bool {
        !m.has_instruction() && m.position + 128 <= usize::MAX
    }

    /// The code, then the confirm or random value as a little-endian `u128`,
    /// or the pairing parameters.
    open spec fn from_packet_spec(m: PacketModel) -> (PacketModel, Result<SmpPdu, PacketError>) {
        let (m1, t) = match_tag(m, smp_codes(), 0);
        match t {
            Some(i) => if i == 0 || i == 1 {
                let (m2, r) = <u128 as FromToPacket>::from_packet_spec(m1);
                (
                    m2,
                    match r {
                        Ok(v) => if i == 0 {
                            Ok(SmpPdu::SmpPairingConfirmation { confirm_value: v })
                        } else {
                            Ok(SmpPdu::SmpPairingRandom { random_value: v })
                        },
                        Err(e) => Err(e),
                    },
                )
            } else {
                read_pairing_parameters(m1, i == 2)
            },
            None => (m1, Err(PacketError::Unspecified("No matching variant found for SmpPdu"))),
        }
    }

    open spec fn to_packet_requires(&self, m: PacketModel) -> bool {
        !m.has_instruction() && m.position + 128 <= usize::MAX
    }

    open spec fn to_packet_spec(&self, m: PacketModel) -> (PacketModel, Result<(), PacketError>) {
        let (m1, r1) = m.pack_bytes_spec(seq![self.spec_code()]);
        if r1 is Err {
            (m1, r1)
        } else {
            match *self {
                SmpPdu::SmpPairingConfirmation { confirm_value } => confirm_value.to_packet_spec(m1),
                SmpPdu::SmpPairingRandom { random_value } => random_value.to_packet_spec(m1),
                SmpPdu::SmpPairingRequest {
                    io_capability,
                    oob_data_flag,
                    authentication_requirements,
                    max_encryption_key_size,
                    initiator_key_distribution,
                    responder_key_distribution,
                } => write_pairing_parameters(
                    m1,
                    io_capability,
                    oob_data_flag,
                    authentication_requirements,
                    max_encryption_key_size,
                    initiator_key_distribution,
                    responder_key_distribution,
                ),
                SmpPdu::SmpPairingResponse {
                    io_capability,
                    oob_data_flag,
                    authentication_requirements,
                    max_encryption_key_size,
                    initiator_key_distribution,
                    responder_key_distribution,
                } => write_pairing_parameters(
                    m1,
                    io_capability,
                    oob_data_flag,
                    authentication_requirements,
                    max_encryption_key_size,
                    initiator_key_distribution,
                    responder_key_distribution,
                ),
            }
        }
    }

    fn from_packet(bytes: &mut Packet) -> (res: Result<Self, PacketError>) {
        let codes = [0x03, 0x04, 0x01, 0x02];
        assert(codes@ =~= smp_codes());
        proof {
            lemma_match_tag_frame(bytes@, smp_codes(), 0);
        }
        match next_tag(bytes, &codes) {
            Some(0) => match bytes.unpack::<u128>() {
                Ok(confirm_value) => Ok(SmpPdu::SmpPairingConfirmation { confirm_value }),
                Err(e) => Err(e),
            },
            Some(1) => match bytes.unpack::<u128>() {
                Ok(random_value) => Ok(SmpPdu::SmpPairingRandom { random_value }),
                Err(e) => Err(e),
            },
            Some(2) => SmpPdu::read_pairing_parameters(bytes, true),
            Some(3) => SmpPdu::read_pairing_parameters(bytes, false),
            _ => Err(PacketError::Unspecified("No matching variant found for SmpPdu")),
        }
    }

    fn to_packet(&self, bytes: &mut Packet) -> (res: Result<(), PacketError>) {
        let code: [u8; 1] = [
            match self {
                SmpPdu::SmpPairingConfirmation { .. } => 0x03,
                SmpPdu::SmpPairingRandom { .. } => 0x04,
                SmpPdu::SmpPairingRequest { .. } => 0x01,
                SmpPdu::SmpPairingResponse { .. } => 0x02,
            },
        ];
        assert(code@ =~= seq![self.spec_code()]);
        match bytes.pack(&code) {
            Ok(_) => {},
            Err(e) => return Err(e),
        }
        match self {
            SmpPdu::SmpPairingConfirmation { confirm_value } => match bytes.pack(confirm_value) {
                Ok(_) => Ok(()),
                Err(e) => Err(e),
            },
            SmpPdu::SmpPairingRandom { random_value } => match bytes.pack(random_value) {
                Ok(_) => Ok(()),
                Err(e) => Err(e),
            },
            SmpPdu::SmpPairingRequest {
                io_capability,
                oob_data_flag,
                authentication_requirements,
                max_encryption_key_size,
                initiator_key_distribution,
                responder_key_distribution,
            } => write_pairing_parameters_to(
                bytes,
                io_capability,
                oob_data_flag,
                authentication_requirements,
                *max_encryption_key_size,
                initiator_key_distribution,
                responder_key_distribution,
            ),
            SmpPdu::SmpPairingResponse {
                io_capability,
                oob_data_flag,
                authentication_requirements,
                max_encryption_key_size,
                initiator_key_distribution,
                responder_key_distribution,
            } => write_pairing_parameters_to(
                bytes,
                io_capability,
                oob_data_flag,
                authentication_requirements,
                *max_encryption_key_size,
                initiator_key_distribution,
                responder_key_distribution,
            ),
        }
    }
}

/// Writes the pairing parameters of a pairing request or response.
#[verifier::rlimit(80)]
#[verifier::spinoff_prover]
fn write_pairing_parameters_to(
    bytes: &mut Packet,
    io_capability: &IOCapability,
    oob_data_flag: &OOBDataFlag,
    authentication_requirements: &AuthenticationRequirements,
    max_encryption_key_size: u8,
    initiator_key_distribution: &KeyDistributionFlags,
    responder_key_distribution: &KeyDistributionFlags,
) -> (res: Result<(), PacketError>)
    requires
        old(bytes).wf(),
        !old(bytes)@.has_instruction(),
        old(bytes)@.position + 100 <= usize::MAX,
    ensures
        final(bytes).wf(),
        write_pairing_parameters(
            old(bytes)@,
            *io_capability,
            *oob_data_flag,
            *authentication_requirements,
            max_encryption_key_size,
            *initiator_key_distribution,
            *responder_key_distribution,
        ) == (final(bytes)@, res),
{
    proof {
        reveal(write_pairing_parameters);
    }
    match bytes.pack(io_capability) {
        Ok(_) => {},
        Err(e) => return Err(e),
    }
    match bytes.pack(oob_data_flag) {
        Ok(_) => {},
        Err(e) => return Err(e),
    }
    proof {
        lemma_auth_req_write_frame(bytes@, *authentication_requirements);
    }
    match bytes.pack(authentication_requirements) {
        Ok(_) => {},
        Err(e) => return Err(e),
    }
    proof {
        crate::endian::lemma_le_bytes_len(max_encryption_key_size as nat, 1);
    }
    match bytes.pack(&max_encryption_key_size) {
        Ok(_) => {},
        Err(e) => return Err(e),
    }
    proof {
        lemma_key_distribution_write_frame(bytes@, *initiator_key_distribution);
    }
    match bytes.pack(initiator_key_distribution) {
        Ok(_) => {},
        Err(e) => return Err(e),
    }
    proof {
        lemma_key_distribution_write_frame(bytes@, *responder_key_distribution);
    }
    match bytes.pack(responder_key_distribution) {
        Ok(_) => Ok(()),
        Err(e) => Err(e),
    }
}

// --- Laws ---

/// No identifier occurs twice in `tags`.
pub open spec fn distinct_tags(tags: Seq<u8>) -> bool {
    forall|a: int, b: int| 0 <= a < b < tags.len() ==> tags[a] != tags[b]
}

/// On a byte that is the identifier at index `target`, with the identifiers
/// distinct, reading an identifier finds `target` and consumes the byte.
proof fn lemma_match_tag_hit(m: PacketModel, tags: Seq<u8>, i: nat, target: nat)
    requires
        !m.has_instruction(),
        m.position + 1 <= m.data.len(),
        distinct_tags(tags),
        i <= target < tags.len(),
        m.data[m.position as int] == tags[target as int],
    ensures
        match_tag(m, tags, i) == (m.advance_bytes(1), Some(target)),
    decreases target - i,
{
    let probe = m.data.subrange(m.position as int, m.position + 1int);
    if i == target {
        assert(probe =~= seq![tags[i as int]]);
    } else {
        assert(probe[0] != tags[i as int]);
        assert(probe != seq![tags[i as int]]);
        lemma_match_tag_hit(m, tags, i + 1, target);
    }
}

/// Writing a `ScanEnable` and reading one back from the place it was written at
/// gives the same value.
pub proof fn law_scan_enable_roundtrip(m: PacketModel, v: ScanEnable)
    requires
        m.wf(),
        !m.has_instruction(),
    ensures
        <ScanEnable as FromToPacket>::from_packet_spec(rewound_to(v.to_packet_spec(m).0, m.position)).1
            == Ok::<ScanEnable, PacketError>(v),
{
    let r = rewound_to(v.to_packet_spec(m).0, m.position);
    law_pack_then_unpack_bytes(m, seq![v.spec_tag()]);
    assert(r.unpack_bytes_spec(1).1 == Ok::<Seq<u8>, PacketError>(seq![v.spec_tag()]));
    assert(r.data.subrange(r.position as int, r.position + 1int)[0] == v.spec_tag());
    assert(distinct_tags(ScanEnable::spec_tags()));
    match v {
            ScanEnable::NoScans => lemma_match_tag_hit(r, ScanEnable::spec_tags(), 0, 0),
            ScanEnable::InquiryScanEnabled_PageScanDisabled => lemma_match_tag_hit(r, ScanEnable::spec_tags(), 0, 1),
            ScanEnable::InquiryScanDisabled_PageScanEnabled => lemma_match_tag_hit(r, ScanEnable::spec_tags(), 0, 2),
            ScanEnable::InquiryScanEnabled_PageScanEnabled => lemma_match_tag_hit(r, ScanEnable::spec_tags(), 0, 3),
    }
}

/// The values of Write Scan Enable: 0x00 no scans, 0x01 inquiry scan only,
/// 0x02 page scan only, 0x03 inquiry and page scan. Each setting is written
/// as its value, a value read off the packet gives the setting it names, and
/// any other byte is refused.
pub proof fn law_scan_enable_ids(m: PacketModel)
    requires
        !m.has_instruction(),
        m.position + 1 <= m.data.len(),
    ensures
        ScanEnable::NoScans.spec_tag() == 0x00,
        ScanEnable::InquiryScanEnabled_PageScanDisabled.spec_tag() == 0x01,
        ScanEnable::InquiryScanDisabled_PageScanEnabled.spec_tag() == 0x02,
        ScanEnable::InquiryScanEnabled_PageScanEnabled.spec_tag() == 0x03,
        m.data[m.position as int] == 0x00 ==> <ScanEnable as FromToPacket>::from_packet_spec(m).1
            == Ok::<ScanEnable, PacketError>(ScanEnable::NoScans),
        m.data[m.position as int] == 0x01 ==> <ScanEnable as FromToPacket>::from_packet_spec(m).1
            == Ok::<ScanEnable, PacketError>(ScanEnable::InquiryScanEnabled_PageScanDisabled),
        m.data[m.position as int] == 0x02 ==> <ScanEnable as FromToPacket>::from_packet_spec(m).1
            == Ok::<ScanEnable, PacketError>(ScanEnable::InquiryScanDisabled_PageScanEnabled),
        m.data[m.position as int] == 0x03 ==> <ScanEnable as FromToPacket>::from_packet_spec(m).1
            == Ok::<ScanEnable, PacketError>(ScanEnable::InquiryScanEnabled_PageScanEnabled),
        m.data[m.position as int] > 0x03 ==> <ScanEnable as FromToPacket>::from_packet_spec(m).1 is Err,
{
    let tags = ScanEnable::spec_tags();
    let b = m.data[m.position as int];
    assert(distinct_tags(tags));
    if b <= 0x03 {
        lemma_match_tag_hit(m, tags, 0, b as nat);
    } else {
        let probe = m.data.subrange(m.position as int, m.position + 1int);
        assert(probe[0] == b);
        assert(probe != seq![tags[0]]);
        assert(probe != seq![tags[1]]);
        assert(probe != seq![tags[2]]);
        assert(probe != seq![tags[3]]);
        reveal_with_fuel(match_tag, 5);
    }
}

/// On a byte that is none of the identifiers from index `i` on, reading an
/// identifier finds none.
proof fn lemma_match_tag_miss(m: PacketModel, tags: Seq<u8>, i: nat)
    requires
        !m.has_instruction(),
        m.position + 1 <= m.data.len(),
        i <= tags.len(),
        forall|t: int| i <= t < tags.len() ==> tags[t] != m.data[m.position as int],
    ensures
        match_tag(m, tags, i).1 is None,
    decreases tags.len() - i,
{
    if i < tags.len() {
        let probe = m.data.subrange(m.position as int, m.position + 1int);
        assert(probe[0] != tags[i as int]);
        assert(probe != seq![tags[i as int]]);
        lemma_match_tag_miss(m, tags, i + 1);
    }
}

/// The packet boundary flag of an ACL header: 0 first non-flushable
/// fragment, 1 continuation, 2 first flushable fragment, 3 the deprecated
/// value.
/// Each value is written as its byte, a byte read off the packet gives the
/// value it names, and any other byte is refused.
pub proof fn law_packet_boundary_flag_ids(m: PacketModel)
    requires
        !m.has_instruction(),
        m.position + 1 <= m.data.len(),
    ensures
        PacketBoundaryFlag::FirstNonFlushable.spec_tag() == 0x00,
        PacketBoundaryFlag::Continuation.spec_tag() == 0x01,
        PacketBoundaryFlag::FirstFlushable.spec_tag() == 0x02,
        PacketBoundaryFlag::Deprecated.spec_tag() == 0x03,
        m.data[m.position as int] == 0x00 ==> <PacketBoundaryFlag as FromToPacket>::from_packet_spec(m).1
            == Ok::<PacketBoundaryFlag, PacketError>(PacketBoundaryFlag::FirstNonFlushable),
        m.data[m.position as int] == 0x01 ==> <PacketBoundaryFlag as FromToPacket>::from_packet_spec(m).1
            == Ok::<PacketBoundaryFlag, PacketError>(PacketBoundaryFlag::Continuation),
        m.data[m.position as int] == 0x02 ==> <PacketBoundaryFlag as FromToPacket>::from_packet_spec(m).1
            == Ok::<PacketBoundaryFlag, PacketError>(PacketBoundaryFlag::FirstFlushable),
        m.data[m.position as int] == 0x03 ==> <PacketBoundaryFlag as FromToPacket>::from_packet_spec(m).1
            == Ok::<PacketBoundaryFlag, PacketError>(PacketBoundaryFlag::Deprecated),
        m.data[m.position as int] > 0x03 ==> <PacketBoundaryFlag as FromToPacket>::from_packet_spec(m).1 is Err,
{
    let tags = PacketBoundaryFlag::spec_tags();
    let b = m.data[m.position as int];
    assert(distinct_tags(tags));
    if b == 0x00 {
        lemma_match_tag_hit(m, tags, 0, 0);
    } else if b == 0x01 {
        lemma_match_tag_hit(m, tags, 0, 1);
    } else if b == 0x02 {
        lemma_match_tag_hit(m, tags, 0, 2);
    } else if b == 0x03 {
        lemma_match_tag_hit(m, tags, 0, 3);
    } else {
        assert forall|t: int| 0 <= t < tags.len() implies tags[t] != b by {
            if t == 0 {
                assert(tags[t] == 0x00);
            } else if t == 1 {
                assert(tags[t] == 0x01);
            } else if t == 2 {
                assert(tags[t] == 0x02);
            } else if t == 3 {
                assert(tags[t] == 0x03);
            }
        }
        lemma_match_tag_miss(m, tags, 0);
    }
}

/// The broadcast flag of an ACL header: 0 point to point, 1 BR/EDR
/// broadcast.
/// Each value is written as its byte, a byte read off the packet gives the
/// value it names, and any other byte is refused.
pub proof fn law_broadcast_flag_ids(m: PacketModel)
    requires
        !m.has_instruction(),
        m.position + 1 <= m.data.len(),
    ensures
        BroadcastFlag::PointToPoint.spec_tag() == 0x00,
        BroadcastFlag::BdEdrBroadcast.spec_tag() == 0x01,
        m.data[m.position as int] == 0x00 ==> <BroadcastFlag as FromToPacket>::from_packet_spec(m).1
            == Ok::<BroadcastFlag, PacketError>(BroadcastFlag::PointToPoint),
        m.data[m.position as int] == 0x01 ==> <BroadcastFlag as FromToPacket>::from_packet_spec(m).1
            == Ok::<BroadcastFlag, PacketError>(BroadcastFlag::BdEdrBroadcast),
        m.data[m.position as int] > 0x01 ==> <BroadcastFlag as FromToPacket>::from_packet_spec(m).1 is Err,
{
    let tags = BroadcastFlag::spec_tags();
    let b = m.data[m.position as int];
    assert(distinct_tags(tags));
    if b == 0x00 {
        lemma_match_tag_hit(m, tags, 0, 0);
    } else if b == 0x01 {
        lemma_match_tag_hit(m, tags, 0, 1);
    } else {
        assert forall|t: int| 0 <= t < tags.len() implies tags[t] != b by {
            if t == 0 {
                assert(tags[t] == 0x00);
            } else if t == 1 {
                assert(tags[t] == 0x01);
            }
        }
        lemma_match_tag_miss(m, tags, 0);
    }
}

/// The role byte of a connection event: 0x00 central, 0x01 peripheral.
/// Each value is written as its byte, a byte read off the packet gives the
/// value it names, and any other byte is refused.
pub proof fn law_role_ids(m: PacketModel)
    requires
        !m.has_instruction(),
        m.position + 1 <= m.data.len(),
    ensures
        Role::Central.spec_tag() == 0x00,
        Role::Peripheral.spec_tag() == 0x01,
        m.data[m.position as int] == 0x00 ==> <Role as FromToPacket>::from_packet_spec(m).1
            == Ok::<Role, PacketError>(Role::Central),
        m.data[m.position as int] == 0x01 ==> <Role as FromToPacket>::from_packet_spec(m).1
            == Ok::<Role, PacketError>(Role::Peripheral),
        m.data[m.position as int] > 0x01 ==> <Role as FromToPacket>::from_packet_spec(m).1 is Err,
{
    let tags = Role::spec_tags();
    let b = m.data[m.position as int];
    assert(distinct_tags(tags));
    if b == 0x00 {
        lemma_match_tag_hit(m, tags, 0, 0);
    } else if b == 0x01 {
        lemma_match_tag_hit(m, tags, 0, 1);
    } else {
        assert forall|t: int| 0 <= t < tags.len() implies tags[t] != b by {
            if t == 0 {
                assert(tags[t] == 0x00);
            } else if t == 1 {
                assert(tags[t] == 0x01);
            }
        }
        lemma_match_tag_miss(m, tags, 0);
    }
}

/// The address type byte: 0x00 public, 0x01 random.
/// Each value is written as its byte, a byte read off the packet gives the
/// value it names, and any other byte is refused.
pub proof fn law_address_type_ids(m: PacketModel)
    requires
        !m.has_instruction(),
        m.position + 1 <= m.data.len(),
    ensures
        AddressType::Public.spec_tag() == 0x00,
        AddressType::Random.spec_tag() == 0x01,
        m.data[m.position as int] == 0x00 ==> <AddressType as FromToPacket>::from_packet_spec(m).1
            == Ok::<AddressType, PacketError>(AddressType::Public),
        m.data[m.position as int] == 0x01 ==> <AddressType as FromToPacket>::from_packet_spec(m).1
            == Ok::<AddressType, PacketError>(AddressType::Random),
        m.data[m.position as int] > 0x01 ==> <AddressType as FromToPacket>::from_packet_spec(m).1 is Err,
{
    let tags = AddressType::spec_tags();
    let b = m.data[m.position as int];
    assert(distinct_tags(tags));
    if b == 0x00 {
        lemma_match_tag_hit(m, tags, 0, 0);
    } else if b == 0x01 {
        lemma_match_tag_hit(m, tags, 0, 1);
    } else {
        assert forall|t: int| 0 <= t < tags.len() implies tags[t] != b by {
            if t == 0 {
                assert(tags[t] == 0x00);
            } else if t == 1 {
                assert(tags[t] == 0x01);
            }
        }
        lemma_match_tag_miss(m, tags, 0);
    }
}

/// The central clock accuracy byte: 0x00 500 ppm, 0x01 250 ppm, 0x02 150
/// ppm, 0x03 100 ppm, 0x04 75 ppm, 0x05 50 ppm, 0x06 30 ppm, 0x07 20 ppm.
/// Each value is written as its byte, a byte read off the packet gives the
/// value it names, and any other byte is refused.
pub proof fn law_clock_accuracy_ids(m: PacketModel)
    requires
        !m.has_instruction(),
        m.position + 1 <= m.data.len(),
    ensures
        ClockAccuracy::Ppm500.spec_tag() == 0x00,
        ClockAccuracy::Ppm250.spec_tag() == 0x01,
        ClockAccuracy::Ppm150.spec_tag() == 0x02,
        ClockAccuracy::Ppm100.spec_tag() == 0x03,
        ClockAccuracy::Ppm75.spec_tag() == 0x04,
        ClockAccuracy::Ppm50.spec_tag() == 0x05,
        ClockAccuracy::Ppm30.spec_tag() == 0x06,
        ClockAccuracy::Ppm20.spec_tag() == 0x07,
        m.data[m.position as int] == 0x00 ==> <ClockAccuracy as FromToPacket>::from_packet_spec(m).1
            == Ok::<ClockAccuracy, PacketError>(ClockAccuracy::Ppm500),
        m.data[m.position as int] == 0x01 ==> <ClockAccuracy as FromToPacket>::from_packet_spec(m).1
            == Ok::<ClockAccuracy, PacketError>(ClockAccuracy::Ppm250),
        m.data[m.position as int] == 0x02 ==> <ClockAccuracy as FromToPacket>::from_packet_spec(m).1
            == Ok::<ClockAccuracy, PacketError>(ClockAccuracy::Ppm150),
        m.data[m.position as int] == 0x03 ==> <ClockAccuracy as FromToPacket>::from_packet_spec(m).1
            == Ok::<ClockAccuracy, PacketError>(ClockAccuracy::Ppm100),
        m.data[m.position as int] == 0x04 ==> <ClockAccuracy as FromToPacket>::from_packet_spec(m).1
            == Ok::<ClockAccuracy, PacketError>(ClockAccuracy::Ppm75),
        m.data[m.position as int] == 0x05 ==> <ClockAccuracy as FromToPacket>::from_packet_spec(m).1
            == Ok::<ClockAccuracy, PacketError>(ClockAccuracy::Ppm50),
        m.data[m.position as int] == 0x06 ==> <ClockAccuracy as FromToPacket>::from_packet_spec(m).1
            == Ok::<ClockAccuracy, PacketError>(ClockAccuracy::Ppm30),
        m.data[m.position as int] == 0x07 ==> <ClockAccuracy as FromToPacket>::from_packet_spec(m).1
            == Ok::<ClockAccuracy, PacketError>(ClockAccuracy::Ppm20),
        m.data[m.position as int] > 0x07 ==> <ClockAccuracy as FromToPacket>::from_packet_spec(m).1 is Err,
{
    let tags = ClockAccuracy::spec_tags();
    let b = m.data[m.position as int];
    assert(distinct_tags(tags));
    if b == 0x00 {
        lemma_match_tag_hit(m, tags, 0, 0);
    } else if b == 0x01 {
        lemma_match_tag_hit(m, tags, 0, 1);
    } else if b == 0x02 {
        lemma_match_tag_hit(m, tags, 0, 2);
    } else if b == 0x03 {
        lemma_match_tag_hit(m, tags, 0, 3);
    } else if b == 0x04 {
        lemma_match_tag_hit(m, tags, 0, 4);
    } else if b == 0x05 {
        lemma_match_tag_hit(m, tags, 0, 5);
    } else if b == 0x06 {
        lemma_match_tag_hit(m, tags, 0, 6);
    } else if b == 0x07 {
        lemma_match_tag_hit(m, tags, 0, 7);
    } else {
        assert forall|t: int| 0 <= t < tags.len() implies tags[t] != b by {
            if t == 0 {
                assert(tags[t] == 0x00);
            } else if t == 1 {
                assert(tags[t] == 0x01);
            } else if t == 2 {
                assert(tags[t] == 0x02);
            } else if t == 3 {
                assert(tags[t] == 0x03);
            } else if t == 4 {
                assert(tags[t] == 0x04);
            } else if t == 5 {
                assert(tags[t] == 0x05);
            } else if t == 6 {
                assert(tags[t] == 0x06);
            } else if t == 7 {
                assert(tags[t] == 0x07);
            }
        }
        lemma_match_tag_miss(m, tags, 0);
    }
}

/// The IO capability byte of pairing: 0x00 display only, 0x01 display
/// yes/no, 0x02 keyboard only, 0x03 no input no output, 0x04 keyboard
/// display.
/// Each value is written as its byte, a byte read off the packet gives the
/// value it names, and any other byte is refused.
pub proof fn law_io_capability_ids(m: PacketModel)
    requires
        !m.has_instruction(),
        m.position + 1 <= m.data.len(),
    ensures
        IOCapability::DisplayOnly.spec_tag() == 0x00,
        IOCapability::DisplayYesNo.spec_tag() == 0x01,
        IOCapability::KeyboardOnly.spec_tag() == 0x02,
        IOCapability::NoInputNoOutput.spec_tag() == 0x03,
        IOCapability::KeyboardDisplay.spec_tag() == 0x04,
        m.data[m.position as int] == 0x00 ==> <IOCapability as FromToPacket>::from_packet_spec(m).1
            == Ok::<IOCapability, PacketError>(IOCapability::DisplayOnly),
        m.data[m.position as int] == 0x01 ==> <IOCapability as FromToPacket>::from_packet_spec(m).1
            == Ok::<IOCapability, PacketError>(IOCapability::DisplayYesNo),
        m.data[m.position as int] == 0x02 ==> <IOCapability as FromToPacket>::from_packet_spec(m).1
            == Ok::<IOCapability, PacketError>(IOCapability::KeyboardOnly),
        m.data[m.position as int] == 0x03 ==> <IOCapability as FromToPacket>::from_packet_spec(m).1
            == Ok::<IOCapability, PacketError>(IOCapability::NoInputNoOutput),
        m.data[m.position as int] == 0x04 ==> <IOCapability as FromToPacket>::from_packet_spec(m).1
            == Ok::<IOCapability, PacketError>(IOCapability::KeyboardDisplay),
        m.data[m.position as int] > 0x04 ==> <IOCapability as FromToPacket>::from_packet_spec(m).1 is Err,
{
    let tags = IOCapability::spec_tags();
    let b = m.data[m.position as int];
    assert(distinct_tags(tags));
    if b == 0x00 {
        lemma_match_tag_hit(m, tags, 0, 0);
    } else if b == 0x01 {
        lemma_match_tag_hit(m, tags, 0, 1);
    } else if b == 0x02 {
        lemma_match_tag_hit(m, tags, 0, 2);
    } else if b == 0x03 {
        lemma_match_tag_hit(m, tags, 0, 3);
    } else if b == 0x04 {
        lemma_match_tag_hit(m, tags, 0, 4);
    } else {
        assert forall|t: int| 0 <= t < tags.len() implies tags[t] != b by {
            if t == 0 {
                assert(tags[t] == 0x00);
            } else if t == 1 {
                assert(tags[t] == 0x01);
            } else if t == 2 {
                assert(tags[t] == 0x02);
            } else if t == 3 {
                assert(tags[t] == 0x03);
            } else if t == 4 {
                assert(tags[t] == 0x04);
            }
        }
        lemma_match_tag_miss(m, tags, 0);
    }
}

/// The OOB data flag of pairing: 0x00 not present, 0x01 present.
/// Each value is written as its byte, a byte read off the packet gives the
/// value it names, and any other byte is refused.
pub proof fn law_oob_data_flag_ids(m: PacketModel)
    requires
        !m.has_instruction(),
        m.position + 1 <= m.data.len(),
    ensures
        OOBDataFlag::OobNotAvailable.spec_tag() == 0x00,
        OOBDataFlag::OobAvailable.spec_tag() == 0x01,
        m.data[m.position as int] == 0x00 ==> <OOBDataFlag as FromToPacket>::from_packet_spec(m).1
            == Ok::<OOBDataFlag, PacketError>(OOBDataFlag::OobNotAvailable),
        m.data[m.position as int] == 0x01 ==> <OOBDataFlag as FromToPacket>::from_packet_spec(m).1
            == Ok::<OOBDataFlag, PacketError>(OOBDataFlag::OobAvailable),
        m.data[m.position as int] > 0x01 ==> <OOBDataFlag as FromToPacket>::from_packet_spec(m).1 is Err,
{
    let tags = OOBDataFlag::spec_tags();
    let b = m.data[m.position as int];
    assert(distinct_tags(tags));
    if b == 0x00 {
        lemma_match_tag_hit(m, tags, 0, 0);
    } else if b == 0x01 {
        lemma_match_tag_hit(m, tags, 0, 1);
    } else {
        assert forall|t: int| 0 <= t < tags.len() implies tags[t] != b by {
            if t == 0 {
                assert(tags[t] == 0x00);
            } else if t == 1 {
                assert(tags[t] == 0x01);
            }
        }
        lemma_match_tag_miss(m, tags, 0);
    }
}

/// The reason codes of Pairing Failed: 0x01 passkey entry failed, 0x02 OOB
/// not available, 0x03 authentication requirements, 0x04 confirm value
/// failed, 0x05 pairing not supported, 0x06 encryption key size, 0x07
/// command not supported, 0x08 unspecified reason, 0x09 repeated attempts,
/// 0x0A invalid parameters, 0x0B DHKey check failed, 0x0C numeric
/// comparison failed, 0x0D BR/EDR pairing in progress, 0x0E cross-transport
/// key derivation not allowed, 0x0F key rejected, 0x10 busy.
/// Each value is written as its byte, a byte read off the packet gives the
/// value it names, and any other byte is refused.
pub proof fn law_pairing_failure_ids(m: PacketModel)
    requires
        !m.has_instruction(),
        m.position + 1 <= m.data.len(),
    ensures
        SmpPairingFailure::PasskeyEntryFailed.spec_tag() == 0x01,
        SmpPairingFailure::OobNotAvailable.spec_tag() == 0x02,
        SmpPairingFailure::AuthenticationRequirements.spec_tag() == 0x03,
        SmpPairingFailure::ConfirmValueFailed.spec_tag() == 0x04,
        SmpPairingFailure::PairingNotSupported.spec_tag() == 0x05,
        SmpPairingFailure::EncryptionKeySize.spec_tag() == 0x06,
        SmpPairingFailure::CommandNotSupported.spec_tag() == 0x07,
        SmpPairingFailure::UnspecifiedReason.spec_tag() == 0x08,
        SmpPairingFailure::RepeatedAttempts.spec_tag() == 0x09,
        SmpPairingFailure::InvalidParameters.spec_tag() == 0x0A,
        SmpPairingFailure::DhKeyCheckFailed.spec_tag() == 0x0B,
        SmpPairingFailure::NumericComparisonFailed.spec_tag() == 0x0C,
        SmpPairingFailure::BrEdrPairingInProgress.spec_tag() == 0x0D,
        SmpPairingFailure::CrossTransportKeyDerivationGenerationNotAllowed.spec_tag() == 0x0E,
        SmpPairingFailure::KeyRejected.spec_tag() == 0x0F,
        SmpPairingFailure::Busy.spec_tag() == 0x10,
        m.data[m.position as int] == 0x01 ==> <SmpPairingFailure as FromToPacket>::from_packet_spec(m).1
            == Ok::<SmpPairingFailure, PacketError>(SmpPairingFailure::PasskeyEntryFailed),
        m.data[m.position as int] == 0x02 ==> <SmpPairingFailure as FromToPacket>::from_packet_spec(m).1
            == Ok::<SmpPairingFailure, PacketError>(SmpPairingFailure::OobNotAvailable),
        m.data[m.position as int] == 0x03 ==> <SmpPairingFailure as FromToPacket>::from_packet_spec(m).1
            == Ok::<SmpPairingFailure, PacketError>(SmpPairingFailure::AuthenticationRequirements),
        m.data[m.position as int] == 0x04 ==> <SmpPairingFailure as FromToPacket>::from_packet_spec(m).1
            == Ok::<SmpPairingFailure, PacketError>(SmpPairingFailure::ConfirmValueFailed),
        m.data[m.position as int] == 0x05 ==> <SmpPairingFailure as FromToPacket>::from_packet_spec(m).1
            == Ok::<SmpPairingFailure, PacketError>(SmpPairingFailure::PairingNotSupported),
        m.data[m.position as int] == 0x06 ==> <SmpPairingFailure as FromToPacket>::from_packet_spec(m).1
            == Ok::<SmpPairingFailure, PacketError>(SmpPairingFailure::EncryptionKeySize),
        m.data[m.position as int] == 0x07 ==> <SmpPairingFailure as FromToPacket>::from_packet_spec(m).1
            == Ok::<SmpPairingFailure, PacketError>(SmpPairingFailure::CommandNotSupported),
        m.data[m.position as int] == 0x08 ==> <SmpPairingFailure as FromToPacket>::from_packet_spec(m).1
            == Ok::<SmpPairingFailure, PacketError>(SmpPairingFailure::UnspecifiedReason),
        m.data[m.position as int] == 0x09 ==> <SmpPairingFailure as FromToPacket>::from_packet_spec(m).1
            == Ok::<SmpPairingFailure, PacketError>(SmpPairingFailure::RepeatedAttempts),
        m.data[m.position as int] == 0x0A ==> <SmpPairingFailure as FromToPacket>::from_packet_spec(m).1
            == Ok::<SmpPairingFailure, PacketError>(SmpPairingFailure::InvalidParameters),
        m.data[m.position as int] == 0x0B ==> <SmpPairingFailure as FromToPacket>::from_packet_spec(m).1
            == Ok::<SmpPairingFailure, PacketError>(SmpPairingFailure::DhKeyCheckFailed),
        m.data[m.position as int] == 0x0C ==> <SmpPairingFailure as FromToPacket>::from_packet_spec(m).1
            == Ok::<SmpPairingFailure, PacketError>(SmpPairingFailure::NumericComparisonFailed),
        m.data[m.position as int] == 0x0D ==> <SmpPairingFailure as FromToPacket>::from_packet_spec(m).1
            == Ok::<SmpPairingFailure, PacketError>(SmpPairingFailure::BrEdrPairingInProgress),
        m.data[m.position as int] == 0x0E ==> <SmpPairingFailure as FromToPacket>::from_packet_spec(m).1
            == Ok::<SmpPairingFailure, PacketError>(SmpPairingFailure::CrossTransportKeyDerivationGenerationNotAllowed),
        m.data[m.position as int] == 0x0F ==> <SmpPairingFailure as FromToPacket>::from_packet_spec(m).1
            == Ok::<SmpPairingFailure, PacketError>(SmpPairingFailure::KeyRejected),
        m.data[m.position as int] == 0x10 ==> <SmpPairingFailure as FromToPacket>::from_packet_spec(m).1
            == Ok::<SmpPairingFailure, PacketError>(SmpPairingFailure::Busy),
        (m.data[m.position as int] < 0x01 || m.data[m.position as int] > 0x10) ==> <SmpPairingFailure as FromToPacket>::from_packet_spec(m).1 is Err,
{
    let tags = SmpPairingFailure::spec_tags();
    let b = m.data[m.position as int];
    assert(distinct_tags(tags));
    if b == 0x01 {
        lemma_match_tag_hit(m, tags, 0, 0);
    } else if b == 0x02 {
        lemma_match_tag_hit(m, tags, 0, 1);
    } else if b == 0x03 {
        lemma_match_tag_hit(m, tags, 0, 2);
    } else if b == 0x04 {
        lemma_match_tag_hit(m, tags, 0, 3);
    } else if b == 0x05 {
        lemma_match_tag_hit(m, tags, 0, 4);
    } else if b == 0x06 {
        lemma_match_tag_hit(m, tags, 0, 5);
    } else if b == 0x07 {
        lemma_match_tag_hit(m, tags, 0, 6);
    } else if b == 0x08 {
        lemma_match_tag_hit(m, tags, 0, 7);
    } else if b == 0x09 {
        lemma_match_tag_hit(m, tags, 0, 8);
    } else if b == 0x0A {
        lemma_match_tag_hit(m, tags, 0, 9);
    } else if b == 0x0B {
        lemma_match_tag_hit(m, tags, 0, 10);
    } else if b == 0x0C {
        lemma_match_tag_hit(m, tags, 0, 11);
    } else if b == 0x0D {
        lemma_match_tag_hit(m, tags, 0, 12);
    } else if b == 0x0E {
        lemma_match_tag_hit(m, tags, 0, 13);
    } else if b == 0x0F {
        lemma_match_tag_hit(m, tags, 0, 14);
    } else if b == 0x10 {
        lemma_match_tag_hit(m, tags, 0, 15);
    } else {
        assert forall|t: int| 0 <= t < tags.len() implies tags[t] != b by {
            if t == 0 {
                assert(tags[t] == 0x01);
            } else if t == 1 {
                assert(tags[t] == 0x02);
            } else if t == 2 {
                assert(tags[t] == 0x03);
            } else if t == 3 {
                assert(tags[t] == 0x04);
            } else if t == 4 {
                assert(tags[t] == 0x05);
            } else if t == 5 {
                assert(tags[t] == 0x06);
            } else if t == 6 {
                assert(tags[t] == 0x07);
            } else if t == 7 {
                assert(tags[t] == 0x08);
            } else if t == 8 {
                assert(tags[t] == 0x09);
            } else if t == 9 {
                assert(tags[t] == 0x0A);
            } else if t == 10 {
                assert(tags[t] == 0x0B);
            } else if t == 11 {
                assert(tags[t] == 0x0C);
            } else if t == 12 {
                assert(tags[t] == 0x0D);
            } else if t == 13 {
                assert(tags[t] == 0x0E);
            } else if t == 14 {
                assert(tags[t] == 0x0F);
            } else if t == 15 {
                assert(tags[t] == 0x10);
            }
        }
        lemma_match_tag_miss(m, tags, 0);
    }
}

/// The codes of the SMP PDUs: 0x01 pairing request, 0x02 pairing response,
/// 0x03 pairing confirm, 0x04 pairing random. Each PDU is written under its
/// code; a PDU read off the packet is the one its code names, and a packet
/// that starts with any other code is refused.
pub proof fn law_smp_pdu_codes(m: PacketModel)
    requires
        !m.has_instruction(),
        m.position + 1 <= m.data.len(),
    ensures
        forall|v: SmpPdu| #![auto] v is SmpPairingRequest ==> v.spec_code() == 0x01,
        forall|v: SmpPdu| #![auto] v is SmpPairingResponse ==> v.spec_code() == 0x02,
        forall|v: SmpPdu| #![auto] v is SmpPairingConfirmation ==> v.spec_code() == 0x03,
        forall|v: SmpPdu| #![auto] v is SmpPairingRandom ==> v.spec_code() == 0x04,
        ({
            let r = <SmpPdu as FromToPacket>::from_packet_spec(m).1;
            let b = m.data[m.position as int];
            &&& b == 0x01 && r is Ok ==> r->Ok_0 is SmpPairingRequest
            &&& b == 0x02 && r is Ok ==> r->Ok_0 is SmpPairingResponse
            &&& b == 0x03 && r is Ok ==> r->Ok_0 is SmpPairingConfirmation
            &&& b == 0x04 && r is Ok ==> r->Ok_0 is SmpPairingRandom
            &&& !(0x01 <= b <= 0x04) ==> r is Err
        }),
{
    let tags = smp_codes();
    let b = m.data[m.position as int];
    assert(distinct_tags(tags));
    reveal(read_pairing_parameters);
    if b == 0x03 {
        lemma_match_tag_hit(m, tags, 0, 0);
    } else if b == 0x04 {
        lemma_match_tag_hit(m, tags, 0, 1);
    } else if b == 0x01 {
        lemma_match_tag_hit(m, tags, 0, 2);
    } else if b == 0x02 {
        lemma_match_tag_hit(m, tags, 0, 3);
    } else {
        assert forall|t: int| 0 <= t < tags.len() implies tags[t] != b by {
            if t == 0 {
                assert(tags[t] == 0x03);
            } else if t == 1 {
                assert(tags[t] == 0x04);
            } else if t == 2 {
                assert(tags[t] == 0x01);
            } else if t == 3 {
                assert(tags[t] == 0x02);
            }
        }
        lemma_match_tag_miss(m, tags, 0);
    }
}

/// Writing a `PacketBoundaryFlag` and reading one back from the place it was written at
/// gives the same value.
pub proof fn law_packet_boundary_flag_roundtrip(m: PacketModel, v: PacketBoundaryFlag)
    requires
        m.wf(),
        !m.has_instruction(),
    ensures
        <PacketBoundaryFlag as FromToPacket>::from_packet_spec(rewound_to(v.to_packet_spec(m).0, m.position)).1
            == Ok::<PacketBoundaryFlag, PacketError>(v),
{
    let r = rewound_to(v.to_packet_spec(m).0, m.position);
    law_pack_then_unpack_bytes(m, seq![v.spec_tag()]);
    assert(r.unpack_bytes_spec(1).1 == Ok::<Seq<u8>, PacketError>(seq![v.spec_tag()]));
    assert(r.data.subrange(r.position as int, r.position + 1int)[0] == v.spec_tag());
    assert(distinct_tags(PacketBoundaryFlag::spec_tags()));
    match v {
            PacketBoundaryFlag::FirstNonFlushable => lemma_match_tag_hit(r, PacketBoundaryFlag::spec_tags(), 0, 0),
            PacketBoundaryFlag::Continuation => lemma_match_tag_hit(r, PacketBoundaryFlag::spec_tags(), 0, 1),
            PacketBoundaryFlag::FirstFlushable => lemma_match_tag_hit(r, PacketBoundaryFlag::spec_tags(), 0, 2),
            PacketBoundaryFlag::Deprecated => lemma_match_tag_hit(r, PacketBoundaryFlag::spec_tags(), 0, 3),
    }
}

/// Writing a `BroadcastFlag` and reading one back from the place it was written at
/// gives the same value.
pub proof fn law_broadcast_flag_roundtrip(m: PacketModel, v: BroadcastFlag)
    requires
        m.wf(),
        !m.has_instruction(),
    ensures
        <BroadcastFlag as FromToPacket>::from_packet_spec(rewound_to(v.to_packet_spec(m).0, m.position)).1
            == Ok::<BroadcastFlag, PacketError>(v),
{
    let r = rewound_to(v.to_packet_spec(m).0, m.position);
    law_pack_then_unpack_bytes(m, seq![v.spec_tag()]);
    assert(r.unpack_bytes_spec(1).1 == Ok::<Seq<u8>, PacketError>(seq![v.spec_tag()]));
    assert(r.data.subrange(r.position as int, r.position + 1int)[0] == v.spec_tag());
    assert(distinct_tags(BroadcastFlag::spec_tags()));
    match v {
            BroadcastFlag::PointToPoint => lemma_match_tag_hit(r, BroadcastFlag::spec_tags(), 0, 0),
            BroadcastFlag::BdEdrBroadcast => lemma_match_tag_hit(r, BroadcastFlag::spec_tags(), 0, 1),
    }
}

/// Writing a `Role` and reading one back from the place it was written at
/// gives the same value.
pub proof fn law_role_roundtrip(m: PacketModel, v: Role)
    requires
        m.wf(),
        !m.has_instruction(),
    ensures
        <Role as FromToPacket>::from_packet_spec(rewound_to(v.to_packet_spec(m).0, m.position)).1
            == Ok::<Role, PacketError>(v),
{
    let r = rewound_to(v.to_packet_spec(m).0, m.position);
    law_pack_then_unpack_bytes(m, seq![v.spec_tag()]);
    assert(r.unpack_bytes_spec(1).1 == Ok::<Seq<u8>, PacketError>(seq![v.spec_tag()]));
    assert(r.data.subrange(r.position as int, r.position + 1int)[0] == v.spec_tag());
    assert(distinct_tags(Role::spec_tags()));
    match v {
            Role::Central => lemma_match_tag_hit(r, Role::spec_tags(), 0, 0),
            Role::Peripheral => lemma_match_tag_hit(r, Role::spec_tags(), 0, 1),
    }
}

/// Writing a `AddressType` and reading one back from the place it was written at
/// gives the same value.
pub proof fn law_address_type_roundtrip(m: PacketModel, v: AddressType)
    requires
        m.wf(),
        !m.has_instruction(),
    ensures
        <AddressType as FromToPacket>::from_packet_spec(rewound_to(v.to_packet_spec(m).0, m.position)).1
            == Ok::<AddressType, PacketError>(v),
{
    let r = rewound_to(v.to_packet_spec(m).0, m.position);
    law_pack_then_unpack_bytes(m, seq![v.spec_tag()]);
    assert(r.unpack_bytes_spec(1).1 == Ok::<Seq<u8>, PacketError>(seq![v.spec_tag()]));
    assert(r.data.subrange(r.position as int, r.position + 1int)[0] == v.spec_tag());
    assert(distinct_tags(AddressType::spec_tags()));
    match v {
            AddressType::Public => lemma_match_tag_hit(r, AddressType::spec_tags(), 0, 0),
            AddressType::Random => lemma_match_tag_hit(r, AddressType::spec_tags(), 0, 1),
    }
}

/// Writing a `ClockAccuracy` and reading one back from the place it was written at
/// gives the same value.
pub proof fn law_clock_accuracy_roundtrip(m: PacketModel, v: ClockAccuracy)
    requires
        m.wf(),
        !m.has_instruction(),
    ensures
        <ClockAccuracy as FromToPacket>::from_packet_spec(rewound_to(v.to_packet_spec(m).0, m.position)).1
            == Ok::<ClockAccuracy, PacketError>(v),
{
    let r = rewound_to(v.to_packet_spec(m).0, m.position);
    law_pack_then_unpack_bytes(m, seq![v.spec_tag()]);
    assert(r.unpack_bytes_spec(1).1 == Ok::<Seq<u8>, PacketError>(seq![v.spec_tag()]));
    assert(r.data.subrange(r.position as int, r.position + 1int)[0] == v.spec_tag());
    assert(distinct_tags(ClockAccuracy::spec_tags()));
    match v {
            ClockAccuracy::Ppm500 => lemma_match_tag_hit(r, ClockAccuracy::spec_tags(), 0, 0),
            ClockAccuracy::Ppm250 => lemma_match_tag_hit(r, ClockAccuracy::spec_tags(), 0, 1),
            ClockAccuracy::Ppm150 => lemma_match_tag_hit(r, ClockAccuracy::spec_tags(), 0, 2),
            ClockAccuracy::Ppm100 => lemma_match_tag_hit(r, ClockAccuracy::spec_tags(), 0, 3),
            ClockAccuracy::Ppm75 => lemma_match_tag_hit(r, ClockAccuracy::spec_tags(), 0, 4),
            ClockAccuracy::Ppm50 => lemma_match_tag_hit(r, ClockAccuracy::spec_tags(), 0, 5),
            ClockAccuracy::Ppm30 => lemma_match_tag_hit(r, ClockAccuracy::spec_tags(), 0, 6),
            ClockAccuracy::Ppm20 => lemma_match_tag_hit(r, ClockAccuracy::spec_tags(), 0, 7),
    }
}

/// Writing a `IOCapability` and reading one back from the place it was written at
/// gives the same value.
pub proof fn law_io_capability_roundtrip(m: PacketModel, v: IOCapability)
    requires
        m.wf(),
        !m.has_instruction(),
    ensures
        <IOCapability as FromToPacket>::from_packet_spec(rewound_to(v.to_packet_spec(m).0, m.position)).1
            == Ok::<IOCapability, PacketError>(v),
{
    let r = rewound_to(v.to_packet_spec(m).0, m.position);
    law_pack_then_unpack_bytes(m, seq![v.spec_tag()]);
    assert(r.unpack_bytes_spec(1).1 == Ok::<Seq<u8>, PacketError>(seq![v.spec_tag()]));
    assert(r.data.subrange(r.position as int, r.position + 1int)[0] == v.spec_tag());
    assert(distinct_tags(IOCapability::spec_tags()));
    match v {
            IOCapability::DisplayOnly => lemma_match_tag_hit(r, IOCapability::spec_tags(), 0, 0),
            IOCapability::DisplayYesNo => lemma_match_tag_hit(r, IOCapability::spec_tags(), 0, 1),
            IOCapability::KeyboardOnly => lemma_match_tag_hit(r, IOCapability::spec_tags(), 0, 2),
            IOCapability::NoInputNoOutput => lemma_match_tag_hit(r, IOCapability::spec_tags(), 0, 3),
            IOCapability::KeyboardDisplay => lemma_match_tag_hit(r, IOCapability::spec_tags(), 0, 4),
    }
}

/// Writing a `OOBDataFlag` and reading one back from the place it was written at
/// gives the same value.
pub proof fn law_oob_data_flag_roundtrip(m: PacketModel, v: OOBDataFlag)
    requires
        m.wf(),
        !m.has_instruction(),
    ensures
        <OOBDataFlag as FromToPacket>::from_packet_spec(rewound_to(v.to_packet_spec(m).0, m.position)).1
            == Ok::<OOBDataFlag, PacketError>(v),
{
    let r = rewound_to(v.to_packet_spec(m).0, m.position);
    law_pack_then_unpack_bytes(m, seq![v.spec_tag()]);
    assert(r.unpack_bytes_spec(1).1 == Ok::<Seq<u8>, PacketError>(seq![v.spec_tag()]));
    assert(r.data.subrange(r.position as int, r.position + 1int)[0] == v.spec_tag());
    assert(distinct_tags(OOBDataFlag::spec_tags()));
    match v {
            OOBDataFlag::OobNotAvailable => lemma_match_tag_hit(r, OOBDataFlag::spec_tags(), 0, 0),
            OOBDataFlag::OobAvailable => lemma_match_tag_hit(r, OOBDataFlag::spec_tags(), 0, 1),
    }
}

/// Writing a `SmpPairingFailure` and reading one back from the place it was written at
/// gives the same value.
pub proof fn law_pairing_failure_roundtrip(m: PacketModel, v: SmpPairingFailure)
    requires
        m.wf(),
        !m.has_instruction(),
    ensures
        <SmpPairingFailure as FromToPacket>::from_packet_spec(rewound_to(v.to_packet_spec(m).0, m.position)).1
            == Ok::<SmpPairingFailure, PacketError>(v),
{
    let r = rewound_to(v.to_packet_spec(m).0, m.position);
    law_pack_then_unpack_bytes(m, seq![v.spec_tag()]);
    assert(r.unpack_bytes_spec(1).1 == Ok::<Seq<u8>, PacketError>(seq![v.spec_tag()]));
    assert(r.data.subrange(r.position as int, r.position + 1int)[0] == v.spec_tag());
    assert(distinct_tags(SmpPairingFailure::spec_tags()));
    match v {
            SmpPairingFailure::PasskeyEntryFailed => lemma_match_tag_hit(r, SmpPairingFailure::spec_tags(), 0, 0),
            SmpPairingFailure::OobNotAvailable => lemma_match_tag_hit(r, SmpPairingFailure::spec_tags(), 0, 1),
            SmpPairingFailure::AuthenticationRequirements => lemma_match_tag_hit(r, SmpPairingFailure::spec_tags(), 0, 2),
            SmpPairingFailure::ConfirmValueFailed => lemma_match_tag_hit(r, SmpPairingFailure::spec_tags(), 0, 3),
            SmpPairingFailure::PairingNotSupported => lemma_match_tag_hit(r, SmpPairingFailure::spec_tags(), 0, 4),
            SmpPairingFailure::EncryptionKeySize => lemma_match_tag_hit(r, SmpPairingFailure::spec_tags(), 0, 5),
            SmpPairingFailure::CommandNotSupported => lemma_match_tag_hit(r, SmpPairingFailure::spec_tags(), 0, 6),
            SmpPairingFailure::UnspecifiedReason => lemma_match_tag_hit(r, SmpPairingFailure::spec_tags(), 0, 7),
            SmpPairingFailure::RepeatedAttempts => lemma_match_tag_hit(r, SmpPairingFailure::spec_tags(), 0, 8),
            SmpPairingFailure::InvalidParameters => lemma_match_tag_hit(r, SmpPairingFailure::spec_tags(), 0, 9),
            SmpPairingFailure::DhKeyCheckFailed => lemma_match_tag_hit(r, SmpPairingFailure::spec_tags(), 0, 10),
            SmpPairingFailure::NumericComparisonFailed => lemma_match_tag_hit(r, SmpPairingFailure::spec_tags(), 0, 11),
            SmpPairingFailure::BrEdrPairingInProgress => lemma_match_tag_hit(r, SmpPairingFailure::spec_tags(), 0, 12),
            SmpPairingFailure::CrossTransportKeyDerivationGenerationNotAllowed => lemma_match_tag_hit(r, SmpPairingFailure::spec_tags(), 0, 13),
            SmpPairingFailure::KeyRejected => lemma_match_tag_hit(r, SmpPairingFailure::spec_tags(), 0, 14),
            SmpPairingFailure::Busy => lemma_match_tag_hit(r, SmpPairingFailure::spec_tags(), 0, 15),
    }
}

/// Writing an `HciStatus` and reading one back from the place it was
/// written at gives the same status, unless it is a failure that carries
/// the success code (which reads back as success).
pub proof fn law_hci_status_roundtrip(m: PacketModel, v: HciStatus)
    requires
        m.wf(),
        !m.has_instruction(),
        m.position + 1 <= usize::MAX,
        v != HciStatus::Failure(0),
    ensures
        <HciStatus as FromToPacket>::from_packet_spec(rewound_to(v.to_packet_spec(m).0, m.position)).1
            == Ok::<HciStatus, PacketError>(v),
{
    let r = rewound_to(v.to_packet_spec(m).0, m.position);
    match v {
        HciStatus::Success => {
            law_pack_then_unpack_bytes(m, seq![0x00u8]);
            assert(r.data.subrange(r.position as int, r.position + 1int) =~= seq![0x00u8]);
        },
        HciStatus::Failure(code) => {
            crate::endian::lemma_pow256_values();
            crate::packer_laws::law_pack_then_unpack_number(m, code as nat, 1);
            crate::endian::lemma_le_bytes_len(code as nat, 1);
            law_pack_then_unpack_bytes(m, crate::endian::le_bytes(code as nat, 1));
            let probe = r.data.subrange(r.position as int, r.position + 1int);
            assert(probe == crate::endian::le_bytes(code as nat, 1));
            assert(probe[0] == code);
            assert(probe != seq![0x00u8]);
        },
    }
}

/// Writing a `ConnectionHandle` and reading one back from the place it was
/// written at gives the same handle.
pub proof fn law_connection_handle_roundtrip(m: PacketModel, v: ConnectionHandle)
    requires
        m.wf(),
        !m.has_instruction(),
        m.position + 2 <= usize::MAX,
    ensures
        <ConnectionHandle as FromToPacket>::from_packet_spec(rewound_to(v.to_packet_spec(m).0, m.position)).1
            == Ok::<ConnectionHandle, PacketError>(v),
{
    crate::packer_laws::law_u16_roundtrip(m, v.0);
}

/// The byte holding `v`'s fields, written over the byte `w0`.
pub open spec fn key_distribution_byte(w0: Seq<u8>, v: KeyDistributionFlags) -> Seq<u8> {
    set_bits_spec(set_bits_spec(set_bits_spec(set_bits_spec(set_bits_spec(w0, 0, 1, get_bits_spec(seq![if v.enc_key { 1u8 } else { 0u8 }], 0, 1)), 1, 1, get_bits_spec(seq![if v.id_key { 1u8 } else { 0u8 }], 0, 1)), 2, 1, get_bits_spec(seq![if v.sign_key { 1u8 } else { 0u8 }], 0, 1)), 3, 1, get_bits_spec(seq![if v.link_key { 1u8 } else { 0u8 }], 0, 1)), 4, 4, get_bits_spec(le_bytes(v._reserved as nat, 1), 0, 4))
}

/// The fields read from the bit fields of the byte `w`.
pub open spec fn key_distribution_of_byte(w: Seq<u8>) -> KeyDistributionFlags {
    KeyDistributionFlags {
        enc_key: get_bits_spec(w, 0, 1)[0] == 1u8,
        id_key: get_bits_spec(w, 1, 1)[0] == 1u8,
        sign_key: get_bits_spec(w, 2, 1)[0] == 1u8,
        link_key: get_bits_spec(w, 3, 1)[0] == 1u8,
        _reserved: le_value(resize_spec(get_bits_spec(w, 4, 4), 1)) as u8,
    }
}

/// Writing `KeyDistributionFlags` at a byte boundary fills the byte at the cursor with
/// its fields and moves the cursor to the next byte.
#[verifier::rlimit(60)]
#[verifier::spinoff_prover]
proof fn lemma_key_distribution_written(m: PacketModel, v: KeyDistributionFlags)
    requires
        m.bit_position == 0,
        !m.has_instruction(),
        m.position + 64 <= usize::MAX,
    ensures
        ({
            let w = v.to_packet_spec(m).0;
            &&& w.data.len() >= m.position + 1
            &&& w.data.subrange(m.position as int, m.position + 1int) == key_distribution_byte(
                grow(m.data, m.position + 1).subrange(m.position as int, m.position + 1int),
                v,
            )
        }),
{
    let p = m.position;
    let win0 = grow(m.data, p + 1).subrange(p as int, p + 1int);
    let b1 = seq![if v.enc_key { 1u8 } else { 0u8 }];
    let w1 = with_bits(m, 1).pack_bytes_spec(b1).0;
    let win1 = set_bits_spec(win0, 0, 1, get_bits_spec(b1, 0, 1));
    assert(with_bits(m, 1).pack_bytes_spec(b1).1 is Ok && w1.data.len() >= p + 1 && w1.data.subrange(p as int, p + 1int) == win1 && w1.position == p + (0 + 1) / 8 && w1.bit_position == (0 + 1) % 8 && w1.instructions == m.instructions) by {
        lemma_pack_in_byte(with_bits(m, 1), b1);
        assert(m.instructions.push(1).drop_last() =~= m.instructions);
    }
    let b2 = seq![if v.id_key { 1u8 } else { 0u8 }];
    let w2 = with_bits(w1, 1).pack_bytes_spec(b2).0;
    let win2 = set_bits_spec(win1, 1, 1, get_bits_spec(b2, 0, 1));
    assert(with_bits(w1, 1).pack_bytes_spec(b2).1 is Ok && w2.data.len() >= p + 1 && w2.data.subrange(p as int, p + 1int) == win2 && w2.position == p + (1 + 1) / 8 && w2.bit_position == (1 + 1) % 8 && w2.instructions == m.instructions) by {
        lemma_pack_in_byte(with_bits(w1, 1), b2);
        assert(w1.instructions.push(1).drop_last() =~= w1.instructions);
        assert(grow(w1.data, p + 1) == w1.data);
    }
    let b3 = seq![if v.sign_key { 1u8 } else { 0u8 }];
    let w3 = with_bits(w2, 1).pack_bytes_spec(b3).0;
    let win3 = set_bits_spec(win2, 2, 1, get_bits_spec(b3, 0, 1));
    assert(with_bits(w2, 1).pack_bytes_spec(b3).1 is Ok && w3.data.len() >= p + 1 && w3.data.subrange(p as int, p + 1int) == win3 && w3.position == p + (2 + 1) / 8 && w3.bit_position == (2 + 1) % 8 && w3.instructions == m.instructions) by {
        lemma_pack_in_byte(with_bits(w2, 1), b3);
        assert(w2.instructions.push(1).drop_last() =~= w2.instructions);
        assert(grow(w2.data, p + 1) == w2.data);
    }
    let b4 = seq![if v.link_key { 1u8 } else { 0u8 }];
    let w4 = with_bits(w3, 1).pack_bytes_spec(b4).0;
    let win4 = set_bits_spec(win3, 3, 1, get_bits_spec(b4, 0, 1));
    assert(with_bits(w3, 1).pack_bytes_spec(b4).1 is Ok && w4.data.len() >= p + 1 && w4.data.subrange(p as int, p + 1int) == win4 && w4.position == p + (3 + 1) / 8 && w4.bit_position == (3 + 1) % 8 && w4.instructions == m.instructions) by {
        lemma_pack_in_byte(with_bits(w3, 1), b4);
        assert(w3.instructions.push(1).drop_last() =~= w3.instructions);
        assert(grow(w3.data, p + 1) == w3.data);
    }
    let b5 = le_bytes(v._reserved as nat, 1);
    let w5 = with_bits(w4, 4).pack_bytes_spec(b5).0;
    let win5 = set_bits_spec(win4, 4, 4, get_bits_spec(b5, 0, 4));
    assert(with_bits(w4, 4).pack_bytes_spec(b5).1 is Ok && w5.data.len() >= p + 1 && w5.data.subrange(p as int, p + 1int) == win5 && w5.position == p + (4 + 4) / 8 && w5.bit_position == (4 + 4) % 8 && w5.instructions == m.instructions) by {
        lemma_pack_in_byte(with_bits(w4, 4), b5);
        assert(w4.instructions.push(4).drop_last() =~= w4.instructions);
        assert(grow(w4.data, p + 1) == w4.data);
    }
    assert(v.to_packet_spec(m).0 == w5);
}

/// Reading `KeyDistributionFlags` at a byte boundary reads the fields of the byte at the
/// cursor.
#[verifier::rlimit(60)]
#[verifier::spinoff_prover]
proof fn lemma_key_distribution_read(r0: PacketModel)
    requires
        r0.bit_position == 0,
        !r0.has_instruction(),
        r0.position + 1 <= r0.data.len(),
        r0.position + 64 <= usize::MAX,
    ensures
        <KeyDistributionFlags as FromToPacket>::from_packet_spec(r0).1 == Ok::<KeyDistributionFlags, PacketError>(
            key_distribution_of_byte(r0.data.subrange(r0.position as int, r0.position + 1int)),
        ),
{
    let p = r0.position;
    let w = r0.data.subrange(p as int, p + 1int);
    let t1 = with_bits(r0, 1);
    lemma_unpack_in_byte(t1, 1);
    let q1 = t1.unpack_bytes_spec(1).0;
    assert(r0.instructions.push(1).drop_last() =~= r0.instructions);
    let t2 = with_bits(q1, 1);
    lemma_unpack_in_byte(t2, 1);
    let q2 = t2.unpack_bytes_spec(1).0;
    assert(q1.instructions.push(1).drop_last() =~= q1.instructions);
    let t3 = with_bits(q2, 1);
    lemma_unpack_in_byte(t3, 1);
    let q3 = t3.unpack_bytes_spec(1).0;
    assert(q2.instructions.push(1).drop_last() =~= q2.instructions);
    let t4 = with_bits(q3, 1);
    lemma_unpack_in_byte(t4, 1);
    let q4 = t4.unpack_bytes_spec(1).0;
    assert(q3.instructions.push(1).drop_last() =~= q3.instructions);
    let t5 = with_bits(q4, 4);
    lemma_unpack_in_byte(t5, 1);
    let q5 = t5.unpack_bytes_spec(1).0;
    assert(q4.instructions.push(4).drop_last() =~= q4.instructions);
}

/// The fields written into a byte read back as themselves (the reserved bits
/// when they fit their field).
#[verifier::rlimit(60)]
#[verifier::spinoff_prover]
proof fn lemma_key_distribution_byte_roundtrip(w0: Seq<u8>, v: KeyDistributionFlags)
    requires
        w0.len() == 1,
        v._reserved < 16,
    ensures
        key_distribution_of_byte(key_distribution_byte(w0, v)) == v,
{
    let c1: u8 = if v.enc_key { 1u8 } else { 0u8 };
    let b1: Seq<u8> = seq![c1];
    let in1 = get_bits_spec(b1, 0, 1);
    let c2: u8 = if v.id_key { 1u8 } else { 0u8 };
    let b2: Seq<u8> = seq![c2];
    let in2 = get_bits_spec(b2, 0, 1);
    let c3: u8 = if v.sign_key { 1u8 } else { 0u8 };
    let b3: Seq<u8> = seq![c3];
    let in3 = get_bits_spec(b3, 0, 1);
    let c4: u8 = if v.link_key { 1u8 } else { 0u8 };
    let b4: Seq<u8> = seq![c4];
    let in4 = get_bits_spec(b4, 0, 1);
    let c5: u8 = v._reserved;
    let b5: Seq<u8> = le_bytes(c5 as nat, 1);
    assert(le_bytes((c5 as nat / 256) as nat, 0) =~= Seq::<u8>::empty());
    assert(b5 =~= seq![c5]);
    let in5 = get_bits_spec(b5, 0, 4);
    let win0 = w0;
    let win1 = set_bits_spec(win0, 0, 1, in1);
    let win2 = set_bits_spec(win1, 1, 1, in2);
    let win3 = set_bits_spec(win2, 2, 1, in3);
    let win4 = set_bits_spec(win3, 3, 1, in4);
    let win5 = set_bits_spec(win4, 4, 4, in5);
    assert(win5 == key_distribution_byte(w0, v));
    lemma_set_bits_keeps_other_field(win4, 4, 4, in5, 0, 1);
    lemma_set_bits_keeps_other_field(win3, 3, 1, in4, 0, 1);
    lemma_set_bits_keeps_other_field(win2, 2, 1, in3, 0, 1);
    lemma_set_bits_keeps_other_field(win1, 1, 1, in2, 0, 1);
    law_set_then_get_bits(win0, 0, 1, in1);
    lemma_low_bits_of_field(b1, 1, 1);
    assert((c1 == 0u8 || c1 == 1u8) ==> c1 >> 1u8 == 0u8) by (bit_vector);
    lemma_low_bits_small(c1, 1);
    assert(get_bits_spec(win5, 0, 1) == seq![c1]);
    lemma_set_bits_keeps_other_field(win4, 4, 4, in5, 1, 1);
    lemma_set_bits_keeps_other_field(win3, 3, 1, in4, 1, 1);
    lemma_set_bits_keeps_other_field(win2, 2, 1, in3, 1, 1);
    law_set_then_get_bits(win1, 1, 1, in2);
    lemma_low_bits_of_field(b2, 1, 1);
    assert((c2 == 0u8 || c2 == 1u8) ==> c2 >> 1u8 == 0u8) by (bit_vector);
    lemma_low_bits_small(c2, 1);
    assert(get_bits_spec(win5, 1, 1) == seq![c2]);
    lemma_set_bits_keeps_other_field(win4, 4, 4, in5, 2, 1);
    lemma_set_bits_keeps_other_field(win3, 3, 1, in4, 2, 1);
    law_set_then_get_bits(win2, 2, 1, in3);
    lemma_low_bits_of_field(b3, 1, 1);
    assert((c3 == 0u8 || c3 == 1u8) ==> c3 >> 1u8 == 0u8) by (bit_vector);
    lemma_low_bits_small(c3, 1);
    assert(get_bits_spec(win5, 2, 1) == seq![c3]);
    lemma_set_bits_keeps_other_field(win4, 4, 4, in5, 3, 1);
    law_set_then_get_bits(win3, 3, 1, in4);
    lemma_low_bits_of_field(b4, 1, 1);
    assert((c4 == 0u8 || c4 == 1u8) ==> c4 >> 1u8 == 0u8) by (bit_vector);
    lemma_low_bits_small(c4, 1);
    assert(get_bits_spec(win5, 3, 1) == seq![c4]);
    law_set_then_get_bits(win4, 4, 4, in5);
    lemma_low_bits_of_field(b5, 4, 1);
    assert(c5 < 16 ==> c5 >> 4u8 == 0u8) by (bit_vector);
    lemma_low_bits_small(c5, 4);
    assert(get_bits_spec(win5, 4, 4) == seq![c5]);
    assert(resize_spec(seq![c5], 1) =~= seq![c5]);
    assert(le_value(seq![c5]) == c5) by {
        assert(seq![c5].drop_first() =~= Seq::<u8>::empty());
        assert(le_value(Seq::<u8>::empty()) == 0);
    }
}

/// Writing `KeyDistributionFlags` and reading them back from the place they were written
/// at gives the same value (the reserved bits kept when they fit their
/// field).
pub proof fn law_key_distribution_roundtrip(m: PacketModel, v: KeyDistributionFlags)
    requires
        m.bit_position == 0,
        !m.has_instruction(),
        m.position + 64 <= usize::MAX,
        v._reserved < 16,
    ensures
        <KeyDistributionFlags as FromToPacket>::from_packet_spec(rewound_to(v.to_packet_spec(m).0, m.position)).1
            == Ok::<KeyDistributionFlags, PacketError>(v),
{
    lemma_key_distribution_written(m, v);
    let w = v.to_packet_spec(m).0;
    lemma_key_distribution_read(rewound_to(w, m.position));
    lemma_key_distribution_byte_roundtrip(
        grow(m.data, m.position + 1).subrange(m.position as int, m.position + 1int),
        v,
    );
}

/// The byte holding `v`'s fields, written over the byte `w0`.
pub open spec fn auth_req_byte(w0: Seq<u8>, v: AuthenticationRequirements) -> Seq<u8> {
    set_bits_spec(set_bits_spec(set_bits_spec(set_bits_spec(set_bits_spec(set_bits_spec(w0, 0, 2, get_bits_spec(seq![if v.bonding { 1u8 } else { 0u8 }], 0, 2)), 2, 1, get_bits_spec(seq![if v.mitm_protection { 1u8 } else { 0u8 }], 0, 1)), 3, 1, get_bits_spec(seq![if v.secure_connections { 1u8 } else { 0u8 }], 0, 1)), 4, 1, get_bits_spec(seq![if v.keypress_notification { 1u8 } else { 0u8 }], 0, 1)), 5, 1, get_bits_spec(seq![if v.ct2 { 1u8 } else { 0u8 }], 0, 1)), 6, 2, get_bits_spec(le_bytes(v._reserved as nat, 1), 0, 2))
}

/// The fields read from the bit fields of the byte `w`.
pub open spec fn auth_req_of_byte(w: Seq<u8>) -> AuthenticationRequirements {
    AuthenticationRequirements {
        bonding: get_bits_spec(w, 0, 2)[0] == 1u8,
        mitm_protection: get_bits_spec(w, 2, 1)[0] == 1u8,
        secure_connections: get_bits_spec(w, 3, 1)[0] == 1u8,
        keypress_notification: get_bits_spec(w, 4, 1)[0] == 1u8,
        ct2: get_bits_spec(w, 5, 1)[0] == 1u8,
        _reserved: le_value(resize_spec(get_bits_spec(w, 6, 2), 1)) as u8,
    }
}

/// Writing `AuthenticationRequirements` at a byte boundary fills the byte at the cursor with
/// its fields and moves the cursor to the next byte.
#[verifier::rlimit(60)]
#[verifier::spinoff_prover]
proof fn lemma_auth_req_written(m: PacketModel, v: AuthenticationRequirements)
    requires
        m.bit_position == 0,
        !m.has_instruction(),
        m.position + 64 <= usize::MAX,
    ensures
        ({
            let w = v.to_packet_spec(m).0;
            &&& w.data.len() >= m.position + 1
            &&& w.data.subrange(m.position as int, m.position + 1int) == auth_req_byte(
                grow(m.data, m.position + 1).subrange(m.position as int, m.position + 1int),
                v,
            )
        }),
{
    let p = m.position;
    let win0 = grow(m.data, p + 1).subrange(p as int, p + 1int);
    let b1 = seq![if v.bonding { 1u8 } else { 0u8 }];
    let w1 = with_bits(m, 2).pack_bytes_spec(b1).0;
    let win1 = set_bits_spec(win0, 0, 2, get_bits_spec(b1, 0, 2));
    assert(write_bits(v.bonding, m, 2) == (w1, Ok::<(), PacketError>(())) && w1.data.len() >= p + 1 && w1.data.len() >= p + 1 && w1.data.subrange(p as int, p + 1int) == win1 && w1.position == p + (0 + 2) / 8 && w1.bit_position == (0 + 2) % 8 && w1.instructions == m.instructions) by {
        lemma_pack_in_byte(with_bits(m, 2), b1);
        assert(m.instructions.push(2).drop_last() =~= m.instructions);
    }
    let b2 = seq![if v.mitm_protection { 1u8 } else { 0u8 }];
    let w2 = with_bits(w1, 1).pack_bytes_spec(b2).0;
    let win2 = set_bits_spec(win1, 2, 1, get_bits_spec(b2, 0, 1));
    assert(write_bits(v.mitm_protection, w1, 1) == (w2, Ok::<(), PacketError>(())) && w2.data.len() >= p + 1 && w2.data.len() >= p + 1 && w2.data.subrange(p as int, p + 1int) == win2 && w2.position == p + (2 + 1) / 8 && w2.bit_position == (2 + 1) % 8 && w2.instructions == m.instructions) by {
        lemma_pack_in_byte(with_bits(w1, 1), b2);
        assert(w1.instructions.push(1).drop_last() =~= w1.instructions);
        assert(grow(w1.data, p + 1) == w1.data);
    }
    let b3 = seq![if v.secure_connections { 1u8 } else { 0u8 }];
    let w3 = with_bits(w2, 1).pack_bytes_spec(b3).0;
    let win3 = set_bits_spec(win2, 3, 1, get_bits_spec(b3, 0, 1));
    assert(write_bits(v.secure_connections, w2, 1) == (w3, Ok::<(), PacketError>(())) && w3.data.len() >= p + 1 && w3.data.len() >= p + 1 && w3.data.subrange(p as int, p + 1int) == win3 && w3.position == p + (3 + 1) / 8 && w3.bit_position == (3 + 1) % 8 && w3.instructions == m.instructions) by {
        lemma_pack_in_byte(with_bits(w2, 1), b3);
        assert(w2.instructions.push(1).drop_last() =~= w2.instructions);
        assert(grow(w2.data, p + 1) == w2.data);
    }
    let b4 = seq![if v.keypress_notification { 1u8 } else { 0u8 }];
    let w4 = with_bits(w3, 1).pack_bytes_spec(b4).0;
    let win4 = set_bits_spec(win3, 4, 1, get_bits_spec(b4, 0, 1));
    assert(write_bits(v.keypress_notification, w3, 1) == (w4, Ok::<(), PacketError>(())) && w4.data.len() >= p + 1 && w4.data.len() >= p + 1 && w4.data.subrange(p as int, p + 1int) == win4 && w4.position == p + (4 + 1) / 8 && w4.bit_position == (4 + 1) % 8 && w4.instructions == m.instructions) by {
        lemma_pack_in_byte(with_bits(w3, 1), b4);
        assert(w3.instructions.push(1).drop_last() =~= w3.instructions);
        assert(grow(w3.data, p + 1) == w3.data);
    }
    let b5 = seq![if v.ct2 { 1u8 } else { 0u8 }];
    let w5 = with_bits(w4, 1).pack_bytes_spec(b5).0;
    let win5 = set_bits_spec(win4, 5, 1, get_bits_spec(b5, 0, 1));
    assert(write_bits(v.ct2, w4, 1) == (w5, Ok::<(), PacketError>(())) && w5.data.len() >= p + 1 && w5.data.len() >= p + 1 && w5.data.subrange(p as int, p + 1int) == win5 && w5.position == p + (5 + 1) / 8 && w5.bit_position == (5 + 1) % 8 && w5.instructions == m.instructions) by {
        lemma_pack_in_byte(with_bits(w4, 1), b5);
        assert(w4.instructions.push(1).drop_last() =~= w4.instructions);
        assert(grow(w4.data, p + 1) == w4.data);
    }
    let b6 = le_bytes(v._reserved as nat, 1);
    let w6 = with_bits(w5, 2).pack_bytes_spec(b6).0;
    let win6 = set_bits_spec(win5, 6, 2, get_bits_spec(b6, 0, 2));
    assert(write_bits(v._reserved, w5, 2) == (w6, Ok::<(), PacketError>(())) && w6.data.len() >= p + 1 && w6.data.len() >= p + 1 && w6.data.subrange(p as int, p + 1int) == win6 && w6.position == p + (6 + 2) / 8 && w6.bit_position == (6 + 2) % 8 && w6.instructions == m.instructions) by {
        lemma_pack_in_byte(with_bits(w5, 2), b6);
        assert(w5.instructions.push(2).drop_last() =~= w5.instructions);
        assert(grow(w5.data, p + 1) == w5.data);
    }
    assert(v.to_packet_spec(m).0 == w6);
}

/// Reading `AuthenticationRequirements` at a byte boundary reads the fields of the byte at the
/// cursor.
#[verifier::rlimit(60)]
#[verifier::spinoff_prover]
proof fn lemma_auth_req_read(r0: PacketModel)
    requires
        r0.bit_position == 0,
        !r0.has_instruction(),
        r0.position + 1 <= r0.data.len(),
        r0.position + 64 <= usize::MAX,
    ensures
        <AuthenticationRequirements as FromToPacket>::from_packet_spec(r0).1 == Ok::<AuthenticationRequirements, PacketError>(
            auth_req_of_byte(r0.data.subrange(r0.position as int, r0.position + 1int)),
        ),
{
    let t1 = with_bits(r0, 2);
    lemma_unpack_in_byte(t1, 1);
    let q1 = t1.unpack_bytes_spec(1).0;
    assert(r0.instructions.push(2).drop_last() =~= r0.instructions);
    let t2 = with_bits(q1, 1);
    lemma_unpack_in_byte(t2, 1);
    let q2 = t2.unpack_bytes_spec(1).0;
    assert(q1.instructions.push(1).drop_last() =~= q1.instructions);
    let t3 = with_bits(q2, 1);
    lemma_unpack_in_byte(t3, 1);
    let q3 = t3.unpack_bytes_spec(1).0;
    assert(q2.instructions.push(1).drop_last() =~= q2.instructions);
    let t4 = with_bits(q3, 1);
    lemma_unpack_in_byte(t4, 1);
    let q4 = t4.unpack_bytes_spec(1).0;
    assert(q3.instructions.push(1).drop_last() =~= q3.instructions);
    let t5 = with_bits(q4, 1);
    lemma_unpack_in_byte(t5, 1);
    let q5 = t5.unpack_bytes_spec(1).0;
    assert(q4.instructions.push(1).drop_last() =~= q4.instructions);
    let t6 = with_bits(q5, 2);
    lemma_unpack_in_byte(t6, 1);
    let q6 = t6.unpack_bytes_spec(1).0;
    assert(q5.instructions.push(2).drop_last() =~= q5.instructions);
}

/// The fields written into a byte read back as themselves (the reserved bits
/// when they fit their field).
#[verifier::rlimit(60)]
#[verifier::spinoff_prover]
proof fn lemma_auth_req_byte_roundtrip(w0: Seq<u8>, v: AuthenticationRequirements)
    requires
        w0.len() == 1,
        v._reserved < 4,
    ensures
        auth_req_of_byte(auth_req_byte(w0, v)) == v,
{
    let c1: u8 = if v.bonding { 1u8 } else { 0u8 };
    let b1: Seq<u8> = seq![c1];
    let in1 = get_bits_spec(b1, 0, 2);
    let c2: u8 = if v.mitm_protection { 1u8 } else { 0u8 };
    let b2: Seq<u8> = seq![c2];
    let in2 = get_bits_spec(b2, 0, 1);
    let c3: u8 = if v.secure_connections { 1u8 } else { 0u8 };
    let b3: Seq<u8> = seq![c3];
    let in3 = get_bits_spec(b3, 0, 1);
    let c4: u8 = if v.keypress_notification { 1u8 } else { 0u8 };
    let b4: Seq<u8> = seq![c4];
    let in4 = get_bits_spec(b4, 0, 1);
    let c5: u8 = if v.ct2 { 1u8 } else { 0u8 };
    let b5: Seq<u8> = seq![c5];
    let in5 = get_bits_spec(b5, 0, 1);
    let c6: u8 = v._reserved;
    let b6: Seq<u8> = le_bytes(c6 as nat, 1);
    assert(le_bytes((c6 as nat / 256) as nat, 0) =~= Seq::<u8>::empty());
    assert(b6 =~= seq![c6]);
    let in6 = get_bits_spec(b6, 0, 2);
    let win0 = w0;
    let win1 = set_bits_spec(win0, 0, 2, in1);
    let win2 = set_bits_spec(win1, 2, 1, in2);
    let win3 = set_bits_spec(win2, 3, 1, in3);
    let win4 = set_bits_spec(win3, 4, 1, in4);
    let win5 = set_bits_spec(win4, 5, 1, in5);
    let win6 = set_bits_spec(win5, 6, 2, in6);
    assert(win6 == auth_req_byte(w0, v));
    lemma_set_bits_keeps_other_field(win5, 6, 2, in6, 0, 2);
    lemma_set_bits_keeps_other_field(win4, 5, 1, in5, 0, 2);
    lemma_set_bits_keeps_other_field(win3, 4, 1, in4, 0, 2);
    lemma_set_bits_keeps_other_field(win2, 3, 1, in3, 0, 2);
    lemma_set_bits_keeps_other_field(win1, 2, 1, in2, 0, 2);
    law_set_then_get_bits(win0, 0, 2, in1);
    lemma_low_bits_of_field(b1, 2, 1);
    assert((c1 == 0u8 || c1 == 1u8) ==> c1 >> 2u8 == 0u8) by (bit_vector);
    lemma_low_bits_small(c1, 2);
    assert(get_bits_spec(win6, 0, 2) == seq![c1]);
    lemma_set_bits_keeps_other_field(win5, 6, 2, in6, 2, 1);
    lemma_set_bits_keeps_other_field(win4, 5, 1, in5, 2, 1);
    lemma_set_bits_keeps_other_field(win3, 4, 1, in4, 2, 1);
    lemma_set_bits_keeps_other_field(win2, 3, 1, in3, 2, 1);
    law_set_then_get_bits(win1, 2, 1, in2);
    lemma_low_bits_of_field(b2, 1, 1);
    assert((c2 == 0u8 || c2 == 1u8) ==> c2 >> 1u8 == 0u8) by (bit_vector);
    lemma_low_bits_small(c2, 1);
    assert(get_bits_spec(win6, 2, 1) == seq![c2]);
    lemma_set_bits_keeps_other_field(win5, 6, 2, in6, 3, 1);
    lemma_set_bits_keeps_other_field(win4, 5, 1, in5, 3, 1);
    lemma_set_bits_keeps_other_field(win3, 4, 1, in4, 3, 1);
    law_set_then_get_bits(win2, 3, 1, in3);
    lemma_low_bits_of_field(b3, 1, 1);
    assert((c3 == 0u8 || c3 == 1u8) ==> c3 >> 1u8 == 0u8) by (bit_vector);
    lemma_low_bits_small(c3, 1);
    assert(get_bits_spec(win6, 3, 1) == seq![c3]);
    lemma_set_bits_keeps_other_field(win5, 6, 2, in6, 4, 1);
    lemma_set_bits_keeps_other_field(win4, 5, 1, in5, 4, 1);
    law_set_then_get_bits(win3, 4, 1, in4);
    lemma_low_bits_of_field(b4, 1, 1);
    assert((c4 == 0u8 || c4 == 1u8) ==> c4 >> 1u8 == 0u8) by (bit_vector);
    lemma_low_bits_small(c4, 1);
    assert(get_bits_spec(win6, 4, 1) == seq![c4]);
    lemma_set_bits_keeps_other_field(win5, 6, 2, in6, 5, 1);
    law_set_then_get_bits(win4, 5, 1, in5);
    lemma_low_bits_of_field(b5, 1, 1);
    assert((c5 == 0u8 || c5 == 1u8) ==> c5 >> 1u8 == 0u8) by (bit_vector);
    lemma_low_bits_small(c5, 1);
    assert(get_bits_spec(win6, 5, 1) == seq![c5]);
    law_set_then_get_bits(win5, 6, 2, in6);
    lemma_low_bits_of_field(b6, 2, 1);
    assert(c6 < 4 ==> c6 >> 2u8 == 0u8) by (bit_vector);
    lemma_low_bits_small(c6, 2);
    assert(get_bits_spec(win6, 6, 2) == seq![c6]);
    assert(resize_spec(seq![c6], 1) =~= seq![c6]);
    assert(le_value(seq![c6]) == c6) by {
        assert(seq![c6].drop_first() =~= Seq::<u8>::empty());
        assert(le_value(Seq::<u8>::empty()) == 0);
    }
}

/// Writing `AuthenticationRequirements` and reading them back from the place they were written
/// at gives the same value (the reserved bits kept when they fit their
/// field).
pub proof fn law_auth_req_roundtrip(m: PacketModel, v: AuthenticationRequirements)
    requires
        m.bit_position == 0,
        !m.has_instruction(),
        m.position + 64 <= usize::MAX,
        v._reserved < 4,
    ensures
        <AuthenticationRequirements as FromToPacket>::from_packet_spec(rewound_to(v.to_packet_spec(m).0, m.position)).1
            == Ok::<AuthenticationRequirements, PacketError>(v),
{
    lemma_auth_req_written(m, v);
    let w = v.to_packet_spec(m).0;
    lemma_auth_req_read(rewound_to(w, m.position));
    lemma_auth_req_byte_roundtrip(
        grow(m.data, m.position + 1).subrange(m.position as int, m.position + 1int),
        v,
    );
}

/// Reading an identifier from a byte that holds the identifier at index
/// `target` finds `target` and moves the cursor past the byte.
#[verifier::rlimit(60)]
#[verifier::spinoff_prover]
pub proof fn lemma_read_tag(m: PacketModel, tags: Seq<u8>, target: nat, rest: Seq<u8>)
    requires
        holds_at(m, seq![tags[target as int]] + rest),
        distinct_tags(tags),
        target < tags.len(),
    ensures
        match_tag(m, tags, 0) == (m.advance_bytes(1), Some(target)),
        holds_at(m.advance_bytes(1), rest),
{
    lemma_holds_split(m, seq![tags[target as int]], rest);
    assert(m.data.subrange(m.position as int, m.position + 1int) == seq![tags[target as int]]);
    assert(m.data[m.position as int] == m.data.subrange(m.position as int, m.position + 1int)[0]);
    lemma_match_tag_hit(m, tags, 0, target);
}

/// The byte of a status: zero for success, the code for a failure.
pub open spec fn status_bytes(v: HciStatus) -> Seq<u8> {
    match v {
        HciStatus::Success => seq![0x00u8],
        HciStatus::Failure(code) => le_bytes(code as nat, 1),
    }
}

/// A status other than a failure with code zero is read back from its
/// byte, and the cursor moves past it.
#[verifier::rlimit(60)]
#[verifier::spinoff_prover]
pub proof fn lemma_read_status(m: PacketModel, v: HciStatus, rest: Seq<u8>)
    requires
        holds_at(m, status_bytes(v) + rest),
        v != HciStatus::Failure(0),
    ensures
        <HciStatus as FromToPacket>::from_packet_spec(m) == (m.advance_bytes(1), Ok::<HciStatus, PacketError>(v)),
        holds_at(m.advance_bytes(1), rest),
        v.to_packet_spec(m) == m.pack_bytes_spec(status_bytes(v)),
{
    match v {
        HciStatus::Success => {
            lemma_holds_split(m, seq![0x00u8], rest);
        },
        HciStatus::Failure(code) => {
            crate::endian::lemma_pow256_values();
            crate::endian::lemma_le_bytes_len(code as nat, 1);
            crate::packer_laws::lemma_read_number(m, code as nat, 1, rest);
            lemma_holds_split(m, le_bytes(code as nat, 1), rest);
            let probe = m.data.subrange(m.position as int, m.position + 1int);
            assert(probe == le_bytes(code as nat, 1));
            assert(probe[0] == code);
            assert(probe != seq![0x00u8]);
        },
    }
}


/// The byte that holds `v`'s key distribution flags.
pub open spec fn key_distribution_value(v: KeyDistributionFlags) -> u8 {
    key_distribution_byte(seq![0u8], v)[0]
}

/// The fields of key distribution flags cover their byte: what the byte
/// held before does not matter.
#[verifier::rlimit(60)]
#[verifier::spinoff_prover]
proof fn lemma_key_distribution_byte_fixed(w0: Seq<u8>, v: KeyDistributionFlags)
    requires
        w0.len() == 1,
    ensures
        key_distribution_byte(w0, v) == seq![key_distribution_value(v)],
{
    let in1 = get_bits_spec(seq![if v.enc_key { 1u8 } else { 0u8 }], 0, 1);
    let in2 = get_bits_spec(seq![if v.id_key { 1u8 } else { 0u8 }], 0, 1);
    let in3 = get_bits_spec(seq![if v.sign_key { 1u8 } else { 0u8 }], 0, 1);
    let in4 = get_bits_spec(seq![if v.link_key { 1u8 } else { 0u8 }], 0, 1);
    let in5 = get_bits_spec(le_bytes(v._reserved as nat, 1), 0, 4);
    let z0 = seq![0u8];
    let a1 = set_bits_spec(w0, 0, 1, in1);
    let a2 = set_bits_spec(a1, 1, 1, in2);
    let a3 = set_bits_spec(a2, 2, 1, in3);
    let a4 = set_bits_spec(a3, 3, 1, in4);
    let a5 = set_bits_spec(a4, 4, 4, in5);
    let z1 = set_bits_spec(z0, 0, 1, in1);
    let z2 = set_bits_spec(z1, 1, 1, in2);
    let z3 = set_bits_spec(z2, 2, 1, in3);
    let z4 = set_bits_spec(z3, 3, 1, in4);
    let z5 = set_bits_spec(z4, 4, 4, in5);
    assert(a5 == key_distribution_byte(w0, v));
    assert(z5 == key_distribution_byte(z0, v));
    assert forall|k: int| 0 <= k < 8 * a5.len() implies bit_of(a5, k) == bit_of(z5, k) by {
        lemma_bytes_from_bits(|j: int| set_bit_at(a4, 4, 4, in5, j), 1, k);
        lemma_bytes_from_bits(|j: int| set_bit_at(z4, 4, 4, in5, j), 1, k);
        lemma_bytes_from_bits(|j: int| set_bit_at(a3, 3, 1, in4, j), 1, k);
        lemma_bytes_from_bits(|j: int| set_bit_at(z3, 3, 1, in4, j), 1, k);
        lemma_bytes_from_bits(|j: int| set_bit_at(a2, 2, 1, in3, j), 1, k);
        lemma_bytes_from_bits(|j: int| set_bit_at(z2, 2, 1, in3, j), 1, k);
        lemma_bytes_from_bits(|j: int| set_bit_at(a1, 1, 1, in2, j), 1, k);
        lemma_bytes_from_bits(|j: int| set_bit_at(z1, 1, 1, in2, j), 1, k);
        lemma_bytes_from_bits(|j: int| set_bit_at(w0, 0, 1, in1, j), 1, k);
        lemma_bytes_from_bits(|j: int| set_bit_at(z0, 0, 1, in1, j), 1, k);
    }
    lemma_bits_ext(a5, z5);
    assert(z5 =~= seq![z5[0]]);
}


/// Writing key distribution flags at a byte boundary writes one whole byte.
#[verifier::rlimit(80)]
#[verifier::spinoff_prover]
pub proof fn lemma_key_distribution_whole_write(m: PacketModel, v: KeyDistributionFlags)
    requires
        m.bit_position == 0,
        !m.has_instruction(),
        m.position + 64 <= usize::MAX,
    ensures
        v.to_packet_spec(m) == m.pack_bytes_spec(seq![key_distribution_value(v)]),
{
    let p = m.position;
    let g = grow(m.data, p + 1);
    lemma_key_distribution_written(m, v);
    lemma_key_distribution_byte_fixed(g.subrange(p as int, p + 1int), v);
    let b1 = seq![if v.enc_key { 1u8 } else { 0u8 }];
    let w1 = with_bits(m, 1).pack_bytes_spec(b1).0;
    assert(with_bits(m, 1).pack_bytes_spec(b1).1 is Ok && w1.data == g.update(p as int, w1.data[p as int])
        && w1.position == p && w1.bit_position == 1 && w1.instructions == m.instructions
        && w1.length_positions == m.length_positions) by {
        lemma_pack_in_byte(with_bits(m, 1), b1);
        lemma_pack_in_byte_frame(with_bits(m, 1), b1);
        assert(m.instructions.push(1).drop_last() =~= m.instructions);
    }
    let b2 = seq![if v.id_key { 1u8 } else { 0u8 }];
    let w2 = with_bits(w1, 1).pack_bytes_spec(b2).0;
    assert(with_bits(w1, 1).pack_bytes_spec(b2).1 is Ok && w2.data == g.update(p as int, w2.data[p as int])
        && w2.position == p && w2.bit_position == 2 && w2.instructions == m.instructions
        && w2.length_positions == m.length_positions) by {
        lemma_pack_in_byte(with_bits(w1, 1), b2);
        lemma_pack_in_byte_frame(with_bits(w1, 1), b2);
        assert(w1.instructions.push(1).drop_last() =~= w1.instructions);
        assert(grow(w1.data, p + 1) == w1.data);
        assert(w2.data =~= g.update(p as int, w2.data[p as int]));
    }
    let b3 = seq![if v.sign_key { 1u8 } else { 0u8 }];
    let w3 = with_bits(w2, 1).pack_bytes_spec(b3).0;
    assert(with_bits(w2, 1).pack_bytes_spec(b3).1 is Ok && w3.data == g.update(p as int, w3.data[p as int])
        && w3.position == p && w3.bit_position == 3 && w3.instructions == m.instructions
        && w3.length_positions == m.length_positions) by {
        lemma_pack_in_byte(with_bits(w2, 1), b3);
        lemma_pack_in_byte_frame(with_bits(w2, 1), b3);
        assert(w2.instructions.push(1).drop_last() =~= w2.instructions);
        assert(grow(w2.data, p + 1) == w2.data);
        assert(w3.data =~= g.update(p as int, w3.data[p as int]));
    }
    let b4 = seq![if v.link_key { 1u8 } else { 0u8 }];
    let w4 = with_bits(w3, 1).pack_bytes_spec(b4).0;
    assert(with_bits(w3, 1).pack_bytes_spec(b4).1 is Ok && w4.data == g.update(p as int, w4.data[p as int])
        && w4.position == p && w4.bit_position == 4 && w4.instructions == m.instructions
        && w4.length_positions == m.length_positions) by {
        lemma_pack_in_byte(with_bits(w3, 1), b4);
        lemma_pack_in_byte_frame(with_bits(w3, 1), b4);
        assert(w3.instructions.push(1).drop_last() =~= w3.instructions);
        assert(grow(w3.data, p + 1) == w3.data);
        assert(w4.data =~= g.update(p as int, w4.data[p as int]));
    }
    let b5 = le_bytes(v._reserved as nat, 1);
    let w5 = with_bits(w4, 4).pack_bytes_spec(b5).0;
    assert(with_bits(w4, 4).pack_bytes_spec(b5).1 is Ok && w5.data == g.update(p as int, w5.data[p as int])
        && w5.position == p + 1 && w5.bit_position == 0 && w5.instructions == m.instructions
        && w5.length_positions == m.length_positions) by {
        lemma_pack_in_byte(with_bits(w4, 4), b5);
        lemma_pack_in_byte_frame(with_bits(w4, 4), b5);
        assert(w4.instructions.push(4).drop_last() =~= w4.instructions);
        assert(grow(w4.data, p + 1) == w4.data);
        assert(w5.data =~= g.update(p as int, w5.data[p as int]));
    }
    assert(v.to_packet_spec(m).0 == w5);
    assert(w5.data.subrange(p as int, p + 1int)[0] == w5.data[p as int]);
    let val = key_distribution_value(v);
    assert(splice(g, p, seq![val]) =~= g.update(p as int, val));
    assert(w5 == m.pack_bytes_spec(seq![val]).0);
}


/// Key distribution flags whose reserved bits fit are read back from their
/// byte, and the cursor moves past it.
#[verifier::rlimit(60)]
#[verifier::spinoff_prover]
pub proof fn lemma_key_distribution_whole_read(r: PacketModel, v: KeyDistributionFlags, rest: Seq<u8>)
    requires
        holds_at(r, seq![key_distribution_value(v)] + rest),
        r.bit_position == 0,
        r.position + 64 <= usize::MAX,
        v._reserved < 16,
    ensures
        <KeyDistributionFlags as FromToPacket>::from_packet_spec(r) == (r.advance_bytes(1), Ok::<KeyDistributionFlags, PacketError>(v)),
        holds_at(r.advance_bytes(1), rest),
{
    let val = key_distribution_value(v);
    lemma_holds_split(r, seq![val], rest);
    lemma_key_distribution_read(r);
    lemma_key_distribution_byte_fixed(seq![0u8], v);
    lemma_key_distribution_byte_roundtrip(seq![0u8], v);
    assert(r.data.subrange(r.position as int, r.position + 1int) == seq![val]);
    assert(r.instructions.push(1).drop_last() =~= r.instructions);
    assert(r.instructions.push(4).drop_last() =~= r.instructions);
}


/// The byte that holds `v`'s authentication requirements.
pub open spec fn auth_req_value(v: AuthenticationRequirements) -> u8 {
    auth_req_byte(seq![0u8], v)[0]
}

/// The fields of authentication requirements cover their byte: what the
/// byte held before does not matter.
#[verifier::rlimit(60)]
#[verifier::spinoff_prover]
proof fn lemma_auth_req_byte_fixed(w0: Seq<u8>, v: AuthenticationRequirements)
    requires
        w0.len() == 1,
    ensures
        auth_req_byte(w0, v) == seq![auth_req_value(v)],
{
    let in1 = get_bits_spec(seq![if v.bonding { 1u8 } else { 0u8 }], 0, 2);
    let in2 = get_bits_spec(seq![if v.mitm_protection { 1u8 } else { 0u8 }], 0, 1);
    let in3 = get_bits_spec(seq![if v.secure_connections { 1u8 } else { 0u8 }], 0, 1);
    let in4 = get_bits_spec(seq![if v.keypress_notification { 1u8 } else { 0u8 }], 0, 1);
    let in5 = get_bits_spec(seq![if v.ct2 { 1u8 } else { 0u8 }], 0, 1);
    let in6 = get_bits_spec(le_bytes(v._reserved as nat, 1), 0, 2);
    let z0 = seq![0u8];
    let a1 = set_bits_spec(w0, 0, 2, in1);
    let a2 = set_bits_spec(a1, 2, 1, in2);
    let a3 = set_bits_spec(a2, 3, 1, in3);
    let a4 = set_bits_spec(a3, 4, 1, in4);
    let a5 = set_bits_spec(a4, 5, 1, in5);
    let a6 = set_bits_spec(a5, 6, 2, in6);
    let z1 = set_bits_spec(z0, 0, 2, in1);
    let z2 = set_bits_spec(z1, 2, 1, in2);
    let z3 = set_bits_spec(z2, 3, 1, in3);
    let z4 = set_bits_spec(z3, 4, 1, in4);
    let z5 = set_bits_spec(z4, 5, 1, in5);
    let z6 = set_bits_spec(z5, 6, 2, in6);
    assert(a6 == auth_req_byte(w0, v));
    assert(z6 == auth_req_byte(z0, v));
    assert forall|k: int| 0 <= k < 8 * a6.len() implies bit_of(a6, k) == bit_of(z6, k) by {
        lemma_bytes_from_bits(|j: int| set_bit_at(a5, 6, 2, in6, j), 1, k);
        lemma_bytes_from_bits(|j: int| set_bit_at(z5, 6, 2, in6, j), 1, k);
        lemma_bytes_from_bits(|j: int| set_bit_at(a4, 5, 1, in5, j), 1, k);
        lemma_bytes_from_bits(|j: int| set_bit_at(z4, 5, 1, in5, j), 1, k);
        lemma_bytes_from_bits(|j: int| set_bit_at(a3, 4, 1, in4, j), 1, k);
        lemma_bytes_from_bits(|j: int| set_bit_at(z3, 4, 1, in4, j), 1, k);
        lemma_bytes_from_bits(|j: int| set_bit_at(a2, 3, 1, in3, j), 1, k);
        lemma_bytes_from_bits(|j: int| set_bit_at(z2, 3, 1, in3, j), 1, k);
        lemma_bytes_from_bits(|j: int| set_bit_at(a1, 2, 1, in2, j), 1, k);
        lemma_bytes_from_bits(|j: int| set_bit_at(z1, 2, 1, in2, j), 1, k);
        lemma_bytes_from_bits(|j: int| set_bit_at(w0, 0, 2, in1, j), 1, k);
        lemma_bytes_from_bits(|j: int| set_bit_at(z0, 0, 2, in1, j), 1, k);
    }
    lemma_bits_ext(a6, z6);
    assert(z6 =~= seq![z6[0]]);
}

/// Writing authentication requirements at a byte boundary writes one whole
/// byte.
#[verifier::rlimit(80)]
#[verifier::spinoff_prover]
pub proof fn lemma_auth_req_whole_write(m: PacketModel, v: AuthenticationRequirements)
    requires
        m.bit_position == 0,
        !m.has_instruction(),
        m.position + 64 <= usize::MAX,
    ensures
        v.to_packet_spec(m) == m.pack_bytes_spec(seq![auth_req_value(v)]),
{
    let p = m.position;
    let g = grow(m.data, p + 1);
    lemma_auth_req_written(m, v);
    lemma_auth_req_byte_fixed(g.subrange(p as int, p + 1int), v);
    let b1 = seq![if v.bonding { 1u8 } else { 0u8 }];
    let w1 = with_bits(m, 2).pack_bytes_spec(b1).0;
    assert(with_bits(m, 2).pack_bytes_spec(b1).1 is Ok && w1.data == g.update(p as int, w1.data[p as int])
        && w1.position == p && w1.bit_position == 2 && w1.instructions == m.instructions
        && w1.length_positions == m.length_positions) by {
        lemma_pack_in_byte(with_bits(m, 2), b1);
        lemma_pack_in_byte_frame(with_bits(m, 2), b1);
        assert(m.instructions.push(2).drop_last() =~= m.instructions);
    }
    let b2 = seq![if v.mitm_protection { 1u8 } else { 0u8 }];
    let w2 = with_bits(w1, 1).pack_bytes_spec(b2).0;
    assert(with_bits(w1, 1).pack_bytes_spec(b2).1 is Ok && w2.data == g.update(p as int, w2.data[p as int])
        && w2.position == p && w2.bit_position == 3 && w2.instructions == m.instructions
        && w2.length_positions == m.length_positions) by {
        lemma_pack_in_byte(with_bits(w1, 1), b2);
        lemma_pack_in_byte_frame(with_bits(w1, 1), b2);
        assert(w1.instructions.push(1).drop_last() =~= w1.instructions);
        assert(grow(w1.data, p + 1) == w1.data);
        assert(w2.data =~= g.update(p as int, w2.data[p as int]));
    }
    let b3 = seq![if v.secure_connections { 1u8 } else { 0u8 }];
    let w3 = with_bits(w2, 1).pack_bytes_spec(b3).0;
    assert(with_bits(w2, 1).pack_bytes_spec(b3).1 is Ok && w3.data == g.update(p as int, w3.data[p as int])
        && w3.position == p && w3.bit_position == 4 && w3.instructions == m.instructions
        && w3.length_positions == m.length_positions) by {
        lemma_pack_in_byte(with_bits(w2, 1), b3);
        lemma_pack_in_byte_frame(with_bits(w2, 1), b3);
        assert(w2.instructions.push(1).drop_last() =~= w2.instructions);
        assert(grow(w2.data, p + 1) == w2.data);
        assert(w3.data =~= g.update(p as int, w3.data[p as int]));
    }
    let b4 = seq![if v.keypress_notification { 1u8 } else { 0u8 }];
    let w4 = with_bits(w3, 1).pack_bytes_spec(b4).0;
    assert(with_bits(w3, 1).pack_bytes_spec(b4).1 is Ok && w4.data == g.update(p as int, w4.data[p as int])
        && w4.position == p && w4.bit_position == 5 && w4.instructions == m.instructions
        && w4.length_positions == m.length_positions) by {
        lemma_pack_in_byte(with_bits(w3, 1), b4);
        lemma_pack_in_byte_frame(with_bits(w3, 1), b4);
        assert(w3.instructions.push(1).drop_last() =~= w3.instructions);
        assert(grow(w3.data, p + 1) == w3.data);
        assert(w4.data =~= g.update(p as int, w4.data[p as int]));
    }
    let b5 = seq![if v.ct2 { 1u8 } else { 0u8 }];
    let w5 = with_bits(w4, 1).pack_bytes_spec(b5).0;
    assert(with_bits(w4, 1).pack_bytes_spec(b5).1 is Ok && w5.data == g.update(p as int, w5.data[p as int])
        && w5.position == p && w5.bit_position == 6 && w5.instructions == m.instructions
        && w5.length_positions == m.length_positions) by {
        lemma_pack_in_byte(with_bits(w4, 1), b5);
        lemma_pack_in_byte_frame(with_bits(w4, 1), b5);
        assert(w4.instructions.push(1).drop_last() =~= w4.instructions);
        assert(grow(w4.data, p + 1) == w4.data);
        assert(w5.data =~= g.update(p as int, w5.data[p as int]));
    }
    let b6 = le_bytes(v._reserved as nat, 1);
    let w6 = with_bits(w5, 2).pack_bytes_spec(b6).0;
    assert(with_bits(w5, 2).pack_bytes_spec(b6).1 is Ok && w6.data == g.update(p as int, w6.data[p as int])
        && w6.position == p + 1 && w6.bit_position == 0 && w6.instructions == m.instructions
        && w6.length_positions == m.length_positions) by {
        lemma_pack_in_byte(with_bits(w5, 2), b6);
        lemma_pack_in_byte_frame(with_bits(w5, 2), b6);
        assert(w5.instructions.push(2).drop_last() =~= w5.instructions);
        assert(grow(w5.data, p + 1) == w5.data);
        assert(w6.data =~= g.update(p as int, w6.data[p as int]));
    }
    assert(v.to_packet_spec(m).0 == w6);
    assert(w6.data.subrange(p as int, p + 1int)[0] == w6.data[p as int]);
    let val = auth_req_value(v);
    assert(splice(g, p, seq![val]) =~= g.update(p as int, val));
    assert(w6 == m.pack_bytes_spec(seq![val]).0);
}

/// Authentication requirements whose reserved bits fit are read back from
/// their byte, and the cursor moves past it.
#[verifier::rlimit(60)]
#[verifier::spinoff_prover]
pub proof fn lemma_auth_req_whole_read(r: PacketModel, v: AuthenticationRequirements, rest: Seq<u8>)
    requires
        holds_at(r, seq![auth_req_value(v)] + rest),
        r.bit_position == 0,
        r.position + 64 <= usize::MAX,
        v._reserved < 4,
    ensures
        <AuthenticationRequirements as FromToPacket>::from_packet_spec(r) == (r.advance_bytes(1), Ok::<AuthenticationRequirements, PacketError>(v)),
        holds_at(r.advance_bytes(1), rest),
{
    let val = auth_req_value(v);
    lemma_holds_split(r, seq![val], rest);
    lemma_auth_req_read(r);
    lemma_auth_req_byte_fixed(seq![0u8], v);
    lemma_auth_req_byte_roundtrip(seq![0u8], v);
    assert(r.data.subrange(r.position as int, r.position + 1int) == seq![val]);
    assert(r.instructions.push(1).drop_last() =~= r.instructions);
    assert(r.instructions.push(2).drop_last() =~= r.instructions);
}


/// The pairing parameters as they are written, one byte each.
pub open spec fn pairing_parameter_bytes(
    io_capability: IOCapability,
    oob_data_flag: OOBDataFlag,
    authentication_requirements: AuthenticationRequirements,
    max_encryption_key_size: u8,
    initiator_key_distribution: KeyDistributionFlags,
    responder_key_distribution: KeyDistributionFlags,
) -> Seq<u8> {
    seq![
        io_capability.spec_tag(),
        oob_data_flag.spec_tag(),
        auth_req_value(authentication_requirements),
        max_encryption_key_size,
        key_distribution_value(initiator_key_distribution),
        key_distribution_value(responder_key_distribution),
    ]
}

impl SmpPdu {
    /// The PDU as it is written: its code, then its value or its pairing
    /// parameters.
    pub open spec fn pdu_bytes(self) -> Seq<u8> {
        seq![self.spec_code()] + match self {
            SmpPdu::SmpPairingConfirmation { confirm_value } => le_bytes(confirm_value as nat, 16),
            SmpPdu::SmpPairingRandom { random_value } => le_bytes(random_value as nat, 16),
            SmpPdu::SmpPairingRequest {
                io_capability,
                oob_data_flag,
                authentication_requirements,
                max_encryption_key_size,
                initiator_key_distribution,
                responder_key_distribution,
            } => pairing_parameter_bytes(
                io_capability,
                oob_data_flag,
                authentication_requirements,
                max_encryption_key_size,
                initiator_key_distribution,
                responder_key_distribution,
            ),
            SmpPdu::SmpPairingResponse {
                io_capability,
                oob_data_flag,
                authentication_requirements,
                max_encryption_key_size,
                initiator_key_distribution,
                responder_key_distribution,
            } => pairing_parameter_bytes(
                io_capability,
                oob_data_flag,
                authentication_requirements,
                max_encryption_key_size,
                initiator_key_distribution,
                responder_key_distribution,
            ),
        }
    }

    /// Reading the PDU back gives it: the reserved bits of its flags fit
    /// their fields.
    pub open spec fn reads_back(self) -> bool {
        match self {
            SmpPdu::SmpPairingRequest { authentication_requirements, initiator_key_distribution, responder_key_distribution, .. } =>
                authentication_requirements._reserved < 4 && initiator_key_distribution._reserved < 16
                    && responder_key_distribution._reserved < 16,
            SmpPdu::SmpPairingResponse { authentication_requirements, initiator_key_distribution, responder_key_distribution, .. } =>
                authentication_requirements._reserved < 4 && initiator_key_distribution._reserved < 16
                    && responder_key_distribution._reserved < 16,
            _ => true,
        }
    }
}

/// Writing the pairing parameters at a byte boundary writes their bytes.
#[verifier::rlimit(100)]
#[verifier::spinoff_prover]
proof fn lemma_pairing_parameters_written(
    m: PacketModel,
    io_capability: IOCapability,
    oob_data_flag: OOBDataFlag,
    authentication_requirements: AuthenticationRequirements,
    max_encryption_key_size: u8,
    initiator_key_distribution: KeyDistributionFlags,
    responder_key_distribution: KeyDistributionFlags,
)
    requires
        m.wf(),
        m.bit_position == 0,
        !m.has_instruction(),
        m.position + 100 <= usize::MAX,
    ensures
        write_pairing_parameters(
            m,
            io_capability,
            oob_data_flag,
            authentication_requirements,
            max_encryption_key_size,
            initiator_key_distribution,
            responder_key_distribution,
        ) == m.pack_bytes_spec(pairing_parameter_bytes(
            io_capability,
            oob_data_flag,
            authentication_requirements,
            max_encryption_key_size,
            initiator_key_distribution,
            responder_key_distribution,
        )),
{
    let b1 = seq![io_capability.spec_tag()];
    let b2 = seq![oob_data_flag.spec_tag()];
    let b3 = seq![auth_req_value(authentication_requirements)];
    let b4 = le_bytes(max_encryption_key_size as nat, 1);
    let b5 = seq![key_distribution_value(initiator_key_distribution)];
    let b6 = seq![key_distribution_value(responder_key_distribution)];
    let a2 = b1 + b2;
    let a3 = a2 + b3;
    let a4 = a3 + b4;
    let a5 = a4 + b5;
    let a6 = a5 + b6;
    assert(io_capability.to_packet_spec(m) == m.pack_bytes_spec(b1));
    assert(oob_data_flag.to_packet_spec(m.pack_bytes_spec(b1).0) == m.pack_bytes_spec(a2)) by {
        lemma_pack_concat(m, b1, b2);
    }
    assert(authentication_requirements.to_packet_spec(m.pack_bytes_spec(a2).0) == m.pack_bytes_spec(a3)) by {
        lemma_auth_req_whole_write(m.pack_bytes_spec(a2).0, authentication_requirements);
        lemma_pack_concat(m, a2, b3);
    }
    assert(max_encryption_key_size.to_packet_spec(m.pack_bytes_spec(a3).0) == m.pack_bytes_spec(a4)) by {
        lemma_pack_concat(m, a3, b4);
    }
    assert(initiator_key_distribution.to_packet_spec(m.pack_bytes_spec(a4).0) == m.pack_bytes_spec(a5)) by {
        crate::endian::lemma_le_bytes_len(max_encryption_key_size as nat, 1);
        lemma_key_distribution_whole_write(m.pack_bytes_spec(a4).0, initiator_key_distribution);
        lemma_pack_concat(m, a4, b5);
    }
    assert(responder_key_distribution.to_packet_spec(m.pack_bytes_spec(a5).0) == m.pack_bytes_spec(a6)) by {
        crate::endian::lemma_le_bytes_len(max_encryption_key_size as nat, 1);
        lemma_key_distribution_whole_write(m.pack_bytes_spec(a5).0, responder_key_distribution);
        lemma_pack_concat(m, a5, b6);
    }
    assert(m.pack_bytes_spec(b1).1 is Ok);
    assert(le_bytes((max_encryption_key_size as nat / 256) as nat, 0) =~= Seq::<u8>::empty());
    assert(a6 =~= pairing_parameter_bytes(
        io_capability,
        oob_data_flag,
        authentication_requirements,
        max_encryption_key_size,
        initiator_key_distribution,
        responder_key_distribution,
    ));
    reveal(write_pairing_parameters);
}


/// The pairing parameters read from the fields that were read.
#[verifier::rlimit(60)]
#[verifier::spinoff_prover]
proof fn lemma_pairing_parameters_compose(
    r: PacketModel,
    r2: PacketModel,
    r3: PacketModel,
    r4: PacketModel,
    r5: PacketModel,
    r6: PacketModel,
    r7: PacketModel,
    v: SmpPdu,
)
    requires
        v is SmpPairingRequest || v is SmpPairingResponse,
        ({
            let (io, oob, auth, max, ikd, rkd) = pairing_fields(v);
            &&& <IOCapability as FromToPacket>::from_packet_spec(r) == (r2, Ok::<IOCapability, PacketError>(io))
            &&& <OOBDataFlag as FromToPacket>::from_packet_spec(r2) == (r3, Ok::<OOBDataFlag, PacketError>(oob))
            &&& <AuthenticationRequirements as FromToPacket>::from_packet_spec(r3) == (r4, Ok::<AuthenticationRequirements, PacketError>(auth))
            &&& <u8 as FromToPacket>::from_packet_spec(r4) == (r5, Ok::<u8, PacketError>(max))
            &&& <KeyDistributionFlags as FromToPacket>::from_packet_spec(r5) == (r6, Ok::<KeyDistributionFlags, PacketError>(ikd))
            &&& <KeyDistributionFlags as FromToPacket>::from_packet_spec(r6) == (r7, Ok::<KeyDistributionFlags, PacketError>(rkd))
        }),
    ensures
        read_pairing_parameters(r, v is SmpPairingRequest).1 == Ok::<SmpPdu, PacketError>(v),
{
    reveal(read_pairing_parameters);
}

/// The pairing parameters of a pairing request or response.
pub open spec fn pairing_fields(v: SmpPdu) -> (IOCapability, OOBDataFlag, AuthenticationRequirements, u8, KeyDistributionFlags, KeyDistributionFlags) {
    match v {
        SmpPdu::SmpPairingRequest {
            io_capability,
            oob_data_flag,
            authentication_requirements,
            max_encryption_key_size,
            initiator_key_distribution,
            responder_key_distribution,
        } => (io_capability, oob_data_flag, authentication_requirements, max_encryption_key_size, initiator_key_distribution, responder_key_distribution),
        SmpPdu::SmpPairingResponse {
            io_capability,
            oob_data_flag,
            authentication_requirements,
            max_encryption_key_size,
            initiator_key_distribution,
            responder_key_distribution,
        } => (io_capability, oob_data_flag, authentication_requirements, max_encryption_key_size, initiator_key_distribution, responder_key_distribution),
        _ => arbitrary(),
    }
}

/// The capability and the out-of-band flag are read back from their bytes.
#[verifier::rlimit(60)]
#[verifier::spinoff_prover]
proof fn lemma_pairing_tags_read(r: PacketModel, io: IOCapability, oob: OOBDataFlag, rest: Seq<u8>)
    requires
        holds_at(r, seq![io.spec_tag()] + (seq![oob.spec_tag()] + rest)),
    ensures
        <IOCapability as FromToPacket>::from_packet_spec(r) == (r.advance_bytes(1), Ok::<IOCapability, PacketError>(io)),
        <OOBDataFlag as FromToPacket>::from_packet_spec(r.advance_bytes(1)) == (r.advance_bytes(1).advance_bytes(1), Ok::<OOBDataFlag, PacketError>(oob)),
        holds_at(r.advance_bytes(1).advance_bytes(1), rest),
{
    let t2 = seq![oob.spec_tag()] + rest;
    let tags = IOCapability::spec_tags();
    assert(distinct_tags(tags));
    match io {
        IOCapability::DisplayOnly => lemma_read_tag(r, tags, 0, t2),
        IOCapability::DisplayYesNo => lemma_read_tag(r, tags, 1, t2),
        IOCapability::KeyboardOnly => lemma_read_tag(r, tags, 2, t2),
        IOCapability::NoInputNoOutput => lemma_read_tag(r, tags, 3, t2),
        IOCapability::KeyboardDisplay => lemma_read_tag(r, tags, 4, t2),
    }
    let r2 = r.advance_bytes(1);
    let tags2 = OOBDataFlag::spec_tags();
    assert(distinct_tags(tags2));
    match oob {
        OOBDataFlag::OobNotAvailable => lemma_read_tag(r2, tags2, 0, rest),
        OOBDataFlag::OobAvailable => lemma_read_tag(r2, tags2, 1, rest),
    }
}

/// Pairing parameters whose reserved bits fit are read back from their
/// bytes.
#[verifier::rlimit(100)]
#[verifier::spinoff_prover]
proof fn lemma_pairing_parameters_read(r: PacketModel, v: SmpPdu, rest: Seq<u8>)
    requires
        v is SmpPairingRequest || v is SmpPairingResponse,
        v.reads_back(),
        holds_at(r, v.pdu_bytes().drop_first() + rest),
        r.bit_position == 0,
        r.position + 100 <= usize::MAX,
    ensures
        read_pairing_parameters(r, v is SmpPairingRequest).1 == Ok::<SmpPdu, PacketError>(v),
{
    let (io, oob, auth, max, ikd, rkd) = pairing_fields(v);
    let b3 = seq![auth_req_value(auth)];
    let b4 = le_bytes(max as nat, 1);
    let b5 = seq![key_distribution_value(ikd)];
    let b6 = seq![key_distribution_value(rkd)];
    let t6 = b6 + rest;
    let t5 = b5 + t6;
    let t4 = b4 + t5;
    let t3 = b3 + t4;
    assert(le_bytes((max as nat / 256) as nat, 0) =~= Seq::<u8>::empty());
    assert(v.pdu_bytes().drop_first() + rest =~= seq![io.spec_tag()] + (seq![oob.spec_tag()] + t3));
    lemma_pairing_tags_read(r, io, oob, t3);
    let r3 = r.advance_bytes(1).advance_bytes(1);
    let r4 = r3.advance_bytes(1);
    let r5 = r4.advance_bytes(1);
    let r6 = r5.advance_bytes(1);
    let r7 = r6.advance_bytes(1);
    lemma_auth_req_whole_read(r3, auth, t4);
    crate::endian::lemma_pow256_values();
    crate::packer_laws::lemma_read_number(r4, max as nat, 1, t5);
    lemma_key_distribution_whole_read(r5, ikd, t6);
    lemma_key_distribution_whole_read(r6, rkd, rest);
    lemma_pairing_parameters_compose(r, r.advance_bytes(1), r3, r4, r5, r6, r7, v);
}

/// Writing an SMP PDU puts its bytes at the cursor.
#[verifier::rlimit(100)]
#[verifier::spinoff_prover]
proof fn lemma_smp_pdu_written(m: PacketModel, v: SmpPdu)
    requires
        m.wf(),
        v.to_packet_requires(m),
    ensures
        v.to_packet_spec(m) == m.pack_bytes_spec(v.pdu_bytes()),
{
    let code = seq![v.spec_code()];
    let rest = v.pdu_bytes().drop_first();
    assert(v.pdu_bytes() =~= code + rest);
    let m1 = m.pack_bytes_spec(code).0;
    lemma_pack_concat(m, code, rest);
    match v {
        SmpPdu::SmpPairingConfirmation { confirm_value } => {
            assert(rest =~= le_bytes(confirm_value as nat, 16));
        },
        SmpPdu::SmpPairingRandom { random_value } => {
            assert(rest =~= le_bytes(random_value as nat, 16));
        },
        _ => {
            let (io, oob, auth, max, ikd, rkd) = pairing_fields(v);
            assert(rest =~= pairing_parameter_bytes(io, oob, auth, max, ikd, rkd));
            lemma_pairing_parameters_written(m1, io, oob, auth, max, ikd, rkd);
        },
    }
}

/// An SMP PDU that reads back is read from its bytes.
#[verifier::rlimit(100)]
#[verifier::spinoff_prover]
proof fn lemma_smp_pdu_read(r: PacketModel, v: SmpPdu)
    requires
        v.reads_back(),
        holds_at(r, v.pdu_bytes()),
        r.bit_position == 0,
        r.position + 128 <= usize::MAX,
    ensures
        <SmpPdu as FromToPacket>::from_packet_spec(r).1 == Ok::<SmpPdu, PacketError>(v),
{
    let code = seq![v.spec_code()];
    let rest = v.pdu_bytes().drop_first();
    assert(v.pdu_bytes() =~= code + rest);
    assert(rest + Seq::<u8>::empty() =~= rest);
    let tags = smp_codes();
    assert(distinct_tags(tags));
    let r1 = r.advance_bytes(1);
    crate::endian::lemma_pow256_values();
    match v {
        SmpPdu::SmpPairingConfirmation { confirm_value } => {
            lemma_read_tag(r, tags, 0, rest);
            assert(rest =~= le_bytes(confirm_value as nat, 16) + Seq::<u8>::empty());
            crate::packer_laws::lemma_read_number(r1, confirm_value as nat, 16, Seq::empty());
        },
        SmpPdu::SmpPairingRandom { random_value } => {
            lemma_read_tag(r, tags, 1, rest);
            assert(rest =~= le_bytes(random_value as nat, 16) + Seq::<u8>::empty());
            crate::packer_laws::lemma_read_number(r1, random_value as nat, 16, Seq::empty());
        },
        SmpPdu::SmpPairingRequest { .. } => {
            lemma_read_tag(r, tags, 2, rest);
            lemma_pairing_parameters_read(r1, v, Seq::empty());
        },
        SmpPdu::SmpPairingResponse { .. } => {
            lemma_read_tag(r, tags, 3, rest);
            lemma_pairing_parameters_read(r1, v, Seq::empty());
        },
    }
}

/// Writing an SMP PDU into a packet and reading one back from the place it
/// was written at gives the same PDU, when the reserved bits of its flags
/// fit their fields.
#[verifier::rlimit(60)]
#[verifier::spinoff_prover]
pub proof fn law_smp_pdu_roundtrip(m: PacketModel, v: SmpPdu)
    requires
        m.wf(),
        v.to_packet_requires(m),
        v.reads_back(),
    ensures
        <SmpPdu as FromToPacket>::from_packet_spec(rewound_to(v.to_packet_spec(m).0, m.position)).1
            == Ok::<SmpPdu, PacketError>(v),
{
    lemma_smp_pdu_written(m, v);
    crate::packer_laws::lemma_holds_after_pack(m, v.pdu_bytes());
    lemma_smp_pdu_read(rewound_to(v.to_packet_spec(m).0, m.position), v);
}

} // verus!
