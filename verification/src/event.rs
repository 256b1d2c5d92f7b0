//! Typed HCI events: LE Connection Complete, Command Complete and Command
//! Status, with their wire encodings.
use vstd::prelude::*;
use crate::packets::{append, le16, le16_at};

verus! {

#[derive(Debug, Clone, PartialEq, Eq)]
pub enum HciEventMsg {
    LeConnectionComplete {
        status: HciStatus,
        connection_handle: u16,
        role: Role,
        peer_address_type: AddressType,
        peer_address: [u8; 6],
        connection_interval: u16,
        peripheral_latency: u16,
        supervision_timeout: u16,
        central_clock_accuracy: ClockAccuracy,
    },
    CommandComplete { num_hci_command_packets: u8, command_opcode: u16, return_parameters: Vec<u8> },
    CommandStatus { status: HciStatus, num_hci_command_packets: u8, command_opcode: u16 },
}

#[derive(Debug, Copy, Clone, PartialEq, Eq)]
pub enum HciStatus {
    Success,
    Error(u8),
}

#[derive(Debug, Copy, Clone, PartialEq, Eq)]
pub enum Role {
    Central,
    Peripheral,
}

#[derive(Debug, Copy, Clone, PartialEq, Eq)]
pub enum AddressType {
    Public,
    Random,
}

#[derive(Debug, Copy, Clone, PartialEq, Eq)]
pub enum ClockAccuracy {
    Ppm500,
    Ppm250,
    Ppm150,
    Ppm100,
    Ppm75,
    Ppm50,
    Ppm30,
    Ppm20,
}

#[derive(Debug, Clone, PartialEq, Eq)]
pub enum SerializationError {
    InternalError(&'static str),
    DataTooLarge(&'static str),
}

#[derive(Debug, Clone, PartialEq, Eq)]
pub enum ParseError {
    InsufficientData { expected: usize, actual: usize },
    InvalidEventCode(u8),
    InvalidLength { expected: u8, actual: u8 },
    InvalidSubeventCode(u8),
    InvalidValue { field: &'static str, value: u8 },
    SliceToArrayError,
}

// --- Constants ---
pub const HCI_EVENT_CODE_LE_META: u8 = 0x3E;

pub const HCI_EVENT_CODE_COMMAND_COMPLETE: u8 = 0x0E;

pub const HCI_EVENT_CODE_COMMAND_STATUS: u8 = 0x0F;

pub const HCI_SUBEVENT_CODE_LE_CONNECTION_COMPLETE: u8 = 0x01;

// --- Lengths ---
pub const LE_CONN_COMPLETE_PARAM_LEN: u8 = 19;

pub const LE_CONN_COMPLETE_TOTAL_LEN: usize = 21;

pub const COMMAND_COMPLETE_MIN_PARAM_LEN: u8 = 3;

pub const COMMAND_STATUS_PARAM_LEN: u8 = 4;

pub const COMMAND_STATUS_TOTAL_LEN: usize = 6;

/// The message text of the error for return parameters that do not fit the
/// one-byte length field.
pub const RETURN_PARAMETERS_TOO_LARGE: &'static str =
    "CommandComplete return parameters too large for HCI length field";

// --- Abstract value ---

/// An HCI event with its byte arrays by value.
pub enum HciEventView {
    LeConnectionComplete {
        status: HciStatus,
        connection_handle: u16,
        role: Role,
        peer_address_type: AddressType,
        peer_address: Seq<u8>,
        connection_interval: u16,
        peripheral_latency: u16,
        supervision_timeout: u16,
        central_clock_accuracy: ClockAccuracy,
    },
    CommandComplete { num_hci_command_packets: u8, command_opcode: u16, return_parameters: Seq<u8> },
    CommandStatus { status: HciStatus, num_hci_command_packets: u8, command_opcode: u16 },
}

impl View for HciEventMsg {
    type V = HciEventView;

    open spec fn view(&self) -> HciEventView {
        match self {
            HciEventMsg::LeConnectionComplete {
                status,
                connection_handle,
                role,
                peer_address_type,
                peer_address,
                connection_interval,
                peripheral_latency,
                supervision_timeout,
                central_clock_accuracy,
            } => HciEventView::LeConnectionComplete {
                status: *status,
                connection_handle: *connection_handle,
                role: *role,
                peer_address_type: *peer_address_type,
                peer_address: peer_address@,
                connection_interval: *connection_interval,
                peripheral_latency: *peripheral_latency,
                supervision_timeout: *supervision_timeout,
                central_clock_accuracy: *central_clock_accuracy,
            },
            HciEventMsg::CommandComplete {
                num_hci_command_packets,
                command_opcode,
                return_parameters,
            } => HciEventView::CommandComplete {
                num_hci_command_packets: *num_hci_command_packets,
                command_opcode: *command_opcode,
                return_parameters: return_parameters@,
            },
            HciEventMsg::CommandStatus { status, num_hci_command_packets, command_opcode } =>
                HciEventView::CommandStatus {
                status: *status,
                num_hci_command_packets: *num_hci_command_packets,
                command_opcode: *command_opcode,
            },
        }
    }
}

// --- Codes of the small enums ---

impl HciStatus {
    /// `0x00` is success, any other byte an error code.
    pub open spec fn spec_from_u8(val: u8) -> HciStatus {
        if val == 0 {
            HciStatus::Success
        } else {
            HciStatus::Error(val)
        }
    }

    pub open spec fn spec_into_u8(self) -> u8 {
        match self {
            HciStatus::Success => 0x00,
            HciStatus::Error(err) => err,
        }
    }

    /// Not an `Error` that carries the success code.
    pub open spec fn is_canonical(self) -> bool {
        self != HciStatus::Error(0)
    }

    pub fn into_u8(self) -> (r: u8)
        ensures
            r == self.spec_into_u8(),
    {
        match self {
            HciStatus::Success => 0x00,
            HciStatus::Error(err) => err,
        }
    }
}

impl From<u8> for HciStatus {
    fn from(val: u8) -> (r: Self) {
        match val {
            0x00 => HciStatus::Success,
            err => HciStatus::Error(err),
        }
    }
}

impl vstd::std_specs::convert::FromSpecImpl<u8> for HciStatus {
    open spec fn obeys_from_spec() -> bool {
        true
    }

    open spec fn from_spec(v: u8) -> HciStatus {
        HciStatus::spec_from_u8(v)
    }
}

impl Role {
    pub open spec fn spec_code(self) -> u8 {
        match self {
            Role::Central => 0x00,
            Role::Peripheral => 0x01,
        }
    }

    pub open spec fn spec_try_from(val: u8) -> Result<Role, ParseError> {
        if val == 0x00 {
            Ok(Role::Central)
        } else if val == 0x01 {
            Ok(Role::Peripheral)
        } else {
            Err(ParseError::InvalidValue { field: "Role", value: val })
        }
    }

    /// The byte that stands for this role on the wire.
    pub fn code(self) -> (r: u8)
        ensures
            r == self.spec_code(),
    {
        match self {
            Role::Central => 0x00,
            Role::Peripheral => 0x01,
        }
    }
}

impl TryFrom<u8> for Role {
    type Error = ParseError;

    fn try_from(val: u8) -> (r: Result<Self, Self::Error>) {
        match val {
            0x00 => Ok(Role::Central),
            0x01 => Ok(Role::Peripheral),
            _ => Err(ParseError::InvalidValue { field: "Role", value: val }),
        }
    }
}

impl vstd::std_specs::convert::TryFromSpecImpl<u8> for Role {
    open spec fn obeys_try_from_spec() -> bool {
        true
    }

    open spec fn try_from_spec(v: u8) -> Result<Self, Self::Error> {
        Role::spec_try_from(v)
    }
}

impl AddressType {
    pub open spec fn spec_code(self) -> u8 {
        match self {
            AddressType::Public => 0x00,
            AddressType::Random => 0x01,
        }
    }

    pub open spec fn spec_try_from(val: u8) -> Result<AddressType, ParseError> {
        if val == 0x00 {
            Ok(AddressType::Public)
        } else if val == 0x01 {
            Ok(AddressType::Random)
        } else {
            Err(ParseError::InvalidValue { field: "AddressType", value: val })
        }
    }

    /// The byte that stands for this address type on the wire.
    pub fn code(self) -> (r: u8)
        ensures
            r == self.spec_code(),
    {
        match self {
            AddressType::Public => 0x00,
            AddressType::Random => 0x01,
        }
    }
}

impl TryFrom<u8> for AddressType {
    type Error = ParseError;

    fn try_from(val: u8) -> (r: Result<Self, Self::Error>) {
        match val {
            0x00 => Ok(AddressType::Public),
            0x01 => Ok(AddressType::Random),
            _ => Err(ParseError::InvalidValue { field: "AddressType", value: val }),
        }
    }
}

impl vstd::std_specs::convert::TryFromSpecImpl<u8> for AddressType {
    open spec fn obeys_try_from_spec() -> bool {
        true
    }

    open spec fn try_from_spec(v: u8) -> Result<Self, Self::Error> {
        AddressType::spec_try_from(v)
    }
}

impl ClockAccuracy {
    /// The worst-case clock accuracy that the variant names, in parts per
    /// million.
    pub open spec fn ppm(self) -> nat {
        match self {
            ClockAccuracy::Ppm500 => 500,
            ClockAccuracy::Ppm250 => 250,
            ClockAccuracy::Ppm150 => 150,
            ClockAccuracy::Ppm100 => 100,
            ClockAccuracy::Ppm75 => 75,
            ClockAccuracy::Ppm50 => 50,
            ClockAccuracy::Ppm30 => 30,
            ClockAccuracy::Ppm20 => 20,
        }
    }

    pub open spec fn spec_code(self) -> u8 {
        match self {
            ClockAccuracy::Ppm500 => 0x00,
            ClockAccuracy::Ppm250 => 0x01,
            ClockAccuracy::Ppm150 => 0x02,
            ClockAccuracy::Ppm100 => 0x03,
            ClockAccuracy::Ppm75 => 0x04,
            ClockAccuracy::Ppm50 => 0x05,
            ClockAccuracy::Ppm30 => 0x06,
            ClockAccuracy::Ppm20 => 0x07,
        }
    }

    pub open spec fn spec_try_from(val: u8) -> Result<ClockAccuracy, ParseError> {
        if val == 0x00 {
            Ok(ClockAccuracy::Ppm500)
        } else if val == 0x01 {
            Ok(ClockAccuracy::Ppm250)
        } else if val == 0x02 {
            Ok(ClockAccuracy::Ppm150)
        } else if val == 0x03 {
            Ok(ClockAccuracy::Ppm100)
        } else if val == 0x04 {
            Ok(ClockAccuracy::Ppm75)
        } else if val == 0x05 {
            Ok(ClockAccuracy::Ppm50)
        } else if val == 0x06 {
            Ok(ClockAccuracy::Ppm30)
        } else if val == 0x07 {
            Ok(ClockAccuracy::Ppm20)
        } else {
            Err(ParseError::InvalidValue { field: "ClockAccuracy", value: val })
        }
    }

    /// The byte that stands for this clock accuracy on the wire.
    pub fn code(self) -> (r: u8)
        ensures
            r == self.spec_code(),
    {
        match self {
            ClockAccuracy::Ppm500 => 0x00,
            ClockAccuracy::Ppm250 => 0x01,
            ClockAccuracy::Ppm150 => 0x02,
            ClockAccuracy::Ppm100 => 0x03,
            ClockAccuracy::Ppm75 => 0x04,
            ClockAccuracy::Ppm50 => 0x05,
            ClockAccuracy::Ppm30 => 0x06,
            ClockAccuracy::Ppm20 => 0x07,
        }
    }
}

impl TryFrom<u8> for ClockAccuracy {
    type Error = ParseError;

    fn try_from(val: u8) -> (r: Result<Self, Self::Error>) {
        match val {
            0x00 => Ok(ClockAccuracy::Ppm500),
            0x01 => Ok(ClockAccuracy::Ppm250),
            0x02 => Ok(ClockAccuracy::Ppm150),
            0x03 => Ok(ClockAccuracy::Ppm100),
            0x04 => Ok(ClockAccuracy::Ppm75),
            0x05 => Ok(ClockAccuracy::Ppm50),
            0x06 => Ok(ClockAccuracy::Ppm30),
            0x07 => Ok(ClockAccuracy::Ppm20),
            _ => Err(ParseError::InvalidValue { field: "ClockAccuracy", value: val }),
        }
    }
}

impl vstd::std_specs::convert::TryFromSpecImpl<u8> for ClockAccuracy {
    open spec fn obeys_try_from_spec() -> bool {
        true
    }

    open spec fn try_from_spec(v: u8) -> Result<Self, Self::Error> {
        ClockAccuracy::spec_try_from(v)
    }
}

// --- Wire format ---

/// The bytes of an event: event code, parameter length, parameters.
pub open spec fn event_bytes(m: HciEventView) -> Seq<u8> {
    match m {
        HciEventView::LeConnectionComplete {
            status,
            connection_handle,
            role,
            peer_address_type,
            peer_address,
            connection_interval,
            peripheral_latency,
            supervision_timeout,
            central_clock_accuracy,
        } => seq![
            HCI_EVENT_CODE_LE_META,
            LE_CONN_COMPLETE_PARAM_LEN,
            HCI_SUBEVENT_CODE_LE_CONNECTION_COMPLETE,
            status.spec_into_u8(),
        ] + le16(connection_handle) + seq![role.spec_code(), peer_address_type.spec_code()]
            + peer_address + le16(connection_interval) + le16(peripheral_latency) + le16(
            supervision_timeout,
        ) + seq![central_clock_accuracy.spec_code()],
        HciEventView::CommandComplete {
            num_hci_command_packets,
            command_opcode,
            return_parameters,
        } => seq![
            HCI_EVENT_CODE_COMMAND_COMPLETE,
            (3 + return_parameters.len()) as u8,
            num_hci_command_packets,
        ] + le16(command_opcode) + return_parameters,
        HciEventView::CommandStatus { status, num_hci_command_packets, command_opcode } => seq![
            HCI_EVENT_CODE_COMMAND_STATUS,
            COMMAND_STATUS_PARAM_LEN,
            status.spec_into_u8(),
            num_hci_command_packets,
        ] + le16(command_opcode),
    }
}

/// Whether the parameters of `m` fit the one-byte length field.
pub open spec fn fits_length_field(m: HciEventView) -> bool {
    match m {
        HciEventView::CommandComplete { return_parameters, .. } => 3 + return_parameters.len()
            <= 255,
        _ => true,
    }
}

/// What `HciEventMsg::from_bytes` makes of `b`.
pub open spec fn parse_event_msg(b: Seq<u8>) -> Result<HciEventView, ParseError> {
    if b.len() < 2 {
        Err(ParseError::InsufficientData { expected: 2, actual: b.len() as usize })
    } else if b.len() < 2 + b[1] {
        Err(ParseError::InsufficientData { expected: (2 + b[1]) as usize, actual: b.len() as usize })
    } else if b[0] == HCI_EVENT_CODE_LE_META {
        if b[1] < 1 {
            Err(ParseError::InvalidLength { expected: 1, actual: b[1] })
        } else if b[2] != HCI_SUBEVENT_CODE_LE_CONNECTION_COMPLETE {
            Err(ParseError::InvalidSubeventCode(b[2]))
        } else if b[1] != LE_CONN_COMPLETE_PARAM_LEN {
            Err(ParseError::InvalidLength { expected: LE_CONN_COMPLETE_PARAM_LEN, actual: b[1] })
        } else if Role::spec_try_from(b[6]) is Err {
            Err(Role::spec_try_from(b[6])->Err_0)
        } else if AddressType::spec_try_from(b[7]) is Err {
            Err(AddressType::spec_try_from(b[7])->Err_0)
        } else if ClockAccuracy::spec_try_from(b[20]) is Err {
            Err(ClockAccuracy::spec_try_from(b[20])->Err_0)
        } else {
            Ok(
                HciEventView::LeConnectionComplete {
                    status: HciStatus::spec_from_u8(b[3]),
                    connection_handle: le16_at(b, 4),
                    role: Role::spec_try_from(b[6])->Ok_0,
                    peer_address_type: AddressType::spec_try_from(b[7])->Ok_0,
                    peer_address: b.subrange(8, 14),
                    connection_interval: le16_at(b, 14),
                    peripheral_latency: le16_at(b, 16),
                    supervision_timeout: le16_at(b, 18),
                    central_clock_accuracy: ClockAccuracy::spec_try_from(b[20])->Ok_0,
                },
            )
        }
    } else if b[0] == HCI_EVENT_CODE_COMMAND_COMPLETE {
        if b[1] < COMMAND_COMPLETE_MIN_PARAM_LEN {
            Err(ParseError::InvalidLength { expected: COMMAND_COMPLETE_MIN_PARAM_LEN, actual: b[1] })
        } else {
            Ok(
                HciEventView::CommandComplete {
                    num_hci_command_packets: b[2],
                    command_opcode: le16_at(b, 3),
                    return_parameters: b.subrange(5, 2 + b[1]),
                },
            )
        }
    } else if b[0] == HCI_EVENT_CODE_COMMAND_STATUS {
        if b[1] != COMMAND_STATUS_PARAM_LEN {
            Err(ParseError::InvalidLength { expected: COMMAND_STATUS_PARAM_LEN, actual: b[1] })
        } else {
            Ok(
                HciEventView::CommandStatus {
                    status: HciStatus::spec_from_u8(b[2]),
                    num_hci_command_packets: b[3],
                    command_opcode: le16_at(b, 4),
                },
            )
        }
    } else {
        Err(ParseError::InvalidEventCode(b[0]))
    }
}

/// A parse result with the event replaced by its view.
pub open spec fn parsed_event(r: Result<HciEventMsg, ParseError>) -> Result<HciEventView, ParseError> {
    match r {
        Ok(m) => Ok(m@),
        Err(e) => Err(e),
    }
}

/// The little-endian `u16` at `bytes[i..i + 2]`.
fn read_le16(bytes: &[u8], i: usize) -> (r: u16)
    requires
        i + 2 <= bytes@.len(),
    ensures
        r == le16_at(bytes@, i as int),
{
    bytes[i] as u16 + 256 * (bytes[i + 1] as u16)
}

/// Appends the two little-endian bytes of `v`.
fn push_le16(bytes: &mut Vec<u8>, v: u16)
    ensures
        final(bytes)@ == old(bytes)@ + le16(v),
{
    bytes.push((v % 256) as u8);
    bytes.push((v / 256) as u8);
    assert(bytes@ =~= old(bytes)@ + le16(v));
}

impl HciEventMsg {
    /// Whether `to_bytes` succeeds on this event.
    pub open spec fn serializable(&self) -> bool {
        fits_length_field(self@)
    }

    pub fn to_bytes(&self) -> (r: Result<Vec<u8>, SerializationError>)
        ensures
            self.serializable() ==> r is Ok && r->Ok_0@ == event_bytes(self@),
            !self.serializable() ==> r == Err::<Vec<u8>, SerializationError>(
                SerializationError::DataTooLarge(RETURN_PARAMETERS_TOO_LARGE),
            ),
    {
        match self {
            HciEventMsg::LeConnectionComplete {
                status,
                connection_handle,
                role,
                peer_address_type,
                peer_address,
                connection_interval,
                peripheral_latency,
                supervision_timeout,
                central_clock_accuracy,
            } => {
                let mut bytes = Vec::with_capacity(LE_CONN_COMPLETE_TOTAL_LEN);
                bytes.push(HCI_EVENT_CODE_LE_META);
                bytes.push(LE_CONN_COMPLETE_PARAM_LEN);
                bytes.push(HCI_SUBEVENT_CODE_LE_CONNECTION_COMPLETE);
                bytes.push(status.into_u8());
                push_le16(&mut bytes, *connection_handle);
                bytes.push(role.code());
                bytes.push(peer_address_type.code());
                append(&mut bytes, peer_address);
                push_le16(&mut bytes, *connection_interval);
                push_le16(&mut bytes, *peripheral_latency);
                push_le16(&mut bytes, *supervision_timeout);
                bytes.push(central_clock_accuracy.code());
                assert(bytes@ =~= event_bytes(self@));
                Ok(bytes)
            },
            HciEventMsg::CommandComplete {
                num_hci_command_packets,
                command_opcode,
                return_parameters,
            } => {
                let return_params_len = return_parameters.len();
                if return_params_len > 252 {
                    return Err(SerializationError::DataTooLarge(RETURN_PARAMETERS_TOO_LARGE));
                }
                let param_len_usize = 1usize + 2usize + return_params_len;
                let param_len = param_len_usize as u8;
                let total_len = 2 + param_len_usize;
                let mut bytes = Vec::with_capacity(total_len);
                bytes.push(HCI_EVENT_CODE_COMMAND_COMPLETE);
                bytes.push(param_len);
                bytes.push(*num_hci_command_packets);
                push_le16(&mut bytes, *command_opcode);
                append(&mut bytes, return_parameters.as_slice());
                assert(bytes@ =~= event_bytes(self@));
                Ok(bytes)
            },
            HciEventMsg::CommandStatus { status, num_hci_command_packets, command_opcode } => {
                let mut bytes = Vec::with_capacity(COMMAND_STATUS_TOTAL_LEN);
                bytes.push(HCI_EVENT_CODE_COMMAND_STATUS);
                bytes.push(COMMAND_STATUS_PARAM_LEN);
                bytes.push(status.into_u8());
                bytes.push(*num_hci_command_packets);
                push_le16(&mut bytes, *command_opcode);
                assert(bytes@ =~= event_bytes(self@));
                Ok(bytes)
            },
        }
    }

    pub fn from_bytes(bytes: &[u8]) -> (r: Result<Self, ParseError>)
        ensures
            parsed_event(r) == parse_event_msg(bytes@),
    {
        // 1. Check minimum length for *any* HCI event header
        if bytes.len() < 2 {
            return Err(ParseError::InsufficientData { expected: 2, actual: bytes.len() });
        }
        // 2. Read header fields
        let event_code = bytes[0];
        let param_len = bytes[1];
        let expected_total_len = 2 + param_len as usize;
        // 3. Check overall length based on header
        if bytes.len() < expected_total_len {
            return Err(
                ParseError::InsufficientData { expected: expected_total_len, actual: bytes.len() },
            );
        }
        // 4. Dispatch based on Event Code
        if event_code == HCI_EVENT_CODE_LE_META {
            if param_len < 1 {
                return Err(ParseError::InvalidLength { expected: 1, actual: param_len });
            }
            let subevent_code = bytes[2];
            if subevent_code != HCI_SUBEVENT_CODE_LE_CONNECTION_COMPLETE {
                return Err(ParseError::InvalidSubeventCode(subevent_code));
            }
            if param_len != LE_CONN_COMPLETE_PARAM_LEN {
                return Err(
                    ParseError::InvalidLength { expected: LE_CONN_COMPLETE_PARAM_LEN, actual: param_len },
                );
            }
            if bytes.len() < LE_CONN_COMPLETE_TOTAL_LEN {
                return Err(
                    ParseError::InsufficientData {
                        expected: LE_CONN_COMPLETE_TOTAL_LEN,
                        actual: bytes.len(),
                    },
                );
            }
            // Parse parameters (offset 3: after Event, Len, Subevent)
            let status = HciStatus::from(bytes[3]);
            let connection_handle = read_le16(bytes, 4);
            let role = match Role::try_from(bytes[6]) {
                Ok(role) => role,
                Err(e) => return Err(e),
            };
            let peer_address_type = match AddressType::try_from(bytes[7]) {
                Ok(t) => t,
                Err(e) => return Err(e),
            };
            let peer_address: [u8; 6] = [
                bytes[8],
                bytes[9],
                bytes[10],
                bytes[11],
                bytes[12],
                bytes[13],
            ];
            let connection_interval = read_le16(bytes, 14);
            let peripheral_latency = read_le16(bytes, 16);
            let supervision_timeout = read_le16(bytes, 18);
            let central_clock_accuracy = match ClockAccuracy::try_from(bytes[20]) {
                Ok(c) => c,
                Err(e) => return Err(e),
            };
            assert(peer_address@ =~= bytes@.subrange(8, 14));
            Ok(
                HciEventMsg::LeConnectionComplete {
                    status,
                    connection_handle,
                    role,
                    peer_address_type,
                    peer_address,
                    connection_interval,
                    peripheral_latency,
                    supervision_timeout,
                    central_clock_accuracy,
                },
            )
        } else if event_code == HCI_EVENT_CODE_COMMAND_COMPLETE {
            if param_len < COMMAND_COMPLETE_MIN_PARAM_LEN {
                return Err(
                    ParseError::InvalidLength { expected: COMMAND_COMPLETE_MIN_PARAM_LEN, actual: param_len },
                );
            }
            let num_hci_command_packets = bytes[2];
            let command_opcode = read_le16(bytes, 3);
            let return_parameters = vstd::slice::slice_to_vec(
                vstd::slice::slice_subrange(bytes, 5, expected_total_len),
            );
            Ok(HciEventMsg::CommandComplete { num_hci_command_packets, command_opcode, return_parameters })
        } else if event_code == HCI_EVENT_CODE_COMMAND_STATUS {
            if param_len != COMMAND_STATUS_PARAM_LEN {
                return Err(
                    ParseError::InvalidLength { expected: COMMAND_STATUS_PARAM_LEN, actual: param_len },
                );
            }
            if bytes.len() < COMMAND_STATUS_TOTAL_LEN {
                return Err(
                    ParseError::InsufficientData { expected: COMMAND_STATUS_TOTAL_LEN, actual: bytes.len() },
                );
            }
            let status = HciStatus::from(bytes[2]);
            let num_hci_command_packets = bytes[3];
            let command_opcode = read_le16(bytes, 4);
            Ok(HciEventMsg::CommandStatus { status, num_hci_command_packets, command_opcode })
        } else {
            Err(ParseError::InvalidEventCode(event_code))
        }
    }
}

// --- Laws ---

/// Whether every field of `m` reads back as itself: the status is not an
/// error carrying the success code, the address has six bytes and the
/// parameters fit the length field.
pub open spec fn event_canonical(m: HciEventView) -> bool {
    match m {
        HciEventView::LeConnectionComplete { status, peer_address, .. } => status.is_canonical()
            && peer_address.len() == 6,
        HciEventView::CommandComplete { .. } => fits_length_field(m),
        HciEventView::CommandStatus { status, .. } => status.is_canonical(),
    }
}

proof fn lemma_le16_bytes(v: u16)
    ensures
        le16(v).len() == 2,
        le16(v)[0] + 256 * le16(v)[1] == v,
{
}

proof fn lemma_le16_of(b: Seq<u8>, i: int)
    requires
        0 <= i,
        i + 2 <= b.len(),
    ensures
        le16(le16_at(b, i)) == b.subrange(i, i + 2),
{
    assert(le16(le16_at(b, i)) =~= b.subrange(i, i + 2));
}

/// Reading back the bytes of an event gives the event, whatever follows it.
pub proof fn law_event_roundtrip(m: HciEventView, rest: Seq<u8>)
    requires
        event_canonical(m),
    ensures
        parse_event_msg(event_bytes(m) + rest) == Ok::<HciEventView, ParseError>(m),
{
    let b = event_bytes(m) + rest;
    match m {
        HciEventView::LeConnectionComplete {
            status,
            connection_handle,
            role,
            peer_address_type,
            peer_address,
            connection_interval,
            peripheral_latency,
            supervision_timeout,
            central_clock_accuracy,
        } => {
            lemma_le16_bytes(connection_handle);
            lemma_le16_bytes(connection_interval);
            lemma_le16_bytes(peripheral_latency);
            lemma_le16_bytes(supervision_timeout);
            assert(b[4] == le16(connection_handle)[0] && b[5] == le16(connection_handle)[1]);
            assert(b[14] == le16(connection_interval)[0] && b[15] == le16(connection_interval)[1]);
            assert(b[16] == le16(peripheral_latency)[0] && b[17] == le16(peripheral_latency)[1]);
            assert(b[18] == le16(supervision_timeout)[0] && b[19] == le16(supervision_timeout)[1]);
            assert(b.subrange(8, 14) =~= peer_address);
            assert(b[6] == role.spec_code());
            assert(b[7] == peer_address_type.spec_code());
            assert(b[20] == central_clock_accuracy.spec_code());
            assert(b[3] == status.spec_into_u8());
        },
        HciEventView::CommandComplete {
            num_hci_command_packets,
            command_opcode,
            return_parameters,
        } => {
            lemma_le16_bytes(command_opcode);
            assert(b[3] == le16(command_opcode)[0] && b[4] == le16(command_opcode)[1]);
            assert(b.subrange(5, 5 + return_parameters.len() as int) =~= return_parameters);
        },
        HciEventView::CommandStatus { status, num_hci_command_packets, command_opcode } => {
            lemma_le16_bytes(command_opcode);
            assert(b[4] == le16(command_opcode)[0] && b[5] == le16(command_opcode)[1]);
            assert(b[2] == status.spec_into_u8());
        },
    }
}

/// An event that was read from `b` writes back as the bytes it was read
/// from: the header and the parameters its length field announces.
pub proof fn law_event_reencode(b: Seq<u8>)
    requires
        parse_event_msg(b) is Ok,
    ensures
        event_bytes(parse_event_msg(b)->Ok_0) == b.subrange(0, 2 + b[1]),
        event_canonical(parse_event_msg(b)->Ok_0),
{
    let m = parse_event_msg(b)->Ok_0;
    if b[0] == HCI_EVENT_CODE_LE_META {
        lemma_le16_of(b, 4);
        lemma_le16_of(b, 14);
        lemma_le16_of(b, 16);
        lemma_le16_of(b, 18);
        assert(event_bytes(m) =~= b.subrange(0, 2 + b[1]));
    } else if b[0] == HCI_EVENT_CODE_COMMAND_COMPLETE {
        lemma_le16_of(b, 3);
        assert(event_bytes(m) =~= b.subrange(0, 2 + b[1]));
    } else {
        lemma_le16_of(b, 4);
        assert(event_bytes(m) =~= b.subrange(0, 2 + b[1]));
    }
}


/// The framing of an event: the first byte is the event code (0x3E LE
/// meta, with subevent 0x01 for a connection complete; 0x0E command
/// complete; 0x0F command status) and the second counts the parameter bytes
/// that follow the two header bytes. A connection complete is 21 bytes with
/// the role at byte 6, the peer address type at byte 7 and the central clock
/// accuracy last; a command status is 6 bytes.
pub proof fn law_event_header(m: HciEventView)
    requires
        event_canonical(m),
    ensures
        event_bytes(m).len() >= 2,
        event_bytes(m)[1] == event_bytes(m).len() - 2,
        m is LeConnectionComplete ==> {
            &&& event_bytes(m)[0] == 0x3E
            &&& event_bytes(m)[2] == 0x01
            &&& event_bytes(m).len() == 21
            &&& event_bytes(m)[6] == m->role.spec_code()
            &&& event_bytes(m)[7] == m->peer_address_type.spec_code()
            &&& event_bytes(m)[20] == m->central_clock_accuracy.spec_code()
        },
        m is CommandComplete ==> event_bytes(m)[0] == 0x0E,
        m is CommandStatus ==> event_bytes(m)[0] == 0x0F && event_bytes(m).len() == 6,
{
    match m {
        HciEventView::LeConnectionComplete { connection_handle, connection_interval, peripheral_latency, supervision_timeout, .. } => {
            lemma_le16_bytes(connection_handle);
            lemma_le16_bytes(connection_interval);
            lemma_le16_bytes(peripheral_latency);
            lemma_le16_bytes(supervision_timeout);
        },
        HciEventView::CommandComplete { command_opcode, .. } => {
            lemma_le16_bytes(command_opcode);
        },
        HciEventView::CommandStatus { command_opcode, .. } => {
            lemma_le16_bytes(command_opcode);
        },
    }
}

// --- The assigned numbers of the event fields ---

/// The central clock accuracies in the order of their codes, in parts per
/// million.
pub open spec fn clock_accuracy_table() -> Seq<nat> {
    seq![500nat, 250, 150, 100, 75, 50, 30, 20]
}

/// Clock accuracy byte `k` (0 to 7) stands for the `k`-th accuracy of the
/// table 500, 250, 150, 100, 75, 50, 30, 20 ppm, and every accuracy is
/// written as its place in that table; any other byte is refused.
pub proof fn law_clock_accuracy_codes(k: u8, a: ClockAccuracy)
    ensures
        (ClockAccuracy::spec_try_from(k) is Ok) == (k < 8),
        k < 8 ==> ClockAccuracy::spec_try_from(k)->Ok_0.ppm() == clock_accuracy_table()[k as int],
        a.spec_code() < 8,
        clock_accuracy_table()[a.spec_code() as int] == a.ppm(),
{
}

/// Role byte 0x00 is central and 0x01 peripheral; address type byte 0x00
/// is public and 0x01 random; other bytes are refused. Status byte 0x00 is
/// success and any other byte is that error code.
pub proof fn law_event_field_codes(v: u8)
    ensures
        Role::spec_try_from(0x00) == Ok::<Role, ParseError>(Role::Central),
        Role::spec_try_from(0x01) == Ok::<Role, ParseError>(Role::Peripheral),
        v > 0x01 ==> Role::spec_try_from(v) is Err,
        Role::Central.spec_code() == 0x00 && Role::Peripheral.spec_code() == 0x01,
        AddressType::spec_try_from(0x00) == Ok::<AddressType, ParseError>(AddressType::Public),
        AddressType::spec_try_from(0x01) == Ok::<AddressType, ParseError>(AddressType::Random),
        v > 0x01 ==> AddressType::spec_try_from(v) is Err,
        AddressType::Public.spec_code() == 0x00 && AddressType::Random.spec_code() == 0x01,
        HciStatus::spec_from_u8(0x00) == HciStatus::Success,
        v != 0 ==> HciStatus::spec_from_u8(v) == HciStatus::Error(v),
        HciStatus::Success.spec_into_u8() == 0x00,
        HciStatus::Error(v).spec_into_u8() == v,
{
}

} // verus!
