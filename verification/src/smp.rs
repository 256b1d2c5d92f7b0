//! Security Manager Protocol messages and their byte encodings.

use vstd::prelude::*;
use crate::endian::{le_bytes, le_value, u128_to_le, le_to_u128, lemma_le_bytes_len, lemma_le_value_bound, lemma_pow256_values};
use crate::packets::SmpPdu;

verus! {

pub struct ParseError(String);

pub struct SerializationError(String);

#[derive(Debug, Clone, PartialEq, Eq)]
pub enum SmpMsg {
    /// Pairing Request
    PairingRequest {
        io_capability: IOCapability,
        oob_data_flag: OOBDataFlag,
        authentication_requirements: AuthenticationRequirements,
        max_encryption_key_size: u8,
        initiator_key_distribution: KeyDistributionFlags,
        responder_key_distribution: KeyDistributionFlags,
    },
    PairingResponse {
        io_capability: IOCapability,
        oob_data_flag: OOBDataFlag,
        authentication_requirements: AuthenticationRequirements,
        max_encryption_key_size: u8,
        initiator_key_distribution: KeyDistributionFlags,
        responder_key_distribution: KeyDistributionFlags,
    },
    PairingConfirm(u128),
    PairingRandom(u128),
    PairingFailed(SmpPairingFailure),
    EncryptionInformation(u128),
    CentralIdentification { encrypted_diversifier: u8, random_value: u64 },
    Unknown(u8, Vec<u8>),
}

#[derive(Debug, Clone, Copy, PartialEq, Eq, Default)]
pub struct KeyDistributionFlags {
    pub enc_key: bool,
    pub id_key: bool,
    pub sign_key: bool,
    pub link_key: bool,
    pub reserved: (bool, bool, bool, bool),
}

#[derive(Debug, Clone, Copy, PartialEq, Eq, Default)]
pub struct AuthenticationRequirements {
    pub bonding: bool,
    pub mitm_protection: bool,
    pub secure_connections: bool,
    pub keypress_notification: bool,
    pub ct2: bool,
    pub reserved: (bool, bool),
}

#[derive(Debug, Clone, PartialEq, Eq)]
pub enum IOCapability {
    DisplayOnly,
    DisplayYesNo,
    KeyboardOnly,
    NoInputNoOutput,
    KeyboardDisplay,
    Reserved(u8),
}

#[derive(Debug, Clone, PartialEq, Eq)]
pub enum OOBDataFlag {
    OobNotAvailable,
    OobAvailable,
    Reserved(u8),
}

/// SMP Pairing failures
#[derive(Debug, Clone, PartialEq, Eq)]
pub enum SmpPairingFailure {
    PasskeyEntryFailed,
    OobNotAvailable,
    AuthenticationRequirements,
    ConfirmValueFailed,
    PairingNotSupported,
    EncryptionKeySize,
    CommandNotSupported,
    UnspecifiedReason,
    RepeatedAttempts,
    InvalidParameters,
    DhKeyCheckFailed,
    NumericComparisonFailed,
    BrEdrPairingInProgress,
    CrossTransportKeyDerivationGenerationNotAllowed,
    KeyRejected,
    Busy,
    Reserved(u8),
}

// -- Serialization and Deserialization ---------------------------------------

impl SmpMsg {
    /// The SMP code of the message.
    pub open spec fn spec_opcode(&self) -> u8 {
        match self {
            SmpMsg::PairingRequest { .. } => 0x01,
            SmpMsg::PairingResponse { .. } => 0x02,
            SmpMsg::PairingConfirm(_) => 0x03,
            SmpMsg::PairingRandom(_) => 0x04,
            SmpMsg::PairingFailed(_) => 0x05,
            SmpMsg::EncryptionInformation(_) => 0x06,
            SmpMsg::CentralIdentification { .. } => 0x07,
            SmpMsg::Unknown(code, _) => *code,
        }
    }

    /// The parameter bytes of the message.
    pub open spec fn spec_payload(&self) -> Seq<u8> {
        match self {
            SmpMsg::PairingRequest {
                io_capability,
                oob_data_flag,
                authentication_requirements,
                max_encryption_key_size,
                initiator_key_distribution,
                responder_key_distribution,
            } => seq![
                io_capability.spec_to_code(),
                oob_data_flag.spec_to_code(),
                authentication_requirements.spec_to_byte(),
                *max_encryption_key_size,
                initiator_key_distribution.spec_to_byte(),
                responder_key_distribution.spec_to_byte(),
            ],
            SmpMsg::PairingResponse {
                io_capability,
                oob_data_flag,
                authentication_requirements,
                max_encryption_key_size,
                initiator_key_distribution,
                responder_key_distribution,
            } => seq![
                io_capability.spec_to_code(),
                oob_data_flag.spec_to_code(),
                authentication_requirements.spec_to_byte(),
                *max_encryption_key_size,
                initiator_key_distribution.spec_to_byte(),
                responder_key_distribution.spec_to_byte(),
            ],
            SmpMsg::PairingConfirm(confirm) => le_bytes(*confirm as nat, 16),
            SmpMsg::PairingRandom(random) => le_bytes(*random as nat, 16),
            SmpMsg::PairingFailed(reason) => seq![reason.spec_to_code()],
            SmpMsg::EncryptionInformation(info) => le_bytes(*info as nat, 16),
            SmpMsg::CentralIdentification { encrypted_diversifier, random_value } => seq![
                *encrypted_diversifier,
            ] + le_bytes(*random_value as nat, 8),
            SmpMsg::Unknown(_, data) => data@,
        }
    }

    /// `from_smp_pdu` can read parameters of this length for this code.
    pub open spec fn decodable(code: u8, data: Seq<u8>) -> bool {
        if code == 0x01 || code == 0x02 {
            data.len() >= 6
        } else if code == 0x03 || code == 0x04 || code == 0x06 {
            data.len() == 16
        } else if code == 0x05 {
            data.len() >= 1
        } else if code == 0x07 {
            data.len() >= 9
        } else {
            true
        }
    }

    /// The message with a known code (0x01 to 0x07) and these parameters.
    pub open spec fn spec_decode(code: u8, d: Seq<u8>) -> SmpMsg {
        if code == 0x01 {
            SmpMsg::PairingRequest {
                io_capability: IOCapability::spec_from_code(d[0]),
                oob_data_flag: OOBDataFlag::spec_from_code(d[1]),
                authentication_requirements: AuthenticationRequirements::spec_from_byte(d[2]),
                max_encryption_key_size: d[3],
                initiator_key_distribution: KeyDistributionFlags::spec_from_byte(d[4]),
                responder_key_distribution: KeyDistributionFlags::spec_from_byte(d[5]),
            }
        } else if code == 0x02 {
            SmpMsg::PairingResponse {
                io_capability: IOCapability::spec_from_code(d[0]),
                oob_data_flag: OOBDataFlag::spec_from_code(d[1]),
                authentication_requirements: AuthenticationRequirements::spec_from_byte(d[2]),
                max_encryption_key_size: d[3],
                initiator_key_distribution: KeyDistributionFlags::spec_from_byte(d[4]),
                responder_key_distribution: KeyDistributionFlags::spec_from_byte(d[5]),
            }
        } else if code == 0x03 {
            SmpMsg::PairingConfirm(le_value(d) as u128)
        } else if code == 0x04 {
            SmpMsg::PairingRandom(le_value(d) as u128)
        } else if code == 0x05 {
            SmpMsg::PairingFailed(SmpPairingFailure::spec_from_code(d[0]))
        } else if code == 0x06 {
            SmpMsg::EncryptionInformation(le_value(d) as u128)
        } else {
            SmpMsg::CentralIdentification {
                encrypted_diversifier: d[0],
                random_value: le_value(d.subrange(1, 9)) as u64,
            }
        }
    }

    /// The parts of the message that have a code carry codes that decode
    /// back to them, and an unknown message does not use a known code.
    pub open spec fn is_canonical(&self) -> bool {
        match self {
            SmpMsg::PairingRequest { io_capability, oob_data_flag, .. } => io_capability.is_canonical()
                && oob_data_flag.is_canonical(),
            SmpMsg::PairingResponse { io_capability, oob_data_flag, .. } => io_capability.is_canonical()
                && oob_data_flag.is_canonical(),
            SmpMsg::PairingFailed(reason) => reason.is_canonical(),
            SmpMsg::Unknown(code, _) => !(0x01 <= *code <= 0x07),
            _ => true,
        }
    }

    pub fn get_opcode(&self) -> (r: u8)
        ensures
            r == self.spec_opcode(),
    {
        match self {
            SmpMsg::PairingRequest { .. } => 0x01,
            SmpMsg::PairingResponse { .. } => 0x02,
            SmpMsg::PairingConfirm(_) => 0x03,
            SmpMsg::PairingRandom(_) => 0x04,
            SmpMsg::PairingFailed(_) => 0x05,
            SmpMsg::EncryptionInformation(_) => 0x06,
            SmpMsg::CentralIdentification { .. } => 0x07,
            SmpMsg::Unknown(code, _) => *code,
        }
    }

    pub fn to_smp_pdu(&self) -> (r: Result<SmpPdu, SerializationError>)
        ensures
            r matches Ok(pdu) && pdu.code == self.spec_opcode() && pdu.data@ == self.spec_payload(),
    {
        let pdu = match self {
            SmpMsg::PairingRequest {
                io_capability,
                oob_data_flag,
                authentication_requirements,
                max_encryption_key_size,
                initiator_key_distribution,
                responder_key_distribution,
            } => SmpPdu {
                code: 0x01,
                data: vec![
                    io_capability.to_code(),
                    oob_data_flag.to_code(),
                    authentication_requirements.to_byte(),
                    *max_encryption_key_size,
                    initiator_key_distribution.to_byte(),
                    responder_key_distribution.to_byte(),
                ],
            },
            SmpMsg::PairingResponse {
                io_capability,
                oob_data_flag,
                authentication_requirements,
                max_encryption_key_size,
                initiator_key_distribution,
                responder_key_distribution,
            } => SmpPdu {
                code: 0x02,
                data: vec![
                    io_capability.to_code(),
                    oob_data_flag.to_code(),
                    authentication_requirements.to_byte(),
                    *max_encryption_key_size,
                    initiator_key_distribution.to_byte(),
                    responder_key_distribution.to_byte(),
                ],
            },
            SmpMsg::PairingConfirm(confirm) => SmpPdu { code: 0x03, data: u128_to_le(*confirm, 16) },
            SmpMsg::PairingRandom(random) => SmpPdu { code: 0x04, data: u128_to_le(*random, 16) },
            SmpMsg::PairingFailed(reason) => SmpPdu { code: 0x05, data: vec![reason.to_code()] },
            SmpMsg::EncryptionInformation(info) => SmpPdu { code: 0x06, data: u128_to_le(*info, 16) },
            SmpMsg::CentralIdentification { encrypted_diversifier, random_value } => {
                let mut data = vec![*encrypted_diversifier];
                let tail = u128_to_le(*random_value as u128, 8);
                let ghost head = data@;
                let mut i: usize = 0;
                while i < tail.len()
                    invariant
                        i <= tail@.len(),
                        data@ == head + tail@.subrange(0, i as int),
                    decreases tail@.len() - i,
                {
                    data.push(tail[i]);
                    i = i + 1;
                    proof {
                        assert(tail@.subrange(0, i as int) =~= tail@.subrange(0, i - 1).push(tail@[i - 1]));
                    }
                }
                proof {
                    assert(tail@.subrange(0, tail@.len() as int) =~= tail@);
                    assert(data@ =~= self.spec_payload());
                }
                SmpPdu { code: 0x07, data }
            },
            SmpMsg::Unknown(code, data) => SmpPdu {
                code: *code,
                data: vstd::slice::slice_to_vec(data.as_slice()),
            },
        };
        proof {
            assert(pdu.data@ =~= self.spec_payload());
        }
        Ok(pdu)
    }

    pub fn from_smp_pdu(smp: SmpPdu) -> (r: Result<Self, ParseError>)
        requires
            Self::decodable(smp.code, smp.data@),
        ensures
            r is Ok,
            0x01 <= smp.code <= 0x07 ==> r->Ok_0 == Self::spec_decode(smp.code, smp.data@),
            !(0x01 <= smp.code <= 0x07) ==> (r->Ok_0 matches SmpMsg::Unknown(code, data) && code
                == smp.code && data@ == smp.data@),
    {
        let m = match smp.code {
            0x01 => SmpMsg::PairingRequest {
                io_capability: IOCapability::from_code(smp.data[0]),
                oob_data_flag: OOBDataFlag::from_code(smp.data[1]),
                authentication_requirements: AuthenticationRequirements::from_byte(smp.data[2]),
                max_encryption_key_size: smp.data[3],
                initiator_key_distribution: KeyDistributionFlags::from_byte(smp.data[4]),
                responder_key_distribution: KeyDistributionFlags::from_byte(smp.data[5]),
            },
            0x02 => SmpMsg::PairingResponse {
                io_capability: IOCapability::from_code(smp.data[0]),
                oob_data_flag: OOBDataFlag::from_code(smp.data[1]),
                authentication_requirements: AuthenticationRequirements::from_byte(smp.data[2]),
                max_encryption_key_size: smp.data[3],
                initiator_key_distribution: KeyDistributionFlags::from_byte(smp.data[4]),
                responder_key_distribution: KeyDistributionFlags::from_byte(smp.data[5]),
            },
            0x03 => {
                proof {
                    lemma_le_value_bound(smp.data@);
                    lemma_pow256_values();
                }
                SmpMsg::PairingConfirm(le_to_u128(smp.data.as_slice()))
            },
            0x04 => {
                proof {
                    lemma_le_value_bound(smp.data@);
                    lemma_pow256_values();
                }
                SmpMsg::PairingRandom(le_to_u128(smp.data.as_slice()))
            },
            0x05 => SmpMsg::PairingFailed(SmpPairingFailure::from_code(smp.data[0])),
            0x06 => {
                proof {
                    lemma_le_value_bound(smp.data@);
                    lemma_pow256_values();
                }
                SmpMsg::EncryptionInformation(le_to_u128(smp.data.as_slice()))
            },
            0x07 => {
                let rv = vstd::slice::slice_subrange(smp.data.as_slice(), 1, 9);
                proof {
                    lemma_le_value_bound(rv@);
                    lemma_pow256_values();
                }
                SmpMsg::CentralIdentification {
                    encrypted_diversifier: smp.data[0],
                    random_value: le_to_u128(rv) as u64,
                }
            },
            _ => SmpMsg::Unknown(smp.code, smp.data),
        };
        Ok(m)
    }
}

/// Decoding the SMP PDU of a canonical message gives back the message: the
/// parameters have a length that decoding accepts, and a message with a
/// known code decodes to itself.
pub proof fn law_smp_msg_roundtrip(m: SmpMsg)
    requires
        m.is_canonical(),
    ensures
        SmpMsg::decodable(m.spec_opcode(), m.spec_payload()),
        0x01 <= m.spec_opcode() <= 0x07 ==> SmpMsg::spec_decode(m.spec_opcode(), m.spec_payload()) == m,
        !(0x01 <= m.spec_opcode() <= 0x07) ==> m is Unknown,
{
    match m {
        SmpMsg::PairingRequest {
            io_capability,
            oob_data_flag,
            authentication_requirements,
            max_encryption_key_size,
            initiator_key_distribution,
            responder_key_distribution,
        } => {
            law_io_capability_roundtrip(0, io_capability);
            law_oob_data_flag_roundtrip(0, oob_data_flag);
            law_auth_req_roundtrip(0, authentication_requirements);
            law_key_distribution_flags_roundtrip(initiator_key_distribution);
            law_key_distribution_flags_roundtrip(responder_key_distribution);
        },
        SmpMsg::PairingResponse {
            io_capability,
            oob_data_flag,
            authentication_requirements,
            max_encryption_key_size,
            initiator_key_distribution,
            responder_key_distribution,
        } => {
            law_io_capability_roundtrip(0, io_capability);
            law_oob_data_flag_roundtrip(0, oob_data_flag);
            law_auth_req_roundtrip(0, authentication_requirements);
            law_key_distribution_flags_roundtrip(initiator_key_distribution);
            law_key_distribution_flags_roundtrip(responder_key_distribution);
        },
        SmpMsg::PairingConfirm(v) => {
            lemma_le_u128_roundtrip(v as nat, 16);
        },
        SmpMsg::PairingRandom(v) => {
            lemma_le_u128_roundtrip(v as nat, 16);
        },
        SmpMsg::EncryptionInformation(v) => {
            lemma_le_u128_roundtrip(v as nat, 16);
        },
        SmpMsg::PairingFailed(reason) => {
            law_failure_roundtrip(reason);
        },
        SmpMsg::CentralIdentification { encrypted_diversifier, random_value } => {
            let p = m.spec_payload();
            lemma_le_bytes_len(random_value as nat, 8);
            assert(p.subrange(1, 9) =~= le_bytes(random_value as nat, 8));
            lemma_le_u128_roundtrip(random_value as nat, 8);
        },
        SmpMsg::Unknown(_, _) => {},
    }
}

/// A value below `256^n` encoded on `n` bytes decodes back to itself.
proof fn lemma_le_u128_roundtrip(v: nat, n: nat)
    requires
        n == 8 || n == 16,
        n == 8 ==> v <= u64::MAX,
        n == 16 ==> v <= u128::MAX,
    ensures
        le_value(le_bytes(v, n)) == v,
        le_bytes(v, n).len() == n,
{
    lemma_pow256_values();
    crate::endian::lemma_le_value_of_bytes(v, n);
    crate::endian::lemma_small_mod(v, n);
    lemma_le_bytes_len(v, n);
}

impl SmpPairingFailure {
    /// The failure that a reason code stands for.
    pub open spec fn spec_from_code(code: u8) -> SmpPairingFailure {
        match code {
            0x01 => SmpPairingFailure::PasskeyEntryFailed,
            0x02 => SmpPairingFailure::OobNotAvailable,
            0x03 => SmpPairingFailure::AuthenticationRequirements,
            0x04 => SmpPairingFailure::ConfirmValueFailed,
            0x05 => SmpPairingFailure::PairingNotSupported,
            0x06 => SmpPairingFailure::EncryptionKeySize,
            0x07 => SmpPairingFailure::CommandNotSupported,
            0x08 => SmpPairingFailure::UnspecifiedReason,
            0x09 => SmpPairingFailure::RepeatedAttempts,
            0x0A => SmpPairingFailure::InvalidParameters,
            0x0B => SmpPairingFailure::DhKeyCheckFailed,
            0x0C => SmpPairingFailure::NumericComparisonFailed,
            0x0D => SmpPairingFailure::BrEdrPairingInProgress,
            0x0E => SmpPairingFailure::CrossTransportKeyDerivationGenerationNotAllowed,
            0x0F => SmpPairingFailure::KeyRejected,
            0x10 => SmpPairingFailure::Busy,
            _ => SmpPairingFailure::Reserved(code),
        }
    }

    /// The reason code of a failure.
    pub open spec fn spec_to_code(&self) -> u8 {
        match self {
            SmpPairingFailure::PasskeyEntryFailed => 0x01,
            SmpPairingFailure::OobNotAvailable => 0x02,
            SmpPairingFailure::AuthenticationRequirements => 0x03,
            SmpPairingFailure::ConfirmValueFailed => 0x04,
            SmpPairingFailure::PairingNotSupported => 0x05,
            SmpPairingFailure::EncryptionKeySize => 0x06,
            SmpPairingFailure::CommandNotSupported => 0x07,
            SmpPairingFailure::UnspecifiedReason => 0x08,
            SmpPairingFailure::RepeatedAttempts => 0x09,
            SmpPairingFailure::InvalidParameters => 0x0A,
            SmpPairingFailure::DhKeyCheckFailed => 0x0B,
            SmpPairingFailure::NumericComparisonFailed => 0x0C,
            SmpPairingFailure::BrEdrPairingInProgress => 0x0D,
            SmpPairingFailure::CrossTransportKeyDerivationGenerationNotAllowed => 0x0E,
            SmpPairingFailure::KeyRejected => 0x0F,
            SmpPairingFailure::Busy => 0x10,
            SmpPairingFailure::Reserved(code) => *code,
        }
    }

    /// A `Reserved` failure carries a code that no named failure has.
    pub open spec fn is_canonical(&self) -> bool {
        self matches SmpPairingFailure::Reserved(code) ==> !(0x01 <= *code <= 0x10)
    }

    pub fn from_code(code: u8) -> (r: Self)
        ensures
            r == Self::spec_from_code(code),
    {
        match code {
            0x01 => SmpPairingFailure::PasskeyEntryFailed,
            0x02 => SmpPairingFailure::OobNotAvailable,
            0x03 => SmpPairingFailure::AuthenticationRequirements,
            0x04 => SmpPairingFailure::ConfirmValueFailed,
            0x05 => SmpPairingFailure::PairingNotSupported,
            0x06 => SmpPairingFailure::EncryptionKeySize,
            0x07 => SmpPairingFailure::CommandNotSupported,
            0x08 => SmpPairingFailure::UnspecifiedReason,
            0x09 => SmpPairingFailure::RepeatedAttempts,
            0x0A => SmpPairingFailure::InvalidParameters,
            0x0B => SmpPairingFailure::DhKeyCheckFailed,
            0x0C => SmpPairingFailure::NumericComparisonFailed,
            0x0D => SmpPairingFailure::BrEdrPairingInProgress,
            0x0E => SmpPairingFailure::CrossTransportKeyDerivationGenerationNotAllowed,
            0x0F => SmpPairingFailure::KeyRejected,
            0x10 => SmpPairingFailure::Busy,
            _ => SmpPairingFailure::Reserved(code),
        }
    }

    pub fn to_code(&self) -> (r: u8)
        ensures
            r == self.spec_to_code(),
    {
        match self {
            SmpPairingFailure::PasskeyEntryFailed => 0x01,
            SmpPairingFailure::OobNotAvailable => 0x02,
            SmpPairingFailure::AuthenticationRequirements => 0x03,
            SmpPairingFailure::ConfirmValueFailed => 0x04,
            SmpPairingFailure::PairingNotSupported => 0x05,
            SmpPairingFailure::EncryptionKeySize => 0x06,
            SmpPairingFailure::CommandNotSupported => 0x07,
            SmpPairingFailure::UnspecifiedReason => 0x08,
            SmpPairingFailure::RepeatedAttempts => 0x09,
            SmpPairingFailure::InvalidParameters => 0x0A,
            SmpPairingFailure::DhKeyCheckFailed => 0x0B,
            SmpPairingFailure::NumericComparisonFailed => 0x0C,
            SmpPairingFailure::BrEdrPairingInProgress => 0x0D,
            SmpPairingFailure::CrossTransportKeyDerivationGenerationNotAllowed => 0x0E,
            SmpPairingFailure::KeyRejected => 0x0F,
            SmpPairingFailure::Busy => 0x10,
            SmpPairingFailure::Reserved(code) => *code,
        }
    }
}

/// Every reason code survives decoding and re-encoding.
pub proof fn law_failure_code_roundtrip(code: u8)
    ensures
        SmpPairingFailure::spec_from_code(code).spec_to_code() == code,
        SmpPairingFailure::spec_from_code(code).is_canonical(),
{
}

/// A failure whose `Reserved` code is not taken by a named failure survives
/// encoding and decoding.
pub proof fn law_failure_roundtrip(f: SmpPairingFailure)
    requires
        f.is_canonical(),
    ensures
        SmpPairingFailure::spec_from_code(f.spec_to_code()) == f,
{
}

impl IOCapability {
    pub open spec fn spec_to_code(&self) -> u8 {
        match self {
            IOCapability::DisplayOnly => 0x00,
            IOCapability::DisplayYesNo => 0x01,
            IOCapability::KeyboardOnly => 0x02,
            IOCapability::NoInputNoOutput => 0x03,
            IOCapability::KeyboardDisplay => 0x04,
            IOCapability::Reserved(code) => *code,
        }
    }

    pub open spec fn spec_from_code(code: u8) -> IOCapability {
        match code {
            0x00 => IOCapability::DisplayOnly,
            0x01 => IOCapability::DisplayYesNo,
            0x02 => IOCapability::KeyboardOnly,
            0x03 => IOCapability::NoInputNoOutput,
            0x04 => IOCapability::KeyboardDisplay,
            _ => IOCapability::Reserved(code),
        }
    }

    /// A `Reserved` capability carries a code that no named capability has.
    pub open spec fn is_canonical(&self) -> bool {
        self matches IOCapability::Reserved(code) ==> *code > 0x04
    }

    pub fn to_code(&self) -> (r: u8)
        ensures
            r == self.spec_to_code(),
    {
        match self {
            IOCapability::DisplayOnly => 0x00,
            IOCapability::DisplayYesNo => 0x01,
            IOCapability::KeyboardOnly => 0x02,
            IOCapability::NoInputNoOutput => 0x03,
            IOCapability::KeyboardDisplay => 0x04,
            IOCapability::Reserved(code) => *code,
        }
    }

    pub fn from_code(code: u8) -> (r: Self)
        ensures
            r == Self::spec_from_code(code),
    {
        match code {
            0x00 => IOCapability::DisplayOnly,
            0x01 => IOCapability::DisplayYesNo,
            0x02 => IOCapability::KeyboardOnly,
            0x03 => IOCapability::NoInputNoOutput,
            0x04 => IOCapability::KeyboardDisplay,
            _ => IOCapability::Reserved(code),
        }
    }
}

/// Every IO capability code survives decoding and re-encoding, and a
/// canonical capability survives encoding and decoding.
pub proof fn law_io_capability_roundtrip(code: u8, c: IOCapability)
    ensures
        IOCapability::spec_from_code(code).spec_to_code() == code,
        IOCapability::spec_from_code(code).is_canonical(),
        c.is_canonical() ==> IOCapability::spec_from_code(c.spec_to_code()) == c,
{
}

impl OOBDataFlag {
    pub open spec fn spec_to_code(&self) -> u8 {
        match self {
            OOBDataFlag::OobNotAvailable => 0x00,
            OOBDataFlag::OobAvailable => 0x01,
            OOBDataFlag::Reserved(code) => *code,
        }
    }

    pub open spec fn spec_from_code(code: u8) -> OOBDataFlag {
        match code {
            0x00 => OOBDataFlag::OobNotAvailable,
            0x01 => OOBDataFlag::OobAvailable,
            _ => OOBDataFlag::Reserved(code),
        }
    }

    /// A `Reserved` flag carries a code that no named flag has.
    pub open spec fn is_canonical(&self) -> bool {
        self matches OOBDataFlag::Reserved(code) ==> *code > 0x01
    }

    pub fn to_code(&self) -> (r: u8)
        ensures
            r == self.spec_to_code(),
    {
        match self {
            OOBDataFlag::OobNotAvailable => 0x00,
            OOBDataFlag::OobAvailable => 0x01,
            OOBDataFlag::Reserved(code) => *code,
        }
    }

    pub fn from_code(code: u8) -> (r: Self)
        ensures
            r == Self::spec_from_code(code),
    {
        match code {
            0x00 => OOBDataFlag::OobNotAvailable,
            0x01 => OOBDataFlag::OobAvailable,
            _ => OOBDataFlag::Reserved(code),
        }
    }
}

/// Every OOB data flag code survives decoding and re-encoding, and a
/// canonical flag survives encoding and decoding.
pub proof fn law_oob_data_flag_roundtrip(code: u8, f: OOBDataFlag)
    ensures
        OOBDataFlag::spec_from_code(code).spec_to_code() == code,
        OOBDataFlag::spec_from_code(code).is_canonical(),
        f.is_canonical() ==> OOBDataFlag::spec_from_code(f.spec_to_code()) == f,
{
}

/// `0x..` if `b`, else zero.
pub open spec fn flag(b: bool, mask: u8) -> u8 {
    if b {
        mask
    } else {
        0u8
    }
}

/// One step of building a flag byte: OR-ing `mask` in when `b` holds.
pub proof fn lemma_or_flag(x: u8, b: bool, mask: u8)
    ensures
        (if b {
            x | mask
        } else {
            x
        }) == x | flag(b, mask),
        0u8 | flag(b, mask) == flag(b, mask),
{
    assert((if b {
        x | mask
    } else {
        x
    }) == x | (if b {
        mask
    } else {
        0u8
    })) by (bit_vector);
    assert(0u8 | (if b {
        mask
    } else {
        0u8
    }) == (if b {
        mask
    } else {
        0u8
    })) by (bit_vector);
}

impl AuthenticationRequirements {
    /// The requirements that an AuthReq byte holds (bit 1 is not read).
    pub open spec fn spec_from_byte(byte: u8) -> AuthenticationRequirements {
        AuthenticationRequirements {
            bonding: (byte & 0x01) != 0,
            mitm_protection: (byte & 0x04) != 0,
            secure_connections: (byte & 0x08) != 0,
            keypress_notification: (byte & 0x10) != 0,
            ct2: (byte & 0x20) != 0,
            reserved: ((byte & 0x40) != 0, (byte & 0x80) != 0),
        }
    }

    /// The AuthReq byte of the requirements.
    pub open spec fn spec_to_byte(&self) -> u8 {
        0u8 | flag(self.bonding, 0x01) | flag(self.mitm_protection, 0x04) | flag(self.secure_connections, 0x08)
            | flag(self.keypress_notification, 0x10) | flag(self.ct2, 0x20) | flag(self.reserved.0, 0x40)
            | flag(self.reserved.1, 0x80)
    }

    pub fn from_byte(byte: u8) -> (r: Self)
        ensures
            r == Self::spec_from_byte(byte),
    {
        AuthenticationRequirements {
            bonding: (byte & 0x01) != 0,
            mitm_protection: (byte & 0x04) != 0,
            secure_connections: (byte & 0x08) != 0,
            keypress_notification: (byte & 0x10) != 0,
            ct2: (byte & 0x20) != 0,
            reserved: ((byte & 0x40) != 0, (byte & 0x80) != 0),
        }
    }

    pub fn to_byte(&self) -> (r: u8)
        ensures
            r == self.spec_to_byte(),
    {
        let mut byte: u8 = 0x00;
        let ghost before = byte;
        if self.bonding {
            byte = byte | 0x01;
        }
        proof {
            lemma_or_flag(before, self.bonding, 0x01);
        }
        let ghost before = byte;
        if self.mitm_protection {
            byte = byte | 0x04;
        }
        proof {
            lemma_or_flag(before, self.mitm_protection, 0x04);
        }
        let ghost before = byte;
        if self.secure_connections {
            byte = byte | 0x08;
        }
        proof {
            lemma_or_flag(before, self.secure_connections, 0x08);
        }
        let ghost before = byte;
        if self.keypress_notification {
            byte = byte | 0x10;
        }
        proof {
            lemma_or_flag(before, self.keypress_notification, 0x10);
        }
        let ghost before = byte;
        if self.ct2 {
            byte = byte | 0x20;
        }
        proof {
            lemma_or_flag(before, self.ct2, 0x20);
        }
        let ghost before = byte;
        if self.reserved.0 {
            byte = byte | 0x40;
        }
        proof {
            lemma_or_flag(before, self.reserved.0, 0x40);
        }
        let ghost before = byte;
        if self.reserved.1 {
            byte = byte | 0x80;
        }
        proof {
            lemma_or_flag(before, self.reserved.1, 0x80);
        }
        byte
    }
}

/// Encoding decoded requirements gives back the byte with bit 1 cleared,
/// and decoding encoded requirements gives back the requirements.
pub proof fn law_auth_req_roundtrip(byte: u8, a: AuthenticationRequirements)
    ensures
        AuthenticationRequirements::spec_from_byte(byte).spec_to_byte() == byte & 0xFD,
        AuthenticationRequirements::spec_from_byte(a.spec_to_byte()) == a,
{
    let b0 = (byte & 0x01) != 0;
    let b2 = (byte & 0x04) != 0;
    let b3 = (byte & 0x08) != 0;
    let b4 = (byte & 0x10) != 0;
    let b5 = (byte & 0x20) != 0;
    let b6 = (byte & 0x40) != 0;
    let b7 = (byte & 0x80) != 0;
    assert(0u8 | (if b0 { 0x01u8 } else { 0u8 }) | (if b2 { 0x04u8 } else { 0u8 }) | (if b3 { 0x08u8 } else { 0u8 })
        | (if b4 { 0x10u8 } else { 0u8 }) | (if b5 { 0x20u8 } else { 0u8 }) | (if b6 { 0x40u8 } else { 0u8 })
        | (if b7 { 0x80u8 } else { 0u8 }) == byte & 0xFD) by (bit_vector)
        requires
            b0 == ((byte & 0x01) != 0),
            b2 == ((byte & 0x04) != 0),
            b3 == ((byte & 0x08) != 0),
            b4 == ((byte & 0x10) != 0),
            b5 == ((byte & 0x20) != 0),
            b6 == ((byte & 0x40) != 0),
            b7 == ((byte & 0x80) != 0),
    ;
    let x = a.spec_to_byte();
    let (c0, c2, c3, c4, c5, c6, c7) = (
        a.bonding,
        a.mitm_protection,
        a.secure_connections,
        a.keypress_notification,
        a.ct2,
        a.reserved.0,
        a.reserved.1,
    );
    assert(((x & 0x01) != 0) == c0 && ((x & 0x04) != 0) == c2 && ((x & 0x08) != 0) == c3 && ((x & 0x10)
        != 0) == c4 && ((x & 0x20) != 0) == c5 && ((x & 0x40) != 0) == c6 && ((x & 0x80) != 0) == c7)
        by (bit_vector)
        requires
            x == 0u8 | (if c0 { 0x01u8 } else { 0u8 }) | (if c2 { 0x04u8 } else { 0u8 }) | (if c3 { 0x08u8 } else {
                0u8
            }) | (if c4 { 0x10u8 } else { 0u8 }) | (if c5 { 0x20u8 } else { 0u8 }) | (if c6 { 0x40u8 } else {
                0u8
            }) | (if c7 { 0x80u8 } else { 0u8 }),
    ;
}

impl KeyDistributionFlags {
    pub open spec fn spec_from_byte(byte: u8) -> KeyDistributionFlags {
        KeyDistributionFlags {
            enc_key: (byte & 0x01) != 0,
            id_key: (byte & 0x02) != 0,
            sign_key: (byte & 0x04) != 0,
            link_key: (byte & 0x08) != 0,
            reserved: ((byte & 0x10) != 0, (byte & 0x20) != 0, (byte & 0x40) != 0, (byte & 0x80) != 0),
        }
    }

    pub open spec fn spec_to_byte(&self) -> u8 {
        0u8 | flag(self.enc_key, 0x01) | flag(self.id_key, 0x02) | flag(self.sign_key, 0x04) | flag(self.link_key, 0x08)
            | flag(self.reserved.0, 0x10) | flag(self.reserved.1, 0x20) | flag(self.reserved.2, 0x40) | flag(
            self.reserved.3,
            0x80,
        )
    }

    pub fn from_byte(byte: u8) -> (r: Self)
        ensures
            r == Self::spec_from_byte(byte),
    {
        KeyDistributionFlags {
            enc_key: (byte & 0x01) != 0,
            id_key: (byte & 0x02) != 0,
            sign_key: (byte & 0x04) != 0,
            link_key: (byte & 0x08) != 0,
            reserved: ((byte & 0x10) != 0, (byte & 0x20) != 0, (byte & 0x40) != 0, (byte & 0x80) != 0),
        }
    }

    pub fn to_byte(&self) -> (r: u8)
        ensures
            r == self.spec_to_byte(),
    {
        let mut byte: u8 = 0x00;
        let ghost before = byte;
        if self.enc_key {
            byte = byte | 0x01;
        }
        proof {
            lemma_or_flag(before, self.enc_key, 0x01);
        }
        let ghost before = byte;
        if self.id_key {
            byte = byte | 0x02;
        }
        proof {
            lemma_or_flag(before, self.id_key, 0x02);
        }
        let ghost before = byte;
        if self.sign_key {
            byte = byte | 0x04;
        }
        proof {
            lemma_or_flag(before, self.sign_key, 0x04);
        }
        let ghost before = byte;
        if self.link_key {
            byte = byte | 0x08;
        }
        proof {
            lemma_or_flag(before, self.link_key, 0x08);
        }
        let ghost before = byte;
        if self.reserved.0 {
            byte = byte | 0x10;
        }
        proof {
            lemma_or_flag(before, self.reserved.0, 0x10);
        }
        let ghost before = byte;
        if self.reserved.1 {
            byte = byte | 0x20;
        }
        proof {
            lemma_or_flag(before, self.reserved.1, 0x20);
        }
        let ghost before = byte;
        if self.reserved.2 {
            byte = byte | 0x40;
        }
        proof {
            lemma_or_flag(before, self.reserved.2, 0x40);
        }
        let ghost before = byte;
        if self.reserved.3 {
            byte = byte | 0x80;
        }
        proof {
            lemma_or_flag(before, self.reserved.3, 0x80);
        }
        byte
    }
}

/// Decoding key distribution flags and encoding them again gives back the byte.
pub proof fn law_key_distribution_byte_roundtrip(byte: u8)
    ensures
        KeyDistributionFlags::spec_from_byte(byte).spec_to_byte() == byte,
{
    let b0 = (byte & 0x01) != 0;
    let b1 = (byte & 0x02) != 0;
    let b2 = (byte & 0x04) != 0;
    let b3 = (byte & 0x08) != 0;
    let b4 = (byte & 0x10) != 0;
    let b5 = (byte & 0x20) != 0;
    let b6 = (byte & 0x40) != 0;
    let b7 = (byte & 0x80) != 0;
    assert(0u8 | (if b0 { 0x01u8 } else { 0u8 }) | (if b1 { 0x02u8 } else { 0u8 }) | (if b2 { 0x04u8 } else {
        0u8
    }) | (if b3 { 0x08u8 } else { 0u8 }) | (if b4 { 0x10u8 } else { 0u8 }) | (if b5 { 0x20u8 } else { 0u8 }) | (
    if b6 {
        0x40u8
    } else {
        0u8
    }) | (if b7 { 0x80u8 } else { 0u8 }) == byte) by (bit_vector)
        requires
            b0 == ((byte & 0x01) != 0),
            b1 == ((byte & 0x02) != 0),
            b2 == ((byte & 0x04) != 0),
            b3 == ((byte & 0x08) != 0),
            b4 == ((byte & 0x10) != 0),
            b5 == ((byte & 0x20) != 0),
            b6 == ((byte & 0x40) != 0),
            b7 == ((byte & 0x80) != 0),
    ;
}

/// Encoding key distribution flags and decoding the byte gives back the flags.
pub proof fn law_key_distribution_flags_roundtrip(k: KeyDistributionFlags)
    ensures
        KeyDistributionFlags::spec_from_byte(k.spec_to_byte()) == k,
{
    let x = k.spec_to_byte();
    let c0 = k.enc_key;
    let c1 = k.id_key;
    let c2 = k.sign_key;
    let c3 = k.link_key;
    let c4 = k.reserved.0;
    let c5 = k.reserved.1;
    let c6 = k.reserved.2;
    let c7 = k.reserved.3;
    assert(x == 0u8 | (if c0 { 0x01u8 } else { 0u8 }) | (if c1 { 0x02u8 } else { 0u8 }) | (if c2 { 0x04u8 } else {
        0u8
    }) | (if c3 { 0x08u8 } else { 0u8 }) | (if c4 { 0x10u8 } else { 0u8 }) | (if c5 { 0x20u8 } else { 0u8 }) | (
    if c6 {
        0x40u8
    } else {
        0u8
    }) | (if c7 { 0x80u8 } else { 0u8 }));
    assert(((x & 0x01) != 0) == c0 && ((x & 0x02) != 0) == c1 && ((x & 0x04) != 0) == c2 && ((x & 0x08)
        != 0) == c3 && ((x & 0x10) != 0) == c4 && ((x & 0x20) != 0) == c5 && ((x & 0x40) != 0) == c6 && ((x
        & 0x80) != 0) == c7) by (bit_vector)
        requires
            x == 0u8 | (if c0 { 0x01u8 } else { 0u8 }) | (if c1 { 0x02u8 } else { 0u8 }) | (if c2 { 0x04u8 } else {
                0u8
            }) | (if c3 { 0x08u8 } else { 0u8 }) | (if c4 { 0x10u8 } else { 0u8 }) | (if c5 { 0x20u8 } else {
                0u8
            }) | (if c6 { 0x40u8 } else { 0u8 }) | (if c7 { 0x80u8 } else { 0u8 }),
    ;
    let r = KeyDistributionFlags::spec_from_byte(x);
    assert(r.enc_key == k.enc_key && r.id_key == k.id_key && r.sign_key == k.sign_key && r.link_key == k.link_key);
    assert(r.reserved == k.reserved);
}


// --- The assigned numbers of the Security Manager ---

/// The named pairing failures in the order of their reason codes: the
/// failure at index `i` has reason code `i + 1`.
pub open spec fn failure_reasons() -> Seq<SmpPairingFailure> {
    seq![
        SmpPairingFailure::PasskeyEntryFailed,
        SmpPairingFailure::OobNotAvailable,
        SmpPairingFailure::AuthenticationRequirements,
        SmpPairingFailure::ConfirmValueFailed,
        SmpPairingFailure::PairingNotSupported,
        SmpPairingFailure::EncryptionKeySize,
        SmpPairingFailure::CommandNotSupported,
        SmpPairingFailure::UnspecifiedReason,
        SmpPairingFailure::RepeatedAttempts,
        SmpPairingFailure::InvalidParameters,
        SmpPairingFailure::DhKeyCheckFailed,
        SmpPairingFailure::NumericComparisonFailed,
        SmpPairingFailure::BrEdrPairingInProgress,
        SmpPairingFailure::CrossTransportKeyDerivationGenerationNotAllowed,
        SmpPairingFailure::KeyRejected,
        SmpPairingFailure::Busy,
    ]
}

/// Reason codes 0x01 to 0x10 stand for the named failures in the order of
/// the Security Manager's table (0x01 passkey entry failed, 0x04 confirm
/// value failed, 0x05 pairing not supported, 0x06 encryption key size, ...,
/// 0x10 busy); decoding a code gives its failure and encoding the failure
/// gives the code; every other code is reserved and kept as it is.
pub proof fn law_failure_reason_codes(code: u8)
    ensures
        1 <= code <= 16 ==> SmpPairingFailure::spec_from_code(code) == failure_reasons()[code - 1],
        1 <= code <= 16 ==> failure_reasons()[code - 1].spec_to_code() == code,
        !(1 <= code <= 16) ==> SmpPairingFailure::spec_from_code(code) == SmpPairingFailure::Reserved(code),
        SmpPairingFailure::spec_from_code(0x04) == SmpPairingFailure::ConfirmValueFailed,
        SmpPairingFailure::spec_from_code(0x05) == SmpPairingFailure::PairingNotSupported,
        SmpPairingFailure::spec_from_code(0x06) == SmpPairingFailure::EncryptionKeySize,
{
}

/// IO capability codes: 0x00 display only, 0x01 display yes/no, 0x02
/// keyboard only, 0x03 no input no output, 0x04 keyboard display; other
/// codes are reserved. Encoding gives each capability its code back.
pub proof fn law_io_capability_codes(code: u8)
    ensures
        IOCapability::spec_from_code(0x00) == IOCapability::DisplayOnly,
        IOCapability::spec_from_code(0x01) == IOCapability::DisplayYesNo,
        IOCapability::spec_from_code(0x02) == IOCapability::KeyboardOnly,
        IOCapability::spec_from_code(0x03) == IOCapability::NoInputNoOutput,
        IOCapability::spec_from_code(0x04) == IOCapability::KeyboardDisplay,
        code > 0x04 ==> IOCapability::spec_from_code(code) == IOCapability::Reserved(code),
        IOCapability::DisplayOnly.spec_to_code() == 0x00,
        IOCapability::DisplayYesNo.spec_to_code() == 0x01,
        IOCapability::KeyboardOnly.spec_to_code() == 0x02,
        IOCapability::NoInputNoOutput.spec_to_code() == 0x03,
        IOCapability::KeyboardDisplay.spec_to_code() == 0x04,
{
}

/// OOB data flag codes: 0x00 not available, 0x01 available; other codes
/// are reserved.
pub proof fn law_oob_data_flag_codes(code: u8)
    ensures
        OOBDataFlag::spec_from_code(0x00) == OOBDataFlag::OobNotAvailable,
        OOBDataFlag::spec_from_code(0x01) == OOBDataFlag::OobAvailable,
        code > 0x01 ==> OOBDataFlag::spec_from_code(code) == OOBDataFlag::Reserved(code),
        OOBDataFlag::OobNotAvailable.spec_to_code() == 0x00,
        OOBDataFlag::OobAvailable.spec_to_code() == 0x01,
{
}

/// The SMP codes: 0x01 pairing request, 0x02 pairing response, 0x03
/// pairing confirm, 0x04 pairing random, 0x05 pairing failed, 0x06
/// encryption information, 0x07 central identification; each known code
/// decodes to the message it names.
pub proof fn law_smp_codes(m: SmpMsg, d: Seq<u8>)
    ensures
        m is PairingRequest ==> m.spec_opcode() == 0x01,
        m is PairingResponse ==> m.spec_opcode() == 0x02,
        m is PairingConfirm ==> m.spec_opcode() == 0x03,
        m is PairingRandom ==> m.spec_opcode() == 0x04,
        m is PairingFailed ==> m.spec_opcode() == 0x05,
        m is EncryptionInformation ==> m.spec_opcode() == 0x06,
        m is CentralIdentification ==> m.spec_opcode() == 0x07,
        SmpMsg::spec_decode(0x01, d) is PairingRequest,
        SmpMsg::spec_decode(0x02, d) is PairingResponse,
        SmpMsg::spec_decode(0x03, d) is PairingConfirm,
        SmpMsg::spec_decode(0x04, d) is PairingRandom,
        SmpMsg::spec_decode(0x05, d) is PairingFailed,
        SmpMsg::spec_decode(0x06, d) is EncryptionInformation,
        SmpMsg::spec_decode(0x07, d) is CentralIdentification,
{
}

/// The bits of the AuthReq byte: bonding is bit 0, MITM protection bit 2,
/// secure connections bit 3, keypress notification bit 4, CT2 bit 5; and
/// of the key distribution byte: encryption key bit 0, identity key bit 1,
/// signing key bit 2, link key bit 3. A byte with one of these bits alone
/// decodes to that flag alone, and that flag alone encodes to that byte.
pub proof fn law_flag_bits()
    ensures
        AuthenticationRequirements::spec_from_byte(0x01) == (AuthenticationRequirements { bonding: true, ..AuthenticationRequirements::spec_from_byte(0) }),
        AuthenticationRequirements::spec_from_byte(0x04) == (AuthenticationRequirements { mitm_protection: true, ..AuthenticationRequirements::spec_from_byte(0) }),
        AuthenticationRequirements::spec_from_byte(0x08) == (AuthenticationRequirements { secure_connections: true, ..AuthenticationRequirements::spec_from_byte(0) }),
        AuthenticationRequirements::spec_from_byte(0x10) == (AuthenticationRequirements { keypress_notification: true, ..AuthenticationRequirements::spec_from_byte(0) }),
        AuthenticationRequirements::spec_from_byte(0x20) == (AuthenticationRequirements { ct2: true, ..AuthenticationRequirements::spec_from_byte(0) }),
        AuthenticationRequirements::spec_from_byte(0) == (AuthenticationRequirements {
            bonding: false,
            mitm_protection: false,
            secure_connections: false,
            keypress_notification: false,
            ct2: false,
            reserved: (false, false),
        }),
        KeyDistributionFlags::spec_from_byte(0x01) == (KeyDistributionFlags { enc_key: true, ..KeyDistributionFlags::spec_from_byte(0) }),
        KeyDistributionFlags::spec_from_byte(0x02) == (KeyDistributionFlags { id_key: true, ..KeyDistributionFlags::spec_from_byte(0) }),
        KeyDistributionFlags::spec_from_byte(0x04) == (KeyDistributionFlags { sign_key: true, ..KeyDistributionFlags::spec_from_byte(0) }),
        KeyDistributionFlags::spec_from_byte(0x08) == (KeyDistributionFlags { link_key: true, ..KeyDistributionFlags::spec_from_byte(0) }),
        KeyDistributionFlags::spec_from_byte(0) == (KeyDistributionFlags {
            enc_key: false,
            id_key: false,
            sign_key: false,
            link_key: false,
            reserved: (false, false, false, false),
        }),
{
    assert(
        (0x01u8 & 0x01u8) != 0 && (0x01u8 & 0x02u8) == 0 && (0x01u8 & 0x04u8) == 0 && (0x01u8 & 0x08u8) == 0
        && (0x01u8 & 0x10u8) == 0 && (0x01u8 & 0x20u8) == 0 && (0x01u8 & 0x40u8) == 0 && (0x01u8 & 0x80u8) == 0
        && (0x02u8 & 0x01u8) == 0 && (0x02u8 & 0x02u8) != 0 && (0x02u8 & 0x04u8) == 0 && (0x02u8 & 0x08u8) == 0
        && (0x02u8 & 0x10u8) == 0 && (0x02u8 & 0x20u8) == 0 && (0x02u8 & 0x40u8) == 0 && (0x02u8 & 0x80u8) == 0
        && (0x04u8 & 0x01u8) == 0 && (0x04u8 & 0x02u8) == 0 && (0x04u8 & 0x04u8) != 0 && (0x04u8 & 0x08u8) == 0
        && (0x04u8 & 0x10u8) == 0 && (0x04u8 & 0x20u8) == 0 && (0x04u8 & 0x40u8) == 0 && (0x04u8 & 0x80u8) == 0
        && (0x08u8 & 0x01u8) == 0 && (0x08u8 & 0x02u8) == 0 && (0x08u8 & 0x04u8) == 0 && (0x08u8 & 0x08u8) != 0
        && (0x08u8 & 0x10u8) == 0 && (0x08u8 & 0x20u8) == 0 && (0x08u8 & 0x40u8) == 0 && (0x08u8 & 0x80u8) == 0
        && (0x10u8 & 0x01u8) == 0 && (0x10u8 & 0x02u8) == 0 && (0x10u8 & 0x04u8) == 0 && (0x10u8 & 0x08u8) == 0
        && (0x10u8 & 0x10u8) != 0 && (0x10u8 & 0x20u8) == 0 && (0x10u8 & 0x40u8) == 0 && (0x10u8 & 0x80u8) == 0
        && (0x20u8 & 0x01u8) == 0 && (0x20u8 & 0x02u8) == 0 && (0x20u8 & 0x04u8) == 0 && (0x20u8 & 0x08u8) == 0
        && (0x20u8 & 0x10u8) == 0 && (0x20u8 & 0x20u8) != 0 && (0x20u8 & 0x40u8) == 0 && (0x20u8 & 0x80u8) == 0
        && (0x00u8 & 0x01u8) == 0 && (0x00u8 & 0x02u8) == 0 && (0x00u8 & 0x04u8) == 0 && (0x00u8 & 0x08u8) == 0
        && (0x00u8 & 0x10u8) == 0 && (0x00u8 & 0x20u8) == 0 && (0x00u8 & 0x40u8) == 0 && (0x00u8 & 0x80u8) == 0
    ) by (bit_vector);
}

} // verus!
