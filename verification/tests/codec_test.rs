use bt_only_headers::c1::{ah, c1_rev, e, s1, s1_rev, xor_128};
use bt_only_headers::event::{
    HciEventMsg, HciStatus, ParseError as EventParseError, SerializationError, Role,
    RETURN_PARAMETERS_TOO_LARGE,
};
use bt_only_headers::packets::SmpPdu;
use bt_only_headers::primitives::{FromToBytes, ParseError, U16Le};
use bt_only_headers::smp::{
    AuthenticationRequirements, IOCapability, KeyDistributionFlags, OOBDataFlag, SmpMsg,
    SmpPairingFailure,
};

#[test]
fn test_xor_128() {
    let a = [0xFFu8; 16];
    let mut b = [0u8; 16];
    b[3] = 0x0F;
    let out = xor_128(&a, &b);
    assert_eq!(out[3], 0xF0);
    assert_eq!(out[0], 0xFF);
}

#[test]
fn test_c1_rev_recorded_confirm_values() {
    // Values as they were sent over the air during a Just Works pairing.
    let k = [0u8; 16];
    let client_random = [
        0x65u8, 0x5, 0x8d, 0x11, 0xb, 0x62, 0x4b, 0x30, 0xdd, 0x7f, 0x7d, 0x73, 0x20, 0xf2, 0xec,
        0x74,
    ];
    let server_random = [
        0x6du8, 0xde, 0x61, 0xf5, 0x68, 0x16, 0x96, 0x67, 0x8a, 0x5e, 0x28, 0x70, 0x1a, 0x34, 0x38,
        0x0,
    ];
    let pres = [0x2u8, 0x3, 0x0, 0x1, 0x10, 0x0, 0x1];
    let preq = [0x1u8, 0x4, 0x0, 0x2d, 0x10, 0xe, 0xf];
    let ia = [0x26u8, 0xe, 0xd6, 0xe8, 0xc2, 0x50];
    let ra = [0x6u8, 0x33, 0x74, 0xd6, 0x56, 0xd3];
    assert_eq!(
        c1_rev(&k, &client_random, &pres, &preq, 0, &ia, 1, &ra),
        [0x4f, 0x40, 0x76, 0x6b, 0x82, 0xfc, 0xa8, 0xa6, 0x5, 0x14, 0x99, 0x54, 0xf5, 0xa4, 0x4b, 0x3a]
    );
    assert_eq!(
        c1_rev(&k, &server_random, &pres, &preq, 0, &ia, 1, &ra),
        [0xdc, 0x79, 0x69, 0x34, 0xd6, 0x98, 0xba, 0xd9, 0xfd, 0x91, 0x79, 0x1f, 0x58, 0x25, 0x8, 0x4f]
    );
}

#[test]
fn test_s1_rev_matches_s1() {
    let k = [0u8; 16];
    let r1: [u8; 16] = [
        0x00, 0x0f, 0x0e, 0x0d, 0x0c, 0x0b, 0x0a, 0x09, 0x11, 0x22, 0x33, 0x44, 0x55, 0x66, 0x77,
        0x88,
    ];
    let r2: [u8; 16] = [
        0x01, 0x02, 0x03, 0x04, 0x05, 0x06, 0x07, 0x08, 0x99, 0xaa, 0xbb, 0xcc, 0xdd, 0xee, 0xff,
        0x00,
    ];
    let mut r1_rev = r1;
    r1_rev.reverse();
    let mut r2_rev = r2;
    r2_rev.reverse();
    let mut expected: [u8; 16] = [
        0x9a, 0x1f, 0xe1, 0xf0, 0xe8, 0xb0, 0xf4, 0x9b, 0x5b, 0x42, 0x16, 0xae, 0x79, 0x6d, 0xa0,
        0x62,
    ];
    assert_eq!(s1(&k, &r1, &r2), expected);
    expected.reverse();
    assert_eq!(s1_rev(&k, &r1_rev, &r2_rev), expected);
}

#[test]
fn test_ah_pads_with_zeros() {
    let k: [u8; 16] = [
        0x00, 0x01, 0x02, 0x03, 0x04, 0x05, 0x06, 0x07, 0x08, 0x09, 0x0a, 0x0b, 0x0c, 0x0d, 0x0e,
        0x0f,
    ];
    let r = [0x11u8, 0x22, 0x33];
    let mut padded = [0u8; 16];
    padded[..3].copy_from_slice(&r);
    assert_eq!(ah(&k, &r), e(&k, &padded));
    assert_ne!(ah(&k, &r), e(&k, &[0u8; 16]));
}

#[test]
fn test_event_parse_errors() {
    assert_eq!(
        HciEventMsg::from_bytes(&[0x0e]),
        Err(EventParseError::InsufficientData { expected: 2, actual: 1 })
    );
    assert_eq!(
        HciEventMsg::from_bytes(&[0x0e, 0x05, 0x01, 0x02]),
        Err(EventParseError::InsufficientData { expected: 7, actual: 4 })
    );
    assert_eq!(
        HciEventMsg::from_bytes(&[0x3e, 0x00]),
        Err(EventParseError::InvalidLength { expected: 1, actual: 0 })
    );
    assert_eq!(
        HciEventMsg::from_bytes(&[0x3e, 0x01, 0x02]),
        Err(EventParseError::InvalidSubeventCode(0x02))
    );
    assert_eq!(
        HciEventMsg::from_bytes(&[0x3e, 0x02, 0x01, 0x00]),
        Err(EventParseError::InvalidLength { expected: 19, actual: 2 })
    );
    let mut conn = [
        0x3e, 0x13, 0x1, 0x0, 0x40, 0x0, 0x5, 0x0, 0x26, 0xe, 0xd6, 0xe8, 0xc2, 0x50, 0x30, 0x0,
        0x0, 0x0, 0xc0, 0x3, 0x9,
    ];
    assert_eq!(
        HciEventMsg::from_bytes(&conn),
        Err(EventParseError::InvalidValue { field: "Role", value: 5 })
    );
    conn[6] = 0x0;
    conn[7] = 0x2;
    assert_eq!(
        HciEventMsg::from_bytes(&conn),
        Err(EventParseError::InvalidValue { field: "AddressType", value: 2 })
    );
    conn[7] = 0x1;
    assert_eq!(
        HciEventMsg::from_bytes(&conn),
        Err(EventParseError::InvalidValue { field: "ClockAccuracy", value: 9 })
    );
    assert_eq!(
        HciEventMsg::from_bytes(&[0x0e, 0x02, 0x01, 0x02]),
        Err(EventParseError::InvalidLength { expected: 3, actual: 2 })
    );
    assert_eq!(
        HciEventMsg::from_bytes(&[0x0f, 0x03, 0x00, 0x01, 0x02]),
        Err(EventParseError::InvalidLength { expected: 4, actual: 3 })
    );
    assert_eq!(
        HciEventMsg::from_bytes(&[0x05, 0x00]),
        Err(EventParseError::InvalidEventCode(0x05))
    );
}

#[test]
fn test_event_status_and_trailing_bytes() {
    // Bytes after the announced parameters are not read.
    let value = HciEventMsg::from_bytes(&[0xf, 0x4, 0x0c, 0x1, 0x25, 0x20, 0xAA]).unwrap();
    assert_eq!(
        value,
        HciEventMsg::CommandStatus {
            status: HciStatus::Error(0x0c),
            num_hci_command_packets: 0x1,
            command_opcode: 0x2025,
        }
    );
    assert_eq!(value.to_bytes().unwrap(), vec![0xf, 0x4, 0x0c, 0x1, 0x25, 0x20]);
    assert_eq!(HciStatus::from(0x00u8), HciStatus::Success);
    assert_eq!(HciStatus::Error(0x12).into_u8(), 0x12);
    assert_eq!(Role::try_from(0x01u8), Ok(Role::Peripheral));
}

#[test]
fn test_event_command_complete_size_limit() {
    let largest = HciEventMsg::CommandComplete {
        num_hci_command_packets: 1,
        command_opcode: 0x0c03,
        return_parameters: vec![0x5A; 252],
    };
    let bytes = largest.to_bytes().unwrap();
    assert_eq!(bytes.len(), 257);
    assert_eq!(bytes[1], 255);
    assert_eq!(HciEventMsg::from_bytes(&bytes).unwrap(), largest);
    let too_large = HciEventMsg::CommandComplete {
        num_hci_command_packets: 1,
        command_opcode: 0x0c03,
        return_parameters: vec![0x5A; 253],
    };
    assert_eq!(
        too_large.to_bytes(),
        Err(SerializationError::DataTooLarge(RETURN_PARAMETERS_TOO_LARGE))
    );
}

#[test]
fn test_u16le() {
    let v = U16Le::from_bytes(&[0x34, 0x12]).unwrap();
    assert_eq!(v.value(), 0x1234);
    assert_eq!(v, U16Le::new(0x1234));
    assert_eq!(v.to_bytes().unwrap(), vec![0x34, 0x12]);
    assert_eq!(
        U16Le::from_bytes(&[0x34]),
        Err(ParseError::new("Not enough bytes for U16Le"))
    );
    assert!(U16Le::from_bytes(&[0x34, 0x12, 0x00]).is_err());
}

fn pdu(code: u8, data: Vec<u8>) -> SmpPdu {
    SmpPdu { code, data }
}

#[test]
fn test_smp_pairing_request_roundtrip() {
    let pdu_in = pdu(0x01, vec![0x04, 0x00, 0x2d, 0x10, 0x0e, 0x0f]);
    let msg = SmpMsg::from_smp_pdu(pdu_in.clone()).ok().unwrap();
    match &msg {
        SmpMsg::PairingRequest {
            io_capability,
            oob_data_flag,
            authentication_requirements,
            max_encryption_key_size,
            initiator_key_distribution,
            responder_key_distribution,
        } => {
            assert_eq!(*io_capability, IOCapability::KeyboardDisplay);
            assert_eq!(*oob_data_flag, OOBDataFlag::OobNotAvailable);
            assert!(authentication_requirements.bonding);
            assert!(authentication_requirements.mitm_protection);
            assert!(authentication_requirements.secure_connections);
            assert!(!authentication_requirements.keypress_notification);
            assert!(authentication_requirements.ct2);
            assert_eq!(*max_encryption_key_size, 0x10);
            assert!(!initiator_key_distribution.enc_key);
            assert!(initiator_key_distribution.id_key);
            assert!(responder_key_distribution.enc_key);
            assert!(responder_key_distribution.link_key);
        }
        _ => panic!("Expected a pairing request"),
    }
    assert_eq!(msg.get_opcode(), 0x01);
    let back = msg.to_smp_pdu().ok().unwrap();
    assert_eq!(back, pdu_in);
}

#[test]
fn test_smp_values_are_little_endian() {
    let msg = SmpMsg::PairingConfirm(0x0102030405060708090a0b0c0d0e0f10);
    let p = msg.to_smp_pdu().ok().unwrap();
    assert_eq!(p.code, 0x03);
    assert_eq!(
        p.data,
        vec![0x10, 0x0f, 0x0e, 0x0d, 0x0c, 0x0b, 0x0a, 0x09, 0x08, 0x07, 0x06, 0x05, 0x04, 0x03, 0x02, 0x01]
    );
    assert_eq!(SmpMsg::from_smp_pdu(p).ok().unwrap(), msg);
    let ident = SmpMsg::CentralIdentification { encrypted_diversifier: 0x02, random_value: 0x0a09260ed6e8c250 };
    let p = ident.to_smp_pdu().ok().unwrap();
    assert_eq!(p.data, vec![0x02, 0x50, 0xc2, 0xe8, 0xd6, 0x0e, 0x26, 0x09, 0x0a]);
    assert_eq!(SmpMsg::from_smp_pdu(p).ok().unwrap(), ident);
}

#[test]
fn test_smp_failure_and_unknown() {
    let msg = SmpMsg::from_smp_pdu(pdu(0x05, vec![0x04])).ok().unwrap();
    assert_eq!(msg, SmpMsg::PairingFailed(SmpPairingFailure::ConfirmValueFailed));
    assert_eq!(
        SmpMsg::from_smp_pdu(pdu(0x05, vec![0x42])).ok().unwrap(),
        SmpMsg::PairingFailed(SmpPairingFailure::Reserved(0x42))
    );
    let unknown = SmpMsg::from_smp_pdu(pdu(0x0b, vec![1, 2])).ok().unwrap();
    assert_eq!(unknown, SmpMsg::Unknown(0x0b, vec![1, 2]));
    assert_eq!(unknown.get_opcode(), 0x0b);
    assert_eq!(unknown.to_smp_pdu().ok().unwrap(), pdu(0x0b, vec![1, 2]));
    for code in 0u8..=255 {
        assert_eq!(SmpPairingFailure::from_code(code).to_code(), code);
    }
}

#[test]
fn test_smp_flag_bytes() {
    // The second bit of the authentication requirements byte is not kept.
    assert_eq!(AuthenticationRequirements::from_byte(0xFF).to_byte(), 0xFD);
    assert_eq!(AuthenticationRequirements::from_byte(0x2D).to_byte(), 0x2D);
    for byte in 0u8..=255 {
        assert_eq!(KeyDistributionFlags::from_byte(byte).to_byte(), byte);
    }
    assert_eq!(IOCapability::from_code(0x03), IOCapability::NoInputNoOutput);
    assert_eq!(IOCapability::from_code(0x09).to_code(), 0x09);
    assert_eq!(OOBDataFlag::from_code(0x01), OOBDataFlag::OobAvailable);
}
