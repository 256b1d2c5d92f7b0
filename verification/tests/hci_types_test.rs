use bt_only_headers::hci_types::{
    AddressType, AuthenticationRequirements, BroadcastFlag, ClockAccuracy, ConnectionHandle,
    HciStatus, IOCapability, KeyDistributionFlags, OOBDataFlag, PacketBoundaryFlag, Role,
    ScanEnable, SmpPairingFailure, SmpPdu,
};
use bt_only_headers::packer::{FromToPacket, Packet, PacketError};

#[test]
fn deserialize_connection_handle() {
    let mut packet = Packet::from_slice(&[0xEF, 0xBE]);
    let handle = ConnectionHandle::from_packet(&mut packet).unwrap();
    assert_eq!(handle, ConnectionHandle(0xBEEF));
}

#[test]
fn deserialize_role() {
    let mut packet = Packet::from_slice(&[0x00]);
    let handle = Role::from_packet(&mut packet).unwrap();
    assert_eq!(handle, Role::Central);
}

#[test]
fn hci_status() {
    let mut packet = Packet::from_slice(&[0x00]);
    let handle = HciStatus::from_packet(&mut packet).unwrap();
    assert_eq!(handle, HciStatus::Success);

    let mut packet = Packet::from_slice(&[0x05]);
    let handle = HciStatus::from_packet(&mut packet).unwrap();
    assert_eq!(handle, HciStatus::Failure(0x05));
}

#[test]
fn serialize_hci_status() {
    let mut packet = Packet::from_slice(&[0x05]);

    HciStatus::Success.to_packet(&mut packet).unwrap();
    assert_eq!(packet.get_bytes(), &[0x00]);

    HciStatus::Failure(0x05).to_packet(&mut packet).unwrap();
    assert_eq!(packet.get_bytes(), &[0x00, 0x05]);
}

#[test]
fn test_auth_req() {
    let m = AuthenticationRequirements {
        bonding: true,
        mitm_protection: true,
        secure_connections: true,
        keypress_notification: false,
        ct2: true,
        _reserved: 0,
    };

    let mut packet = Packet::new();
    packet.pack(&m).unwrap();
    assert_eq!(packet.get_bytes(), vec![0x2d]);

    let mut packet = Packet::from_slice(&[0x2d]);
    let res_msg = packet.unpack::<AuthenticationRequirements>();
    assert_eq!(res_msg, Ok(m));
}

#[test]
fn test_keydistribution_flags() {
    let v = KeyDistributionFlags {
        enc_key: true,
        id_key: false,
        sign_key: true,
        link_key: false,
        _reserved: 0,
    };

    let mut packet = Packet::new();
    packet.pack(&v).unwrap();
    assert_eq!(packet.get_bytes(), vec![0b0000_0101]);
}

#[test]
fn test_pairing_request_2() {
    let data: [u8; 15] = [
        0x40, 0x20, 0x0b, 0x00, 0x07, 0x00, 0x06, 0x00, 0x01, 0x04, 0x00, 0x2d, 0x10, 0x0e, 0x0f,
    ];
    let mut packet = Packet::from_slice(&data);
    let h: ConnectionHandle = packet.set_bits(12).unpack().unwrap();
    println!("{:x?}", h.0);

    let v = packet.set_bits(2).next_if_eq(&[0b10]);
    println!("{:?}", v);
}

#[test]
fn test_connection_handle_and_flags_from_bits() {
    // 12 bits of handle, 2 bits of packet boundary flag, 2 bits of broadcast flag.
    let mut packet = Packet::from_slice(&[0x40, 0x60]);
    let h: ConnectionHandle = packet.set_bits(12).unpack().unwrap();
    assert_eq!(h, ConnectionHandle(0x040));
    let pb: PacketBoundaryFlag = packet.set_bits(2).unpack().unwrap();
    assert_eq!(pb, PacketBoundaryFlag::FirstFlushable);
    let mut packet = Packet::from_slice(&[0x60]);
    packet.set_bits(6).unpack::<u8>().unwrap();
    let bc: BroadcastFlag = packet.set_bits(2).unpack().unwrap();
    assert_eq!(bc, BroadcastFlag::BdEdrBroadcast);

    let mut out = Packet::new();
    out.set_bits(12).pack(&ConnectionHandle(0x040)).unwrap();
    out.set_bits(2).pack(&PacketBoundaryFlag::FirstFlushable).unwrap();
    out.set_bits(2).pack(&BroadcastFlag::BdEdrBroadcast).unwrap();
    assert_eq!(out.get_bytes(), &[0x40, 0x60]);
}

#[test]
fn test_enum_identifiers() {
    let mut packet = Packet::from_slice(&[0x03, 0x01, 0x07, 0x04, 0x01, 0x10, 0x02]);
    assert_eq!(packet.unpack::<ScanEnable>(), Ok(ScanEnable::InquiryScanEnabled_PageScanEnabled));
    assert_eq!(packet.unpack::<AddressType>(), Ok(AddressType::Random));
    assert_eq!(packet.unpack::<ClockAccuracy>(), Ok(ClockAccuracy::Ppm20));
    assert_eq!(packet.unpack::<IOCapability>(), Ok(IOCapability::KeyboardDisplay));
    assert_eq!(packet.unpack::<OOBDataFlag>(), Ok(OOBDataFlag::OobAvailable));
    assert_eq!(packet.unpack::<SmpPairingFailure>(), Ok(SmpPairingFailure::Busy));
    // An identifier that no variant has is an error, and nothing is consumed.
    assert_eq!(
        packet.unpack::<Role>(),
        Err(PacketError::Unspecified("No matching variant found for Role"))
    );
    assert_eq!(packet.unpack::<ScanEnable>(), Ok(ScanEnable::InquiryScanDisabled_PageScanEnabled));
    assert_eq!(
        packet.unpack::<Role>(),
        Err(PacketError::Unspecified("No matching variant found for Role"))
    );
}

#[test]
fn test_smp_pdu_pairing_request() {
    let data: [u8; 7] = [0x01, 0x04, 0x00, 0x2d, 0x10, 0x0e, 0x0f];
    let mut packet = Packet::from_slice(&data);
    let pdu = packet.unpack::<SmpPdu>().unwrap();
    let expected = SmpPdu::SmpPairingRequest {
        io_capability: IOCapability::KeyboardDisplay,
        oob_data_flag: OOBDataFlag::OobNotAvailable,
        authentication_requirements: AuthenticationRequirements {
            bonding: true,
            mitm_protection: true,
            secure_connections: true,
            keypress_notification: false,
            ct2: true,
            _reserved: 0,
        },
        max_encryption_key_size: 16,
        initiator_key_distribution: KeyDistributionFlags {
            enc_key: false,
            id_key: true,
            sign_key: true,
            link_key: true,
            _reserved: 0,
        },
        responder_key_distribution: KeyDistributionFlags {
            enc_key: true,
            id_key: true,
            sign_key: true,
            link_key: true,
            _reserved: 0,
        },
    };
    assert_eq!(pdu, expected);

    let mut out = Packet::new();
    out.pack(&expected).unwrap();
    assert_eq!(out.get_bytes(), &data);
}

#[test]
fn test_smp_pdu_values() {
    let mut out = Packet::new();
    out.pack(&SmpPdu::SmpPairingRandom { random_value: 0x0102 }).unwrap();
    let bytes = out.get_bytes().to_vec();
    assert_eq!(bytes.len(), 17);
    assert_eq!(&bytes[..3], &[0x04, 0x02, 0x01]);
    let mut packet = Packet::from_vec(bytes);
    assert_eq!(
        packet.unpack::<SmpPdu>(),
        Ok(SmpPdu::SmpPairingRandom { random_value: 0x0102 })
    );
    let mut short = Packet::from_slice(&[0x03, 0x01]);
    assert_eq!(short.unpack::<SmpPdu>(), Err(PacketError::NotEnoughBytes));
    let mut unknown = Packet::from_slice(&[0x09]);
    assert_eq!(
        unknown.unpack::<SmpPdu>(),
        Err(PacketError::Unspecified("No matching variant found for SmpPdu"))
    );
}

#[test]
fn test_smp_pdu_response_roundtrip_and_wide_reserved_bits() {
    let auth = AuthenticationRequirements {
        bonding: false,
        mitm_protection: true,
        secure_connections: false,
        keypress_notification: true,
        ct2: false,
        _reserved: 3,
    };
    let kd = KeyDistributionFlags {
        enc_key: true,
        id_key: false,
        sign_key: false,
        link_key: true,
        _reserved: 15,
    };
    let pdu = SmpPdu::SmpPairingResponse {
        io_capability: IOCapability::NoInputNoOutput,
        oob_data_flag: OOBDataFlag::OobAvailable,
        authentication_requirements: auth,
        max_encryption_key_size: 7,
        initiator_key_distribution: kd,
        responder_key_distribution: KeyDistributionFlags::default(),
    };
    let mut out = Packet::new();
    out.pack(&pdu).unwrap();
    let bytes = out.get_bytes().to_vec();
    assert_eq!(bytes, vec![0x02, 0x03, 0x01, 0xd4, 0x07, 0xf9, 0x00]);
    let mut back = Packet::from_vec(bytes);
    assert_eq!(back.unpack::<SmpPdu>(), Ok(pdu));

    // Reserved bits wider than their field are cut to the field.
    let wide = KeyDistributionFlags { _reserved: 0x1f, ..kd };
    let mut out = Packet::new();
    out.pack(&wide).unwrap();
    let bytes = out.get_bytes().to_vec();
    let mut back = Packet::from_vec(bytes);
    assert_eq!(back.unpack::<KeyDistributionFlags>(), Ok(kd));
}

#[test]
fn test_acl_header_flags_after_matched_boundary_flag() {
    // 12 bits of handle, then the packet boundary flag matched in place, then
    // the broadcast flag from the rest of the same byte.
    let mut packet = Packet::from_slice(&[0x40, 0x60]);
    let h: ConnectionHandle = packet.set_bits(12).unpack().unwrap();
    assert_eq!(h, ConnectionHandle(0x040));
    assert!(packet.set_bits(2).next_if_eq(&[0b10]));
    let bc: BroadcastFlag = packet.set_bits(2).unpack().unwrap();
    assert_eq!(bc, BroadcastFlag::BdEdrBroadcast);
}
