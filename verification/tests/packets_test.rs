use bt_only_headers::packets::{
    AttPdu, BroadcastFlag, HciAclData, HciCommand, HciEvent, HciPacket, L2capPacket,
    PacketBoundaryFlag, ParseError, SmpPdu,
};
#[test]
fn test_parse_hci_command() {
    let data: Vec<u8> = vec![0x01, 0x03, 0x0C, 0x00];
    let result = HciPacket::from_bytes(&data).unwrap();
    match result {
        HciPacket::Command(cmd) => {
            assert_eq!(cmd.opcode, 0x0C03);
            assert_eq!(cmd.data.len(), 0);
        }
        _ => panic!("Expected HciCommand"),
    }
}

#[test]
fn test_parse_hci_command_with_params() {
    let data_params: Vec<u8> = vec![0x01, 0xCD, 0xAB, 0x02, 0xFE, 0xDC];
    let result_params = HciPacket::from_bytes(&data_params).unwrap();
    match result_params {
        HciPacket::Command(cmd) => {
            assert_eq!(cmd.opcode, 0xABCD);
            assert_eq!(cmd.data, vec![0xFE, 0xDC]);
        }
        _ => panic!("Expected HciCommand with params"),
    }
}

#[test]
fn test_parse_hci_event() {
    let data: Vec<u8> = vec![0x04, 0x05, 0x04, 0x00, 0x40, 0x00, 0x13];
    let result = HciPacket::from_bytes(&data).unwrap();
    match result {
        HciPacket::Event(evt) => {
            assert_eq!(evt.event_code, 0x05);
            assert_eq!(evt.data.len(), 4);
            assert_eq!(evt.data, vec![0x00, 0x40, 0x00, 0x13]);
        }
        _ => panic!("Expected HciEvent"),
    }
}

#[test]
fn test_parse_hci_acl_data() {
    let att_handle: u16 = 0x001A;
    let att_value: Vec<u8> = vec![0x01];
    let att_payload: Vec<u8> =
        [&[0x12], &att_handle.to_le_bytes()[..], &att_value[..]].concat();
    let l2cap_payload_len: u16 = att_payload.len() as u16; // 4
    let l2cap_cid: u16 = 0x0004; // ATT
    let l2cap_pdu: Vec<u8> = [
        &l2cap_payload_len.to_le_bytes()[..],
        &l2cap_cid.to_le_bytes()[..],
        &att_payload[..],
    ]
    .concat();
    let hci_total_data_len: u16 = l2cap_pdu.len() as u16; // 8
    let handle: u16 = 0x0040;
    let data: Vec<u8> = vec![
        0x02,
        (handle & 0x0FFF).to_le_bytes()[0],
        (handle & 0x0FFF).to_le_bytes()[1],
        hci_total_data_len.to_le_bytes()[0],
        hci_total_data_len.to_le_bytes()[1],
        l2cap_pdu[0],
        l2cap_pdu[1],
        l2cap_pdu[2],
        l2cap_pdu[3],
        l2cap_pdu[4],
        l2cap_pdu[5],
        l2cap_pdu[6],
        l2cap_pdu[7],
    ];

    let result = HciPacket::from_bytes(&data).unwrap(); // Use the main entry point
    match result {
        HciPacket::AclData(acl) => {
            assert_eq!(acl.handle, handle);
            let cid = acl.data.channel_id();
            match acl.data {
                L2capPacket::Att(att) => {
                    assert_eq!(cid, l2cap_cid);
                    assert_eq!(att.opcode, 0x12);
                    let expected_att_data =
                        [&att_handle.to_le_bytes()[..], &att_value[..]].concat();
                    assert_eq!(att.data, expected_att_data);
                }
                _ => panic!("Expected ATT PDU"),
            }
        }
        _ => panic!("Expected ACL Data Packet"),
    }
}
#[test]
fn test_parse_unknown_packet() {
    let data: Vec<u8> = vec![0x08, 0x01, 0x02, 0x03];
    let result = HciPacket::from_bytes(&data).unwrap();
    match result {
        HciPacket::Unknown(packet_type, payload) => {
            assert_eq!(packet_type, 0x08);
            assert_eq!(payload, vec![0x01, 0x02, 0x03]);
        }
        _ => panic!("Expected Unknown packet"),
    }
}

#[test]
fn test_insufficient_data_hci_header() {
    assert!(matches!(
        HciPacket::from_bytes(&[0x01]),
        Err(ParseError::InsufficientData)
    )); // Only type
    assert!(matches!(
        HciPacket::from_bytes(&[0x01, 0x03]),
        Err(ParseError::InsufficientData)
    )); // Too short for command payload hdr
    assert!(matches!(
        HciPacket::from_bytes(&[0x02, 0x40, 0x00]),
        Err(ParseError::InsufficientData)
    )); // Too short for ACL payload hdr
    assert!(matches!(
        HciPacket::from_bytes(&[0x04]),
        Err(ParseError::InsufficientData)
    )); // Only type
    assert!(matches!(
        HciPacket::from_bytes(&[0x04, 0x05]),
        Err(ParseError::InsufficientData)
    )); // Too short for Event payload hdr
}

#[test]
fn test_insufficient_data_hci_payload() {
    assert!(matches!(
        HciPacket::from_bytes(&[0x01, 0xCD, 0xAB, 0x02, 0xFE]),
        Err(ParseError::InsufficientData)
    )); // Command payload short
    assert!(matches!(
        HciPacket::from_bytes(&[0x04, 0x05, 0x04, 0x00, 0x40, 0x00]),
        Err(ParseError::InsufficientData)
    )); // Event payload short
    let data3: Vec<u8> = vec![0x02, 0x40, 0x00, 8, 0, 4, 0, 4, 0, 0x12, 0x1A, 0x00]; // ACL payload (L2CAP part) short
    assert!(matches!(
        HciPacket::from_bytes(&data3),
        Err(ParseError::InsufficientData)
    ));
}

#[test]
fn test_insufficient_data_l2cap() {
    let data: Vec<u8> = vec![0x02, 0x40, 0x00, 8, 0, 5, 0, 4, 0, 0x12, 0x1A, 0x00, 0x01]; // L2CAP hdr says len=5, but only 4 bytes follow CID
    assert!(matches!(
        HciPacket::from_bytes(&data),
        Err(ParseError::InsufficientData)
    ));

    let data2: Vec<u8> = vec![0x02, 0x40, 0x00, 3, 0, 0, 0, 0]; // HCI ACL payload len = 3, too short for L2CAP header
    assert!(matches!(
        HciPacket::from_bytes(&data2),
        Err(ParseError::InsufficientData)
    ));
}

#[test]
fn test_insufficient_data_att_smp() {
    // L2CAP header okay (len=0), but ATT requires opcode
    let data_att: Vec<u8> = vec![0x02, 0x40, 0x00, 4, 0, 0, 0, 4, 0];
    assert!(matches!(
        HciPacket::from_bytes(&data_att),
        Err(ParseError::InsufficientData)
    ));

    // L2CAP header okay (len=0), but SMP requires code
    let data_smp: Vec<u8> = vec![0x02, 0x40, 0x00, 4, 0, 0, 0, 6, 0];
    assert!(matches!(
        HciPacket::from_bytes(&data_smp),
        Err(ParseError::InsufficientData)
    ));
}

// --- SERIALIZATION TESTS ---

#[test]
fn test_serialize_hci_command() {
    let cmd = HciCommand {
        opcode: 0x0C03,
        data: vec![],
    };
    assert_eq!(cmd.to_bytes(), vec![0x03, 0x0C, 0x00]);
    assert_eq!(
        HciPacket::Command(cmd).to_bytes(),
        vec![0x01, 0x03, 0x0C, 0x00]
    );

    let cmd_params = HciCommand {
        opcode: 0xABCD,
        data: vec![0xFE, 0xDC],
    };
    assert_eq!(cmd_params.to_bytes(), vec![0xCD, 0xAB, 0x02, 0xFE, 0xDC]);
    assert_eq!(
        HciPacket::Command(cmd_params).to_bytes(),
        vec![0x01, 0xCD, 0xAB, 0x02, 0xFE, 0xDC]
    );
}

#[test]
fn test_serialize_hci_event() {
    let evt = HciEvent {
        event_code: 0x05,
        data: vec![0x00, 0x40, 0x00, 0x13],
    };
    assert_eq!(evt.to_bytes(), vec![0x05, 0x04, 0x00, 0x40, 0x00, 0x13]);
    assert_eq!(
        HciPacket::Event(evt).to_bytes(),
        vec![0x04, 0x05, 0x04, 0x00, 0x40, 0x00, 0x13]
    );
}

#[test]
fn test_serialize_hci_acl_data() {
    let att_handle = 0x001A_u16;
    let att_value = vec![0x01];
    let att_pdu = AttPdu {
        opcode: 0x12,
        data: [&att_handle.to_le_bytes()[..], &att_value[..]].concat(),
    };
    let l2cap_packet = L2capPacket::Att(att_pdu);
    let acl_packet = HciAclData {
        handle: 0x0040,
        pb: PacketBoundaryFlag::FirstNonFlushable,
        bc: BroadcastFlag::PointToPoint,
        data: l2cap_packet,
    };
    assert_eq!(
        acl_packet.to_bytes(),
        vec![0x40, 0x00, 8, 0, 4, 0, 4, 0, 0x12, 0x1A, 0x00, 0x01]
    );
    assert_eq!(
        HciPacket::AclData(acl_packet).to_bytes(),
        vec![0x02, 0x40, 0x00, 8, 0, 4, 0, 4, 0, 0x12, 0x1A, 0x00, 0x01]
    );
}

#[test]
fn test_serialize_hci_unknown_packet() {
    let unknown_packet = HciPacket::Unknown(0x99, vec![0x01, 0x02, 0x03]);
    assert_eq!(unknown_packet.to_bytes(), vec![0x99, 0x01, 0x02, 0x03]);
}

#[test]
fn test_serialize_att_pdu() {
    let att_handle = 0x001A_u16;
    let att_value = vec![0x01];
    let att_pdu = AttPdu {
        opcode: 0x12,
        data: [&att_handle.to_le_bytes()[..], &att_value[..]].concat(),
    };
    let expected_bytes: Vec<u8> = vec![0x12, 0x1A, 0x00, 0x01];
    assert_eq!(att_pdu.to_bytes(), expected_bytes);
}

#[test]
fn test_serialize_smp_pdu() {
    let smp_pdu = SmpPdu {
        code: 0x01,
        data: vec![0x02, 0x03, 0x04],
    };
    let expected_bytes: Vec<u8> = vec![0x01, 0x02, 0x03, 0x04];
    assert_eq!(smp_pdu.to_bytes(), expected_bytes);
}

#[test]
fn test_serialize_l2cap_packet() {
    let att_handle = 0x001A_u16;
    let att_value = vec![0x01];
    let att_pdu = AttPdu {
        opcode: 0x12,
        data: [&att_handle.to_le_bytes()[..], &att_value[..]].concat(),
    };
    let l2cap_packet = L2capPacket::Att(att_pdu);
    assert_eq!(
        l2cap_packet.to_bytes(),
        vec![4, 0, 4, 0, 0x12, 0x1A, 0x00, 0x01]
    );

    let smp_pdu = SmpPdu {
        code: 0x01,
        data: vec![0x02, 0x03, 0x04],
    };
    let l2cap_packet_smp = L2capPacket::Smp(smp_pdu);
    assert_eq!(
        l2cap_packet_smp.to_bytes(),
        vec![4, 0, 6, 0, 0x01, 0x02, 0x03, 0x04]
    );

    let unknown_data = vec![0xAA, 0xBB, 0xCC];
    let l2cap_packet_unknown = L2capPacket::Unknown(0x00F0, unknown_data.clone());
    assert_eq!(
        l2cap_packet_unknown.to_bytes(),
        vec![3, 0, 0xF0, 0, 0xAA, 0xBB, 0xCC]
    );
}

// --- Round trip tests (serialize then parse) ---

#[test]
fn test_round_trip_command() {
    let original = HciPacket::Command(HciCommand {
        opcode: 0x1001,
        data: vec![],
    });
    let bytes = original.to_bytes();
    let parsed = HciPacket::from_bytes(&bytes).unwrap();
    assert_eq!(original, parsed);
    assert_eq!(bytes, parsed.to_bytes());
}

#[test]
fn test_round_trip_event() {
    let original = HciPacket::Event(HciEvent {
        event_code: 0x0E,
        data: vec![0x01, 0x01, 0x10, 0x00, 0x01, 0x02, 0x03, 0x04],
    });
    let bytes = original.to_bytes();
    let parsed = HciPacket::from_bytes(&bytes).unwrap();
    assert_eq!(original, parsed);
    assert_eq!(bytes, parsed.to_bytes());
}

#[test]
fn test_round_trip_acl_att() {
    let att_handle = 0x002B_u16;
    let att_value = vec![0x02, 0x03];
    let att_pdu = AttPdu {
        opcode: 0x52,
        data: [&att_handle.to_le_bytes()[..], &att_value[..]].concat(),
    };
    let l2cap_packet = L2capPacket::Att(att_pdu);
    let original = HciPacket::AclData(HciAclData {
        handle: 0x0055,
        pb: PacketBoundaryFlag::FirstNonFlushable,
        bc: BroadcastFlag::PointToPoint,
        data: l2cap_packet,
    });

    let bytes = original.to_bytes();
    let parsed = HciPacket::from_bytes(&bytes).unwrap();
    assert_eq!(&original, &parsed);
    assert_eq!(bytes, parsed.to_bytes());
}

#[test]
fn test_round_trip_acl_smp() {
    let smp_pdu = SmpPdu {
        code: 0x02,
        data: vec![0x11, 0x22, 0x33],
    };
    let l2cap_packet = L2capPacket::Smp(smp_pdu);
    let original = HciPacket::AclData(HciAclData {
        handle: 0x0066,
        pb: PacketBoundaryFlag::FirstNonFlushable,
        bc: BroadcastFlag::PointToPoint,
        data: l2cap_packet,
    });

    let bytes = original.to_bytes();
    let parsed = HciPacket::from_bytes(&bytes).unwrap();
    assert_eq!(&original, &parsed);
    assert_eq!(bytes, parsed.to_bytes());
}

#[test]
fn test_pb_bc_flag_parse() {
    {
        let data: Vec<u8> = vec![0x02, 0x40, 0x00, 8, 0, 4, 0, 4, 0, 0x12, 0x1A, 0x00, 0x00];
        let res = HciPacket::from_bytes(&data).unwrap();
        match res {
            HciPacket::AclData(acl) => {
                assert_eq!(acl.handle, 0x0040);
                assert_eq!(acl.pb, PacketBoundaryFlag::FirstNonFlushable);
                assert_eq!(acl.bc, BroadcastFlag::PointToPoint);
            }
            _ => panic!("Expected ACL Data Packet"),
        }
    }

    {
        let data: Vec<u8> = vec![
            0x2, 0x40, 0x10, 0x7, 0x0, 0x3, 0x0, 0x4, 0x0, 0xa, 0x17, 0x0,
        ];
        let res = HciPacket::from_bytes(&data).unwrap();
        match res {
            HciPacket::AclData(acl) => {
                assert_eq!(acl.handle, 0x0040);
                assert_eq!(acl.pb, PacketBoundaryFlag::Continuation);
                assert_eq!(acl.bc, BroadcastFlag::PointToPoint);
            }
            _ => panic!("Expected ACL Data Packet"),
        }
    }
    {
        let data: Vec<u8> = vec![
            0x2, 0x40, 0x20, 0x7, 0x0, 0x3, 0x0, 0x4, 0x0, 0xa, 0x17, 0x0,
        ];
        let res = HciPacket::from_bytes(&data).unwrap();
        match res {
            HciPacket::AclData(acl) => {
                assert_eq!(acl.handle, 0x0040);
                assert_eq!(acl.pb, PacketBoundaryFlag::FirstFlushable);
                assert_eq!(acl.bc, BroadcastFlag::PointToPoint);
            }
            _ => panic!("Expected ACL Data Packet"),
        }
    }
    {
        let data: Vec<u8> = vec![
            0x2, 0x40, 0x30, 0x7, 0x0, 0x3, 0x0, 0x4, 0x0, 0xa, 0x17, 0x0,
        ];
        let res = HciPacket::from_bytes(&data).unwrap();
        match res {
            HciPacket::AclData(acl) => {
                assert_eq!(acl.handle, 0x0040);
                assert_eq!(acl.pb, PacketBoundaryFlag::Deprecated);
                assert_eq!(acl.bc, BroadcastFlag::PointToPoint);
            }
            _ => panic!("Expected ACL Data Packet"),
        }
    }
    {
        let data: Vec<u8> = vec![0x02, 0x40, 0x40, 8, 0, 4, 0, 4, 0, 0x12, 0x1A, 0x00, 0x00];
        let res = HciPacket::from_bytes(&data).unwrap();
        match res {
            HciPacket::AclData(acl) => {
                assert_eq!(acl.handle, 0x0040);
                assert_eq!(acl.pb, PacketBoundaryFlag::FirstNonFlushable);
                assert_eq!(acl.bc, BroadcastFlag::BdEdrBroadcast);
            }
            _ => panic!("Expected ACL Data Packet"),
        }
    }
}

#[test]
fn test_pb_bc_serialize_flags() {
    {
        assert_eq!(
            HciAclData {
                handle: 0x0040,
                pb: PacketBoundaryFlag::FirstNonFlushable,
                bc: BroadcastFlag::PointToPoint,
                data: L2capPacket::Unknown(0xBEEF, vec![]),
            }
            .to_bytes(),
            vec![0x40, 0x00, 0x04, 0x00, 0x00, 0x00, 0xEF, 0xBE]
        );
    }
    {
        assert_eq!(
            HciAclData {
                handle: 0x0040,
                pb: PacketBoundaryFlag::Continuation,
                bc: BroadcastFlag::PointToPoint,
                data: L2capPacket::Unknown(0xBEEF, vec![]),
            }
            .to_bytes(),
            vec![0x40, 0x10, 0x04, 0x00, 0x00, 0x00, 0xEF, 0xBE]
        );
    }
    {
        assert_eq!(
            HciAclData {
                handle: 0x0040,
                pb: PacketBoundaryFlag::FirstFlushable,
                bc: BroadcastFlag::PointToPoint,
                data: L2capPacket::Unknown(0xBEEF, vec![]),
            }
            .to_bytes(),
            vec![0x40, 0x20, 0x04, 0x00, 0x00, 0x00, 0xEF, 0xBE]
        );
    }
    {
        assert_eq!(
            HciAclData {
                handle: 0x0040,
                pb: PacketBoundaryFlag::Deprecated,
                bc: BroadcastFlag::PointToPoint,
                data: L2capPacket::Unknown(0xBEEF, vec![]),
            }
            .to_bytes(),
            vec![0x40, 0x30, 0x04, 0x00, 0x00, 0x00, 0xEF, 0xBE]
        );
    }
    {
        assert_eq!(
            HciAclData {
                handle: 0x0040,
                pb: PacketBoundaryFlag::FirstNonFlushable,
                bc: BroadcastFlag::BdEdrBroadcast,
                data: L2capPacket::Unknown(0xBEEF, vec![]),
            }
            .to_bytes(),
            vec![0x40, 0x40, 0x04, 0x00, 0x00, 0x00, 0xEF, 0xBE]
        );
    }
}

#[test]
fn test_pdu_bytes_roundtrip() {
    let att = AttPdu { opcode: 0x02, data: vec![0x17, 0x00] };
    assert_eq!(AttPdu::from_bytes(&att.to_bytes()), Ok(att.clone()));
    let smp = SmpPdu { code: 0x05, data: vec![] };
    assert_eq!(SmpPdu::from_bytes(&smp.to_bytes()), Ok(smp.clone()));
    assert_eq!(SmpPdu::from_bytes(&[0x05]).unwrap().to_bytes(), vec![0x05]);
    assert_eq!(AttPdu::from_bytes(&[]), Err(ParseError::InsufficientData));
    assert_eq!(SmpPdu::from_bytes(&[]), Err(ParseError::InsufficientData));
}
