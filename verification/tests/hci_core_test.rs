use bt_only_headers::hci_core::{BdAddr, HciCommand, HciEventMsg, OpCode};
use bt_only_headers::hci_types::{AddressType, ClockAccuracy, HciStatus, Role, ScanEnable};
use bt_only_headers::packer::{FixedSizeUtf8, FromToPacket, Packet, PacketError};

fn write_name_bytes() -> Vec<u8> {
    let mut bytes = vec![0x13, 0xc, 0xf8, 0x4d, 0x79, 0x20, 0x50, 0x69];
    bytes.resize(3 + 248, 0);
    bytes
}

#[test]
fn deserialize_write_name() {
    let data = write_name_bytes();
    assert_eq!(data.len(), 251);
    let mut packet = Packet::from_slice(&data);
    let msg = packet.unpack::<HciCommand>().unwrap();
    if let HciCommand::WriteLocalName(name) = msg {
        assert_eq!(name.get(), "My Pi");
    } else {
        panic!("Expected WriteLocalName");
    }
}

#[test]
fn serialize_write_name() {
    let mut packet = Packet::new();
    packet
        .pack(&HciCommand::WriteLocalName(FixedSizeUtf8::<248>::new("My Pi")))
        .unwrap();
    assert_eq!(&write_name_bytes()[..], packet.get_bytes());
}

#[test]
fn test_hci_command_reset() {
    let mut packet = Packet::from_slice(&[0x03, 0x0C, 0x00]);
    let handle = HciCommand::from_packet(&mut packet).unwrap();
    assert_eq!(handle, HciCommand::Reset);

    let mut packet = Packet::new();
    packet.pack(&HciCommand::Reset).unwrap();
    assert_eq!(packet.get_bytes(), &[0x03, 0x0C, 0x00]);
}

#[test]
fn test_hci_command_set_event_mask() {
    let mut packet =
        Packet::from_slice(&[0x1, 0xc, 0x8, 0xff, 0xff, 0xfb, 0xff, 0x7, 0xf8, 0xbf, 0x3d]);
    let handle = HciCommand::from_packet(&mut packet).unwrap();
    assert_eq!(
        handle,
        HciCommand::SetEventMask {
            event_mask: 4449547670108504063
        }
    );

    let mut packet = Packet::new();
    packet
        .pack(&HciCommand::SetEventMask {
            event_mask: 4449547670108504063,
        })
        .unwrap();
    assert_eq!(
        packet.get_bytes(),
        &[0x01, 0x0c, 0x08, 0xff, 0xff, 0xfb, 0xff, 0x7, 0xf8, 0xbf, 0x3d]
    );
}

#[test]
fn test_hci_command_each_opcode_roundtrips() {
    let commands = vec![
        HciCommand::Reset,
        HciCommand::SetEventMask { event_mask: 1 },
        HciCommand::LeSetEventMask { event_mask: 0x1f },
        HciCommand::WriteScanEnable(ScanEnable::InquiryScanDisabled_PageScanEnabled),
        HciCommand::WriteConnectionAcceptTimeout(0x7d00),
        HciCommand::WritePageTimeout(0x2000),
        HciCommand::ReadLocalSupportedCommands,
        HciCommand::ReadBdAddr,
        HciCommand::LeReadBufferSize,
        HciCommand::WriteLocalName(FixedSizeUtf8::new("Pi")),
        HciCommand::ReadLocalName {
            status: HciStatus::Failure(3),
            name: FixedSizeUtf8::new("Keyboard"),
        },
    ];
    for cmd in commands {
        let mut packet = Packet::new();
        packet.pack(&cmd).unwrap();
        let bytes = packet.get_bytes().to_vec();
        assert_eq!(bytes[2] as usize, bytes.len() - 3);
        let mut packet = Packet::from_slice(&bytes);
        assert_eq!(HciCommand::from_packet(&mut packet).unwrap(), cmd);
    }
}

#[test]
fn test_hci_command_read_local_name_layout() {
    let mut packet = Packet::new();
    packet
        .pack(&HciCommand::ReadLocalName {
            status: HciStatus::Success,
            name: FixedSizeUtf8::new("A"),
        })
        .unwrap();
    let bytes = packet.get_bytes();
    assert_eq!(&bytes[..5], &[0x14, 0x0c, 249, 0x00, b'A']);
    assert_eq!(bytes.len(), 3 + 1 + 248);
}

#[test]
fn test_hci_command_unknown_opcode_and_short_input() {
    let mut packet = Packet::from_slice(&[0x05, 0x04, 0x00]);
    assert_eq!(
        HciCommand::from_packet(&mut packet),
        Err(PacketError::Unspecified("No matching variant found for HciCommand"))
    );

    let mut packet = Packet::from_slice(&[0x01, 0x0c, 0x08, 0xff]);
    assert_eq!(HciCommand::from_packet(&mut packet), Err(PacketError::NotEnoughBytes));

    let mut packet = Packet::from_slice(&[0x13, 0x0c, 0x04, 0xff, 0xfe]);
    assert_eq!(HciCommand::from_packet(&mut packet), Err(PacketError::NotEnoughBytes));
}

#[test]
fn test_write_name_rejects_invalid_utf8() {
    let mut data = write_name_bytes();
    data[3] = 0xff;
    let mut packet = Packet::from_slice(&data);
    assert_eq!(HciCommand::from_packet(&mut packet), Err(PacketError::InvalidBytes));
}

#[test]
fn test_event() {
    const DATA: [u8; 21] = [
        0x3e, 0x13, 0x1, 0x0, 0x40, 0x0, 0x1, 0x0, 0x26, 0xe, 0xd6, 0xe8, 0xc2, 0x50, 0x30, 0x0,
        0x0, 0x0, 0xc0, 0x3, 0x1,
    ];
    let mut packet = Packet::from_slice(&DATA);
    let msg = HciEventMsg::from_packet(&mut packet).unwrap();

    let expected = HciEventMsg::LeConnectionComplete {
        status: HciStatus::Success,
        connection_handle: 0x0040,
        role: Role::Peripheral,
        peer_address_type: AddressType::Public,
        peer_address: [0x26, 0xe, 0xd6, 0xe8, 0xc2, 0x50],
        connection_interval: 48,
        peripheral_latency: 0,
        supervision_timeout: 960,
        central_clock_accuracy: ClockAccuracy::Ppm250,
    };
    assert_eq!(msg, expected);
}

#[test]
fn test_event_writes_back_its_bytes() {
    const DATA: [u8; 21] = [
        0x3e, 0x13, 0x1, 0x0, 0x40, 0x0, 0x1, 0x0, 0x26, 0xe, 0xd6, 0xe8, 0xc2, 0x50, 0x30, 0x0,
        0x0, 0x0, 0xc0, 0x3, 0x1,
    ];
    let mut packet = Packet::from_slice(&DATA);
    let msg = HciEventMsg::from_packet(&mut packet).unwrap();
    let mut out = Packet::new();
    out.pack(&msg).unwrap();
    assert_eq!(out.get_bytes(), &DATA[..]);
}

#[test]
fn test_command_complete_and_status_events() {
    let mut packet = Packet::from_slice(&[0x0E, 0x04, 0x01, 0x03, 0x0C, 0x00]);
    assert_eq!(
        HciEventMsg::from_packet(&mut packet).unwrap(),
        HciEventMsg::CommandComplete {
            num_hci_command_packets: 1,
            command_opcode: 0x0C03,
            status: HciStatus::Success,
        }
    );

    let mut packet = Packet::from_slice(&[0x0F, 0x04, 0x0C, 0x01, 0x06, 0x04]);
    assert_eq!(
        HciEventMsg::from_packet(&mut packet).unwrap(),
        HciEventMsg::CommandStatus {
            status: HciStatus::Failure(0x0C),
            num_hci_command_packets: 1,
            command_opcode: 0x0406,
        }
    );

    let mut out = Packet::new();
    out.pack(&HciEventMsg::CommandStatus {
        status: HciStatus::Failure(0x0C),
        num_hci_command_packets: 1,
        command_opcode: 0x0406,
    })
    .unwrap();
    assert_eq!(out.get_bytes(), &[0x0F, 0x04, 0x0C, 0x01, 0x06, 0x04]);
}

#[test]
fn test_event_unknown_and_truncated() {
    let mut packet = Packet::from_slice(&[0x05, 0x04, 0x00]);
    assert_eq!(
        HciEventMsg::from_packet(&mut packet),
        Err(PacketError::Unspecified("No matching variant found for HciEventMsg"))
    );
    let mut packet = Packet::from_slice(&[0x3e, 0x13, 0x01, 0x00, 0x40]);
    assert_eq!(HciEventMsg::from_packet(&mut packet), Err(PacketError::NotEnoughBytes));
    let mut packet = Packet::from_slice(&[0x3e, 0x13, 0x01, 0x00, 0x40, 0x00, 0x07]);
    assert_eq!(
        HciEventMsg::from_packet(&mut packet),
        Err(PacketError::Unspecified("No matching variant found for Role"))
    );
}

#[test]
fn test_opcode_bits() {
    // HCI Reset: OCF 0x0003, OGF 0x03 -> 0x0C03 little endian
    let mut packet = Packet::new();
    packet.pack(&OpCode(0x0003, 0x03)).unwrap();
    assert_eq!(packet.get_bytes(), &[0x03, 0x0C]);

    let mut packet = Packet::from_slice(&[0x06, 0x04]);
    assert_eq!(OpCode::from_packet(&mut packet).unwrap(), OpCode(0x0006, 0x01));

    let mut packet = Packet::from_slice(&[0x1A, 0x20]);
    assert_eq!(OpCode::from_packet(&mut packet).unwrap(), OpCode(0x001A, 0x08));
}

#[test]
fn test_bd_addr() {
    let addr = BdAddr([1, 2, 3, 4, 5, 6]);
    let mut packet = Packet::new();
    packet.pack(&addr).unwrap();
    assert_eq!(packet.get_bytes(), &[1, 2, 3, 4, 5, 6]);
    let mut packet = Packet::from_slice(&[1, 2, 3, 4, 5, 6, 7]);
    assert_eq!(BdAddr::from_packet(&mut packet).unwrap(), addr);
    let mut packet = Packet::from_slice(&[1, 2, 3]);
    assert_eq!(BdAddr::from_packet(&mut packet), Err(PacketError::NotEnoughBytes));
}

#[test]
fn test_event_roundtrip_each_kind() {
    let events = vec![
        HciEventMsg::LeConnectionComplete {
            status: HciStatus::Failure(0x3e),
            connection_handle: 0x0eff,
            role: Role::Central,
            peer_address_type: AddressType::Random,
            peer_address: [1, 2, 3, 4, 5, 6],
            connection_interval: 6,
            peripheral_latency: 499,
            supervision_timeout: 3200,
            central_clock_accuracy: ClockAccuracy::Ppm20,
        },
        HciEventMsg::CommandComplete {
            num_hci_command_packets: 5,
            command_opcode: 0x2002,
            status: HciStatus::Success,
        },
        HciEventMsg::CommandStatus {
            status: HciStatus::Failure(1),
            num_hci_command_packets: 0,
            command_opcode: 0xffff,
        },
    ];
    for e in events {
        let mut out = Packet::new();
        out.pack(&e).unwrap();
        let bytes = out.get_bytes().to_vec();
        let mut back = Packet::from_slice(&bytes);
        assert_eq!(HciEventMsg::from_packet(&mut back).unwrap(), e);
    }
}

#[test]
fn test_status_failure_zero_reads_as_success() {
    let e = HciEventMsg::CommandStatus {
        status: HciStatus::Failure(0),
        num_hci_command_packets: 1,
        command_opcode: 0x0c03,
    };
    let mut out = Packet::new();
    out.pack(&e).unwrap();
    let bytes = out.get_bytes().to_vec();
    let mut back = Packet::from_slice(&bytes);
    assert_eq!(
        HciEventMsg::from_packet(&mut back).unwrap(),
        HciEventMsg::CommandStatus {
            status: HciStatus::Success,
            num_hci_command_packets: 1,
            command_opcode: 0x0c03,
        }
    );
}

#[test]
fn test_fixed_utf8_roundtrip_and_nul() {
    let mut out = Packet::new();
    out.pack(&FixedSizeUtf8::<8>::new("héllo")).unwrap();
    let bytes = out.get_bytes().to_vec();
    assert_eq!(bytes.len(), 8);
    assert_eq!(&bytes[..6], "héllo".as_bytes());
    let mut back = Packet::from_slice(&bytes);
    assert_eq!(back.unpack::<FixedSizeUtf8<8>>().unwrap().get(), "héllo");

    // A NUL ends the string when it is read back.
    let mut out = Packet::new();
    out.pack(&FixedSizeUtf8::<8>::new("ab\0cd")).unwrap();
    let bytes = out.get_bytes().to_vec();
    let mut back = Packet::from_slice(&bytes);
    assert_eq!(back.unpack::<FixedSizeUtf8<8>>().unwrap().get(), "ab");

    // A string that fills the field exactly has no terminating zero.
    let mut back = Packet::from_slice(b"abcdefgh");
    assert_eq!(back.unpack::<FixedSizeUtf8<8>>().unwrap().get(), "abcdefgh");
}

#[test]
fn test_opcode_roundtrip_edges() {
    for op in [OpCode(0, 0), OpCode(0x3ff, 0x3f), OpCode(0x155, 0x2a)] {
        let mut out = Packet::new();
        out.pack(&op).unwrap();
        let bytes = out.get_bytes().to_vec();
        assert_eq!(bytes.len(), 2);
        assert_eq!(bytes[0] as u16 | ((bytes[1] as u16) << 8), op.0 | (op.1 << 10));
        let mut back = Packet::from_vec(bytes);
        assert_eq!(back.unpack::<OpCode>(), Ok(op));
    }
    // Numbers wider than their fields keep only their low bits.
    let mut out = Packet::new();
    out.pack(&OpCode(0x401, 0x41)).unwrap();
    let bytes = out.get_bytes().to_vec();
    let mut back = Packet::from_vec(bytes);
    assert_eq!(back.unpack::<OpCode>(), Ok(OpCode(0x001, 0x01)));
}

#[test]
fn test_command_length_byte_counts_parameters() {
    let cases: Vec<(HciCommand, u8)> = vec![
        (HciCommand::Reset, 0),
        (HciCommand::LeSetEventMask { event_mask: 0 }, 8),
        (HciCommand::WriteScanEnable(ScanEnable::NoScans), 1),
        (HciCommand::WritePageTimeout(1), 2),
        (HciCommand::WriteLocalName(FixedSizeUtf8::new("")), 248),
    ];
    for (cmd, len) in cases {
        let mut out = Packet::new();
        out.pack(&cmd).unwrap();
        let bytes = out.get_bytes().to_vec();
        assert_eq!(bytes[2], len);
        assert_eq!(bytes.len(), 3 + len as usize);
    }
}
