use bt_only_headers::event::{AddressType, ClockAccuracy, HciEventMsg, HciStatus, Role};
#[test]
fn test_known_byte_array_complete_event() {
    let le_complete_event_ex1: [u8; 6] = [0xe, 0x4, 0x1, 0x3, 0xc, 0x0];
    let value = HciEventMsg::from_bytes(&le_complete_event_ex1).unwrap();
    let expected = HciEventMsg::CommandComplete {
        num_hci_command_packets: 0x1,
        command_opcode: 0x0c03,
        return_parameters: vec![0x0],
    };
    assert_eq!(value, expected);

    // Serialize back to bytes and check if it matches the original
    let serialized = value.to_bytes().unwrap();
    assert_eq!(&serialized, &le_complete_event_ex1);
}

#[test]
fn test_known_byte_array_le_connection_complete() {
    let le_connection_complete_ex1: [u8; 21] = [
        0x3e, 0x13, 0x1, 0x0, 0x40, 0x0, 0x1, 0x0, 0x26, 0xe, 0xd6, 0xe8, 0xc2, 0x50, 0x30,
        0x0, 0x0, 0x0, 0xc0, 0x3, 0x1,
    ];

    let value = HciEventMsg::from_bytes(&le_connection_complete_ex1).unwrap();
    let expected = HciEventMsg::LeConnectionComplete {
        status: HciStatus::Success,
        connection_handle: 0x0040,
        role: Role::Peripheral,
        peer_address_type: AddressType::Public,
        peer_address: [0x26, 0xe, 0xd6, 0xe8, 0xc2, 0x50],
        connection_interval: 48,
        peripheral_latency: 0,
        supervision_timeout: 960,
        central_clock_accuracy: ClockAccuracy::Ppm250,
    };
    assert_eq!(value, expected);

    // Serialize back to bytes and check if it matches the original
    let serialized = value.to_bytes().unwrap();
    assert_eq!(&serialized, &le_connection_complete_ex1);
}

#[test]
fn test_known_byte_array_command_status() {
    let command_status_ex1: [u8; 6] = [0xf, 0x4, 0x0, 0x1, 0x25, 0x20];
    let value = HciEventMsg::from_bytes(&command_status_ex1).unwrap();
    let expected = HciEventMsg::CommandStatus {
        status: HciStatus::Success,
        num_hci_command_packets: 0x1,
        command_opcode: 0x2025,
    };
    assert_eq!(value, expected);

    // Serialize back to bytes and check if it matches the original
    let serialized = value.to_bytes().unwrap();
    assert_eq!(&serialized, &command_status_ex1);
}
