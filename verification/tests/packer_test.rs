use bt_only_headers::packer::{get_bits_le, set_bits_le, Packet, PacketError};

#[test]
fn test_set_bits_example1() {
    let mut bytes = vec![0x00, 0x00];
    set_bits_le(&mut bytes, (12, 13), &[0b10_u8, 0x00]);
    set_bits_le(&mut bytes, (0, 11), &0x040_u16.to_le_bytes());
    assert_eq!(bytes, &[0x40, 0x20]);
}

#[test]
fn test_set_bits_u16_le() {
    let mut bytes = 0xBEEFu16.to_le_bytes();
    set_bits_le(&mut bytes, (0, 15), &[0xFE, 0xCA]);
    let res = u16::from_le_bytes(bytes);
    assert_eq!(res, 0xCAFE);
}

#[test]
fn test_set_bits_u16_le_2() {
    let val = 0xBEEF_u16;
    let mut bytes = val.to_le_bytes();
    set_bits_le(&mut bytes, (0, 7), &[0xAA]);
    let res = u16::from_le_bytes(bytes);
    assert_eq!(res, 0xBEAA);
}

#[test]
fn test_set_bits_u128() {
    let val = 0x0_u128;
    let mut bytes = val.to_le_bytes();
    set_bits_le(&mut bytes, (100, 101), &[0b11]);
    let res = u128::from_le_bytes(bytes);
    assert_eq!(res, 0x30000000000000000000000000);
}

#[test]
fn test_get_bits_u16_le() {
    // 0xbeefu16 in little endian is [0xef, 0xbe]
    let bytes = 0xBEEFu16.to_le_bytes();
    // Extract all 16 bits
    assert_eq!(get_bits_le(&bytes, (0, 15)), vec![0xef, 0xbe]);
    // Extract lower 8 bits (should be [0xef])
    assert_eq!(get_bits_le(&bytes, (0, 7)), vec![0xef, 0x00]);
    // Extract upper 8 bits (should be [0xbe])
    assert_eq!(get_bits_le(&bytes, (8, 15)), vec![0xbe, 0x00]);
    // Extract bits 4..11 (should be 0xee, i.e. 0b11101110)
    assert_eq!(get_bits_le(&bytes, (4, 11)), vec![0xee, 0x00]);
}

#[test]
fn test_get_bits_u128_le() {
    let bytes = 0x123456789abcdef0123456789abcdef0_u128.to_le_bytes();
    // [f0, de, bc, 9a, 78, 56, 34, 12, f0, de, bc, 9a, 78, 56, 34, 12]
    assert_eq!(
        u128::from_le_bytes(get_bits_le(&bytes, (0, 64)).try_into().unwrap()),
        0x123456789abcdef0_u128
    );
    assert_eq!(
        u128::from_le_bytes(get_bits_le(&bytes, (64, 127)).try_into().unwrap()),
        0x123456789abcdef0_u128
    );
    assert_eq!(
        u128::from_le_bytes(get_bits_le(&bytes, (0, 127)).try_into().unwrap()),
        0x123456789abcdef0123456789abcdef0_u128
    );
    assert_eq!(
        u128::from_le_bytes(
            get_bits_le(&bytes, (8 * 8 + 4, 8 * 11 + 3))
                .try_into()
                .unwrap()
        ),
        0xabcdef
    );
}

#[test]
fn test_bit_range_bigger_than_input() {
    let bytes = 0xFF_u8.to_le_bytes();
    let result = get_bits_le(&bytes, (0, 14));
    assert_eq!(result, vec![0xFF]);
}

#[test]
fn test_bit_range_smaller_than_input() {
    let bytes = 0x1234_u16.to_le_bytes();
    let result = get_bits_le(&bytes, (0, 3));
    assert_eq!(result, vec![0x04, 0x00]);
}

#[test]
fn test_packet() {
    let mut packet = Packet::new();
    packet.pack::<u8>(&0x01).unwrap();
    packet.pack::<u16>(&0x0302).unwrap();
    assert_eq!(packet.get_bytes(), &[0x01, 0x02, 0x03]);
}

#[test]
fn test_unpacket() {
    let mut packet = Packet::from_slice(&[0x01, 0x02, 0x03]);
    assert_eq!(packet.unpack::<u8>().unwrap(), 0x01);
    assert_eq!(packet.unpack::<u16>().unwrap(), 0x0302);

    // Assert throws error if not enough bytes
    assert_eq!(packet.unpack::<u16>(), Err(PacketError::NotEnoughBytes));
}

#[test]
fn test_packet_pack_set_bits_small() {
    let mut packet = Packet::new();

    // Set 0-3 bits to 0xB, and pack 4-7 bits to 0xA

    packet.set_bits(4).pack::<u128>(&0xBBBBB).unwrap();
    assert_eq!(packet.get_bytes(), &[0xB]);

    packet.set_bits(4).pack::<u128>(&0xAAAAA).unwrap();
    assert_eq!(packet.get_bytes(), &[0xAB]);
}

#[test]
fn test_packet_unpack_set_bits_small() {
    let mut packet = Packet::from_slice(&[0xAB, 0xFF]);
    assert_eq!(packet.set_bits(4).unpack::<u128>(), Ok(0xB));
    assert_eq!(packet.set_bits(4).unpack::<u128>(), Ok(0xA));
    assert_eq!(packet.unpack::<u8>(), Ok(0xFF));
}

#[test]
fn test_packet_pack_set_bits_large() {
    let mut packet = Packet::new();
    packet.set_bits(128).pack::<u8>(&0xbb).unwrap();
    assert_eq!(
        packet.get_bytes(),
        &[0xBB, 0, 0, 0, 0, 0, 0, 0, 0, 0, 0, 0, 0, 0, 0, 0]
    );

    packet.pack::<u8>(&0xAA).unwrap();
    assert_eq!(
        packet.get_bytes(),
        &[0xBB, 0, 0, 0, 0, 0, 0, 0, 0, 0, 0, 0, 0, 0, 0, 0, 0xAA]
    );
}

#[test]
fn test_packet_unpack_set_bits_large() {
    let mut packet =
        Packet::from_slice(&[0xBB, 0, 0, 0, 0, 0, 0, 0, 0, 0, 0, 0, 0, 0, 0, 0, 0xAA]);
    assert_eq!(packet.set_bits(128).unpack::<u8>(), Ok(0xBB));
    assert_eq!(packet.set_bits(8).unpack::<u8>().unwrap(), 0xAA);
}

#[test]
fn test_packet_set_bits_then_pack() {
    let mut packet = Packet::new();
    packet.set_bits(4).pack::<u128>(&0xBBBBB).unwrap();
    assert_eq!(packet.get_bytes(), &[0xB]);

    // Notice: set_bits below 8 bits does not advance the position, thus next pack will overwrite the previous one

    packet.pack::<u8>(&0xAA).unwrap();
    assert_eq!(packet.get_bytes(), &[0xAA]);
}

#[test]
fn test_unpack_with_set_bits() {
    let mut packet = Packet::from_slice(&[0b1100_1100, 0b1111_1111]);
    assert_eq!(packet.set_bits(4).unpack::<u8>(), Ok(0b1100));
    assert_eq!(packet.set_bits(2).unpack::<u8>(), Ok(0b00));
    assert_eq!(packet.set_bits(2).unpack::<u8>(), Ok(0b11));
    assert_eq!(packet.unpack::<u8>(), Ok(0b1111_1111));
}

#[test]
fn test_pack_length() {
    let mut packet = Packet::new();
    // Length from *current* position to the end of the packet,
    packet.pack_length::<u8>().unwrap();
    packet.pack_bytes(&[0xA, 0xB, 0xC]);
    assert_eq!(packet.get_bytes(), &[0x03, 0xA, 0xB, 0xC]);
}

#[test]
fn test_pack_length2() {
    let mut packet = Packet::new();
    packet.pack_bytes(&[0x1, 0x2, 0x3]).unwrap();

    // Length from *current* position to the end of the packet
    packet.pack_length::<u16>().unwrap();
    packet.pack_bytes(&[0xA, 0xB, 0xC]).unwrap();

    // It should be 3 bytes from the current position to the end of the packet
    assert_eq!(
        packet.get_bytes(),
        &[
            0x1, 0x2, 0x3, // Prefix
            0x03, 0x00, // Length
            0xA, 0xB, 0xC // Data
        ]
    );
}

#[test]
fn test_unpack_length() {
    let mut packet = Packet::from_slice(&[0x03, 0xA, 0xB, 0xC]);
    packet.unpack_length::<u8>().unwrap();
    let value = packet.unpack::<u8>().unwrap();
    assert_eq!(value, 0xA);

    assert_eq!(packet.get_bytes(), &[0x3, 0xA, 0xB, 0xC]);
}

#[test]
fn test_pack_24bit_field() {
    let mut packet = Packet::new();
    let value: u32 = 0xABCDEF01;
    packet.set_bits(24).pack::<u32>(&value).unwrap();
    assert_eq!(packet.get_bytes(), &[0x01, 0xEF, 0xCD]);

    let mut packet = Packet::from_slice(&[0x01, 0xEF, 0xCD]);
    let value = packet.set_bits(24).unpack::<u32>().unwrap();
    assert_eq!(value, 0xCDEF01);
}

#[test]
fn test_next_if_eq_with_set_bits() {
    let mut packet = Packet::from_slice(&[0xFF]);
    assert_eq!(packet.set_bits(1).next_if_eq(&[0x01]), true);
    assert_eq!(packet.set_bits(1).next_if_eq(&[0x01]), true);
    assert_eq!(packet.set_bits(6).unpack::<u8>(), Ok(0b0011_1111));
}

#[test]
fn test_signed_numbers_roundtrip() {
    let mut out = Packet::new();
    out.pack(&-1i8).unwrap();
    out.pack(&-2i16).unwrap();
    out.pack(&i32::MIN).unwrap();
    out.pack(&-0x0102030405060708i64).unwrap();
    out.pack(&i128::MAX).unwrap();
    let bytes = out.get_bytes().to_vec();
    assert_eq!(bytes.len(), 1 + 2 + 4 + 8 + 16);
    assert_eq!(&bytes[..7], &[0xff, 0xfe, 0xff, 0x00, 0x00, 0x00, 0x80]);
    let mut back = Packet::from_vec(bytes);
    assert_eq!(back.unpack::<i8>(), Ok(-1));
    assert_eq!(back.unpack::<i16>(), Ok(-2));
    assert_eq!(back.unpack::<i32>(), Ok(i32::MIN));
    assert_eq!(back.unpack::<i64>(), Ok(-0x0102030405060708));
    assert_eq!(back.unpack::<i128>(), Ok(i128::MAX));
    assert_eq!(back.unpack::<i8>(), Err(PacketError::NotEnoughBytes));
}

#[test]
fn test_next_if_eq_moves_past_the_bit_field() {
    let mut packet = Packet::from_slice(&[0xFF, 0x5A]);
    assert_eq!(packet.set_bits(4).unpack::<u8>(), Ok(0x0F));
    assert_eq!(packet.set_bits(4).next_if_eq(&[0x0F]), true);
    // The cursor is on the next byte, as after reading the same field.
    assert_eq!(packet.unpack::<u8>(), Ok(0x5A));

    let mut packet = Packet::from_slice(&[0xFF, 0x5A]);
    assert_eq!(packet.set_bits(4).next_if_eq(&[0x0E]), false);
    // No match: nothing moves and the width stays pending.
    assert_eq!(packet.unpack::<u8>(), Ok(0x0F));
}

#[test]
fn test_nested_length_fields_and_second_get_bytes() {
    let mut packet = Packet::new();
    packet.pack_length::<u16>().unwrap();
    packet.pack_bytes(&[0x7]).unwrap();
    packet.pack_length::<u8>().unwrap();
    packet.pack_bytes(&[0xA, 0xB]).unwrap();
    let first = packet.get_bytes().to_vec();
    assert_eq!(first, vec![0x04, 0x00, 0x7, 0x02, 0xA, 0xB]);
    // The fields are filled again with the same counts.
    assert_eq!(packet.get_bytes(), &first[..]);
}
