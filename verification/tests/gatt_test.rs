use bt_only_headers::gatt::{
    Attribute, AttributeDatabase, Characteristic, CharacteristicProperties, Handle, ParseError,
    Service, Uuid,
};
use bt_only_headers::hid::build_hid_db;

#[test]
fn test_characteristic_properties_from_byte() {
    let p = CharacteristicProperties::from_bytes(&[0x92]).unwrap();
    assert!(p.read && p.notify);
    assert!(!p.broadcast && !p.write && !p.write_without_response && !p.indicate);
    assert!(!p.write_authenticated_signed);
    // The extended properties bit is dropped when writing back.
    assert_eq!(p.to_bytes().unwrap(), [0x12]);
}

#[test]
fn test_characteristic_properties_roundtrip() {
    for byte in 0u8..=0x7F {
        let p = CharacteristicProperties::from_bytes(&[byte]).unwrap();
        assert_eq!(p.to_bytes().unwrap(), [byte]);
    }
    let p = CharacteristicProperties {
        read: true,
        write: true,
        write_without_response: false,
        notify: false,
        indicate: true,
        broadcast: true,
        write_authenticated_signed: true,
    };
    assert_eq!(p.to_bytes().unwrap(), [0x6B]);
    assert_eq!(CharacteristicProperties::from_bytes(&[0x6B]).unwrap(), p);
}

#[test]
fn test_characteristic_properties_invalid_length() {
    assert_eq!(
        CharacteristicProperties::from_bytes(&[]),
        Err(ParseError::InvalidProperties)
    );
    assert_eq!(
        CharacteristicProperties::from_bytes(&[0x02, 0x02]),
        Err(ParseError::InvalidProperties)
    );
}

fn device_name(decl: u16, value: Vec<u8>) -> Characteristic {
    Characteristic {
        declaration_handle: Handle(decl),
        value_handle: Handle(decl + 1),
        uuid: Uuid::U16(0x2A00),
        properties: CharacteristicProperties::from_bytes(&[0x02]).unwrap(),
        descriptors: vec![],
        value,
    }
}

#[test]
fn test_attribute_database_find_by_type_value() {
    let mut db = AttributeDatabase::new();
    assert!(db.attributes.is_empty());
    db.insert(Attribute::Characteristic(device_name(2, vec![1, 2, 3])));
    db.insert(Attribute::Service(Service {
        handle: Handle(1),
        uuid: Uuid::U16(0x1800),
        primary: true,
        characteristics: vec![],
    }));
    assert_eq!(db.attributes.len(), 2);
    assert_eq!(
        db.respond_to_att_find_by_type_value_response(Handle(2), vec![1, 2, 3]),
        Some(vec![Handle(2), Handle(3)])
    );
    assert_eq!(db.respond_to_att_find_by_type_value_response(Handle(2), vec![1, 2]), None);
    assert_eq!(db.respond_to_att_find_by_type_value_response(Handle(1), vec![]), None);
    assert_eq!(db.respond_to_att_find_by_type_value_response(Handle(3), vec![1, 2, 3]), None);
    // A later insert under the same handle replaces the earlier one.
    db.insert(Attribute::Characteristic(device_name(2, vec![9])));
    assert_eq!(db.attributes.len(), 2);
    assert_eq!(db.respond_to_att_find_by_type_value_response(Handle(2), vec![1, 2, 3]), None);
    assert_eq!(
        db.respond_to_att_find_by_type_value_response(Handle(2), vec![9]),
        Some(vec![Handle(2), Handle(3)])
    );
}

#[test]
fn test_attribute_clone_keeps_contents() {
    let c = device_name(4, vec![7, 8]);
    let s = Service {
        handle: Handle(3),
        uuid: Uuid::U128([0xAB; 16]),
        primary: false,
        characteristics: vec![c.clone()],
    };
    let t = s.clone();
    assert_eq!(t.handle, Handle(3));
    assert_eq!(t.uuid, Uuid::U128([0xAB; 16]));
    assert!(!t.primary);
    assert_eq!(t.characteristics.len(), 1);
    assert_eq!(t.characteristics[0].value, vec![7, 8]);
    assert_eq!(t.characteristics[0].value_handle, Handle(5));
}

#[test]
fn test_build_hid_db() {
    let db = build_hid_db();
    let mut handles: Vec<u16> = db.attributes.keys().copied().collect();
    handles.sort();
    assert_eq!(handles, vec![1, 2, 4, 6, 7, 9, 10, 12, 14, 16, 18]);
    match db.attributes.get(&1) {
        Some(Attribute::Service(s)) => {
            assert_eq!(s.uuid, Uuid::U16(0x1800));
            assert_eq!(s.characteristics.len(), 2);
        }
        _ => panic!("Expected the GAP service"),
    }
    match db.attributes.get(&9) {
        Some(Attribute::Service(s)) => {
            assert_eq!(s.uuid, Uuid::U16(0x1812));
            assert_eq!(s.characteristics.len(), 5);
        }
        _ => panic!("Expected the HID service"),
    }
    match db.attributes.get(&18) {
        Some(Attribute::Characteristic(c)) => {
            assert_eq!(c.uuid, Uuid::U16(0x2A4D));
            assert_eq!(c.value_handle, Handle(19));
            assert_eq!(c.properties.to_bytes().unwrap(), [0x12]);
            assert_eq!(c.value, vec![0u8; 8]);
        }
        _ => panic!("Expected the Report characteristic"),
    }
    match db.attributes.get(&16) {
        Some(Attribute::Characteristic(c)) => assert_eq!(c.value.len(), 47),
        _ => panic!("Expected the Report Map characteristic"),
    }
    assert_eq!(
        db.respond_to_att_find_by_type_value_response(Handle(2), b"My Pi".to_vec()),
        Some(vec![Handle(2), Handle(3)])
    );
    assert_eq!(
        db.respond_to_att_find_by_type_value_response(Handle(7), vec![0x01, 0x02, 0xE5, 0x00, 0x01, 0x02, 0x03]),
        Some(vec![Handle(7), Handle(8)])
    );
    assert_eq!(db.respond_to_att_find_by_type_value_response(Handle(6), vec![]), None);
}
