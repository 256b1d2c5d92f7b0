//! The attribute database of the HID peripheral: the GAP service (0x1800),
//! the Device Information service (0x180A) and the HID service (0x1812).
use vstd::prelude::*;
use crate::gatt::{
    Attribute,
    AttributeDatabase,
    AttributeView,
    Characteristic,
    CharacteristicProperties,
    CharacteristicView,
    Handle,
    Service,
    ServiceView,
    Uuid,
};
use crate::packer::zeros;

verus! {

/// `m` with each characteristic of `cs` filed under its declaration
/// handle, in order.
pub open spec fn insert_characteristics(
    m: Map<u16, AttributeView>,
    cs: Seq<CharacteristicView>,
) -> Map<u16, AttributeView>
    decreases cs.len(),
{
    if cs.len() == 0 {
        m
    } else {
        insert_characteristics(m, cs.drop_last()).insert(
            cs.last().declaration_handle.0,
            AttributeView::Characteristic(cs.last()),
        )
    }
}

/// `m` with the service `s` filed under its handle, then its
/// characteristics under theirs.
pub open spec fn insert_service(m: Map<u16, AttributeView>, s: ServiceView) -> Map<
    u16,
    AttributeView,
> {
    insert_characteristics(m.insert(s.handle.0, AttributeView::Service(s)), s.characteristics)
}

/// A characteristic without descriptors whose value handle follows its
/// declaration handle.
pub open spec fn simple_characteristic(decl: u16, uuid: u16, props: u8, value: Seq<u8>) -> CharacteristicView {
    CharacteristicView {
        declaration_handle: Handle(decl),
        value_handle: Handle((decl + 1) as u16),
        uuid: Uuid::U16(uuid),
        properties: CharacteristicProperties::spec_from_byte(props),
        descriptors: Seq::empty(),
        value,
    }
}

/// Service 0x1800: Device Name ("My Pi") and Appearance.
pub open spec fn gap_service() -> ServiceView {
    ServiceView {
        handle: Handle(1),
        uuid: Uuid::U16(0x1800),
        primary: true,
        characteristics: seq![
            simple_characteristic(2, 0x2A00, 0x02, seq![0x4Du8, 0x79u8, 0x20u8, 0x50u8, 0x69u8]),
            simple_characteristic(4, 0x2A01, 0x02, seq![0x00u8, 0x00u8]),
        ],
    }
}

/// Service 0x180A: PnP ID.
pub open spec fn device_information_service() -> ServiceView {
    ServiceView {
        handle: Handle(6),
        uuid: Uuid::U16(0x180A),
        primary: true,
        characteristics: seq![
            simple_characteristic(
                7,
                0x2A50,
                0x02,
                seq![0x01u8, 0x02u8, 0xE5u8, 0x00u8, 0x01u8, 0x02u8, 0x03u8],
            ),
        ],
    }
}

/// Service 0x1812: Protocol Mode, HID Information, HID Control Point,
/// Report Map and Report.
pub open spec fn hid_service() -> ServiceView {
    ServiceView {
        handle: Handle(9),
        uuid: Uuid::U16(0x1812),
        primary: true,
        characteristics: seq![
            simple_characteristic(10, 0x2A4E, 0x06, seq![0x01u8]),
            simple_characteristic(12, 0x2A4A, 0x02, seq![0x11u8, 0x01u8, 0x00u8, 0x02u8]),
            simple_characteristic(14, 0x2A4C, 0x04, zeros(8)),
            simple_characteristic(16, 0x2A4B, 0x02, zeros(47)),
            simple_characteristic(18, 0x2A4D, 0x92, zeros(8)),
        ],
    }
}

/// The database of the HID peripheral.
pub open spec fn hid_database() -> Map<u16, AttributeView> {
    insert_service(
        insert_service(insert_service(Map::empty(), gap_service()), device_information_service()),
        hid_service(),
    )
}

/// Files `service`, then each of its characteristics, in `db`.
fn add_service(db: &mut AttributeDatabase, service: Service)
    ensures
        final(db)@ == insert_service(old(db)@, service@),
{
    db.insert(Attribute::Service(service.clone()));
    let ghost base = db@;
    let ghost cs = service@.characteristics;
    let mut i: usize = 0;
    while i < service.characteristics.len()
        invariant
            i <= service.characteristics@.len(),
            cs == service@.characteristics,
            cs.len() == service.characteristics@.len(),
            db@ == insert_characteristics(base, cs.subrange(0, i as int)),
        decreases service.characteristics@.len() - i,
    {
        let ch = service.characteristics[i].clone();
        db.insert(Attribute::Characteristic(ch));
        proof {
            assert(cs.subrange(0, i + 1).drop_last() =~= cs.subrange(0, i as int));
        }
        i = i + 1;
    }
    proof {
        assert(cs.subrange(0, cs.len() as int) =~= cs);
    }
}

/// A characteristic without descriptors, made from its property byte.
fn characteristic(decl: u16, uuid: u16, props: u8, value: Vec<u8>) -> (r: Characteristic)
    requires
        decl < u16::MAX,
    ensures
        r@ == simple_characteristic(decl, uuid, props, value@),
{
    let properties = CharacteristicProperties::from_bytes(&[props]).unwrap();
    let r = Characteristic {
        declaration_handle: Handle(decl),
        value_handle: Handle(decl + 1),
        uuid: Uuid::U16(uuid),
        properties,
        descriptors: vec![],
        value,
    };
    assert(r@.descriptors =~= Seq::<crate::gatt::DescriptorView>::empty());
    r
}

/// `n` zero bytes.
fn zero_bytes(n: usize) -> (r: Vec<u8>)
    ensures
        r@ == zeros(n as nat),
{
    let mut v: Vec<u8> = Vec::new();
    let mut i: usize = 0;
    while i < n
        invariant
            i <= n,
            v@ == zeros(i as nat),
        decreases n - i,
    {
        v.push(0);
        i = i + 1;
        assert(v@ =~= zeros(i as nat));
    }
    v
}

pub fn build_hid_db() -> (db: AttributeDatabase)
    ensures
        db@ == hid_database(),
{
    let mut db = AttributeDatabase::new();
    let mut handle: u16 = 1;

    // Service 1800
    let device_name = vec![0x4D, 0x79, 0x20, 0x50, 0x69];
    assert(device_name@ =~= seq![0x4Du8, 0x79u8, 0x20u8, 0x50u8, 0x69u8]);
    let appearance = vec![0x00, 0x00];
    assert(appearance@ =~= seq![0x00u8, 0x00u8]);
    let service_1800 = Service {
        handle: Handle(handle),
        uuid: Uuid::U16(0x1800),
        primary: true,
        characteristics: vec![
            characteristic(handle + 1, 0x2A00, 0x02, device_name),  // Device Name
            characteristic(handle + 3, 0x2A01, 0x02, appearance),  // Appearance
        ],
    };
    assert(service_1800@.characteristics =~= gap_service().characteristics);
    handle += 5;

    // Service 180A
    let pnp_id = vec![0x01, 0x02, 0xE5, 0x00, 0x01, 0x02, 0x03];
    assert(pnp_id@ =~= seq![0x01u8, 0x02u8, 0xE5u8, 0x00u8, 0x01u8, 0x02u8, 0x03u8]);
    let service_180a = Service {
        handle: Handle(handle),
        uuid: Uuid::U16(0x180A),
        primary: true,
        characteristics: vec![characteristic(handle + 1, 0x2A50, 0x02, pnp_id)],  // PnP ID
    };
    assert(service_180a@.characteristics =~= device_information_service().characteristics);
    handle += 3;

    // Service 1812 (HID)
    let protocol_mode = vec![0x01];
    assert(protocol_mode@ =~= seq![0x01u8]);
    let hid_info = vec![0x11, 0x01, 0x00, 0x02];
    assert(hid_info@ =~= seq![0x11u8, 0x01u8, 0x00u8, 0x02u8]);
    let service_1812 = Service {
        handle: Handle(handle),
        uuid: Uuid::U16(0x1812),
        primary: true,
        characteristics: vec![
            characteristic(handle + 1, 0x2A4E, 0x06, protocol_mode),  // Protocol Mode
            characteristic(handle + 3, 0x2A4A, 0x02, hid_info),  // HID Info
            characteristic(handle + 5, 0x2A4C, 0x04, zero_bytes(8)),  // HID Control Point
            characteristic(handle + 7, 0x2A4B, 0x02, zero_bytes(47)),  // Report Map
            characteristic(handle + 9, 0x2A4D, 0x92, zero_bytes(8)),  // Report
        ],
    };
    assert(service_1812@.characteristics =~= hid_service().characteristics);

    // Add all services and characteristics to the attribute map
    add_service(&mut db, service_1800);
    add_service(&mut db, service_180a);
    add_service(&mut db, service_1812);
    db
}

// --- The roles of the characteristics ---

/// Whether `c` has the properties (and, where the role fixes it, the value)
/// of the role that the GATT assigned number of its UUID names: Device Name
/// 0x2A00, Appearance 0x2A01, PnP ID 0x2A50, HID Information 0x2A4A (four
/// bytes) and Report Map 0x2A4B are read only; Protocol Mode 0x2A4E is read
/// and write without response, holding 0x01 (report protocol); HID Control
/// Point 0x2A4C is write without response only; Report 0x2A4D is read and
/// notify.
pub open spec fn fits_its_role(c: CharacteristicView) -> bool {
    let p = c.properties;
    let read_only = p.read && !p.write && !p.write_without_response && !p.notify;
    match c.uuid {
        Uuid::U16(u) => if u == 0x2A00 || u == 0x2A01 || u == 0x2A50 || u == 0x2A4B {
            read_only
        } else if u == 0x2A4A {
            read_only && c.value.len() == 4
        } else if u == 0x2A4E {
            p.read && p.write_without_response && !p.write && !p.notify && c.value == seq![0x01u8]
        } else if u == 0x2A4C {
            !p.read && p.write_without_response && !p.write && !p.notify
        } else if u == 0x2A4D {
            p.read && p.notify
        } else {
            false
        },
        Uuid::U128(_) => false,
    }
}

/// The UUID of the attribute `a`.
pub open spec fn attribute_uuid(a: AttributeView) -> Uuid {
    match a {
        AttributeView::Service(s) => s.uuid,
        AttributeView::Characteristic(c) => c.uuid,
        AttributeView::Descriptor(d) => d.uuid,
    }
}

/// The database holds the GAP service at handle 1 (Device Name at 2,
/// Appearance at 4), Device Information at 6 (PnP ID at 7) and the HID
/// service at 9 (Protocol Mode at 10, HID Information at 12, HID Control
/// Point at 14, Report Map at 16, Report at 18), and nothing else. Every
/// characteristic is filed under its declaration handle, its value follows
/// at the next handle, and it has the properties of the role its UUID names.
pub proof fn law_hid_database_roles()
    ensures
        hid_database().dom() == set![1u16, 2, 4, 6, 7, 9, 10, 12, 14, 16, 18],
        hid_database()[1] is Service && attribute_uuid(hid_database()[1]) == Uuid::U16(0x1800),
        hid_database()[6] is Service && attribute_uuid(hid_database()[6]) == Uuid::U16(0x180A),
        hid_database()[9] is Service && attribute_uuid(hid_database()[9]) == Uuid::U16(0x1812),
        attribute_uuid(hid_database()[2]) == Uuid::U16(0x2A00),
        attribute_uuid(hid_database()[4]) == Uuid::U16(0x2A01),
        attribute_uuid(hid_database()[7]) == Uuid::U16(0x2A50),
        attribute_uuid(hid_database()[10]) == Uuid::U16(0x2A4E),
        attribute_uuid(hid_database()[12]) == Uuid::U16(0x2A4A),
        attribute_uuid(hid_database()[14]) == Uuid::U16(0x2A4C),
        attribute_uuid(hid_database()[16]) == Uuid::U16(0x2A4B),
        attribute_uuid(hid_database()[18]) == Uuid::U16(0x2A4D),
        forall|h: u16| #[trigger] hid_database().contains_key(h) && hid_database()[h] is Characteristic ==> {
            let c = hid_database()[h]->Characteristic_0;
            &&& c.declaration_handle.0 == h
            &&& c.value_handle.0 == h + 1
            &&& fits_its_role(c)
        },
{
    let g = gap_service();
    let d = device_information_service();
    let s = hid_service();
    assert(g.characteristics.drop_last() =~= seq![g.characteristics[0]]);
    assert(seq![g.characteristics[0]].drop_last() =~= Seq::<CharacteristicView>::empty());
    assert(d.characteristics.drop_last() =~= Seq::<CharacteristicView>::empty());
    let c = s.characteristics;
    assert(c.drop_last() =~= seq![c[0], c[1], c[2], c[3]]);
    assert(seq![c[0], c[1], c[2], c[3]].drop_last() =~= seq![c[0], c[1], c[2]]);
    assert(seq![c[0], c[1], c[2]].drop_last() =~= seq![c[0], c[1]]);
    assert(seq![c[0], c[1]].drop_last() =~= seq![c[0]]);
    assert(seq![c[0]].drop_last() =~= Seq::<CharacteristicView>::empty());
    reveal_with_fuel(insert_characteristics, 6);
    let m0 = Map::<u16, AttributeView>::empty();
    let m1 = m0.insert(1, AttributeView::Service(g)).insert(2, AttributeView::Characteristic(
        g.characteristics[0],
    )).insert(4, AttributeView::Characteristic(g.characteristics[1]));
    assert(insert_service(m0, g) =~= m1);
    let m2 = m1.insert(6, AttributeView::Service(d)).insert(7, AttributeView::Characteristic(
        d.characteristics[0],
    ));
    assert(insert_service(m1, d) =~= m2);
    let m3 = m2.insert(9, AttributeView::Service(s)).insert(10, AttributeView::Characteristic(c[0])).insert(
        12,
        AttributeView::Characteristic(c[1]),
    ).insert(14, AttributeView::Characteristic(c[2])).insert(16, AttributeView::Characteristic(c[3])).insert(
        18,
        AttributeView::Characteristic(c[4]),
    );
    assert(insert_service(m2, s) =~= m3);
    assert(hid_database() == m3);
    assert(m3.dom() =~= set![1u16, 2, 4, 6, 7, 9, 10, 12, 14, 16, 18]);
    assert(
        (0x02u8 & 0x02u8) != 0 && (0x02u8 & 0x04u8) == 0 && (0x02u8 & 0x08u8) == 0 && (0x02u8 & 0x10u8) == 0
        && (0x06u8 & 0x02u8) != 0 && (0x06u8 & 0x04u8) != 0 && (0x06u8 & 0x08u8) == 0 && (0x06u8 & 0x10u8) == 0
        && (0x04u8 & 0x02u8) == 0 && (0x04u8 & 0x04u8) != 0 && (0x04u8 & 0x08u8) == 0 && (0x04u8 & 0x10u8) == 0
        && (0x92u8 & 0x02u8) != 0 && (0x92u8 & 0x10u8) != 0
    ) by (bit_vector);
    assert forall|h: u16| #[trigger] hid_database().contains_key(h) && hid_database()[h] is Characteristic implies {
        let ch = hid_database()[h]->Characteristic_0;
        &&& ch.declaration_handle.0 == h
        &&& ch.value_handle.0 == h + 1
        &&& fits_its_role(ch)
    } by {
        assert(m3.dom().contains(h));
        assert(h == 1 || h == 2 || h == 4 || h == 6 || h == 7 || h == 9 || h == 10 || h == 12 || h == 14 || h == 16 || h == 18);
        assert(c[2].value.len() == 8);
    }
}

} // verus!
