//! GATT attributes (services, characteristics, descriptors) and the
//! attribute database of a GATT server.
use vstd::prelude::*;
use std::collections::HashMap;
use crate::packer::slices_equal;

verus! {

broadcast use vstd::std_specs::hash::group_hash_axioms;

#[derive(Debug, Clone, PartialEq, Eq, Hash)]
pub enum SerializationError {
    InvalidUuid,
    InvalidHandle,
    InvalidProperties,
}

#[derive(Debug, Clone, PartialEq, Eq, Hash)]
pub enum ParseError {
    InvalidUuid,
    InvalidHandle,
    InvalidProperties,
}

#[derive(Debug, Clone, Copy, PartialEq, Eq, Hash)]
pub enum Uuid {
    U16(u16),
    U128([u8; 16]),
}

#[derive(Debug, Clone, Copy, PartialEq, Eq, Hash)]
pub struct Handle(pub u16);

/// CharacteristicProperties
#[derive(Debug, Clone, Copy, Default, PartialEq, Eq)]
pub struct CharacteristicProperties {
    pub read: bool,
    pub write: bool,
    pub write_without_response: bool,
    pub notify: bool,
    pub indicate: bool,
    pub broadcast: bool,
    pub write_authenticated_signed: bool,
}

/// `mask` where `b` holds, else no bit.
pub open spec fn bit_if(b: bool, mask: u8) -> u8 {
    if b {
        mask
    } else {
        0u8
    }
}

/// One step of building the property byte: OR-ing `mask` in when `b` holds.
proof fn lemma_or_bit_if(x: u8, b: bool, mask: u8)
    ensures
        (if b {
            x | mask
        } else {
            x
        }) == x | bit_if(b, mask),
{
    assert((if b {
        x | mask
    } else {
        x
    }) == x | (if b {
        mask
    } else {
        0u8
    })) by (bit_vector);
}

impl CharacteristicProperties {
    /// The property byte: broadcast 0x01, read 0x02, write without response
    /// 0x04, write 0x08, notify 0x10, indicate 0x20, authenticated signed
    /// writes 0x40.
    pub open spec fn spec_byte(self) -> u8 {
        0u8 | bit_if(self.broadcast, 0x01) | bit_if(self.read, 0x02) | bit_if(
            self.write_without_response,
            0x04,
        ) | bit_if(self.write, 0x08) | bit_if(self.notify, 0x10) | bit_if(self.indicate, 0x20)
            | bit_if(self.write_authenticated_signed, 0x40)
    }

    /// The properties that a byte announces (bit 0x80 is ignored).
    pub open spec fn spec_from_byte(byte: u8) -> CharacteristicProperties {
        CharacteristicProperties {
            broadcast: (byte & 0x01) != 0,
            read: (byte & 0x02) != 0,
            write_without_response: (byte & 0x04) != 0,
            write: (byte & 0x08) != 0,
            notify: (byte & 0x10) != 0,
            indicate: (byte & 0x20) != 0,
            write_authenticated_signed: (byte & 0x40) != 0,
        }
    }

    pub fn to_bytes(self) -> (r: Result<[u8; 1], SerializationError>)
        ensures
            r is Ok,
            r->Ok_0@ == seq![self.spec_byte()],
    {
        let mut byte: u8 = 0x00;
        let ghost before = byte;
        if self.broadcast {
            byte |= 0x01;
        }
        proof {
            lemma_or_bit_if(before, self.broadcast, 0x01);
        }
        let ghost before = byte;
        if self.read {
            byte |= 0x02;
        }
        proof {
            lemma_or_bit_if(before, self.read, 0x02);
        }
        let ghost before = byte;
        if self.write_without_response {
            byte |= 0x04;
        }
        proof {
            lemma_or_bit_if(before, self.write_without_response, 0x04);
        }
        let ghost before = byte;
        if self.write {
            byte |= 0x08;
        }
        proof {
            lemma_or_bit_if(before, self.write, 0x08);
        }
        let ghost before = byte;
        if self.notify {
            byte |= 0x10;
        }
        proof {
            lemma_or_bit_if(before, self.notify, 0x10);
        }
        let ghost before = byte;
        if self.indicate {
            byte |= 0x20;
        }
        proof {
            lemma_or_bit_if(before, self.indicate, 0x20);
        }
        let ghost before = byte;
        if self.write_authenticated_signed {
            byte |= 0x40;
        }
        proof {
            lemma_or_bit_if(before, self.write_authenticated_signed, 0x40);
        }
        let out = [byte];
        assert(out@ =~= seq![self.spec_byte()]);
        Ok(out)
    }

    pub fn from_bytes(bytes: &[u8]) -> (r: Result<Self, ParseError>)
        ensures
            bytes@.len() != 1 ==> r == Err::<Self, ParseError>(ParseError::InvalidProperties),
            bytes@.len() == 1 ==> r == Ok::<Self, ParseError>(Self::spec_from_byte(bytes@[0])),
    {
        if bytes.len() != 1 {
            return Err(ParseError::InvalidProperties);
        }
        let byte = bytes[0];
        Ok(
            CharacteristicProperties {
                broadcast: (byte & 0x01) != 0,
                read: (byte & 0x02) != 0,
                write_without_response: (byte & 0x04) != 0,
                write: (byte & 0x08) != 0,
                notify: (byte & 0x10) != 0,
                indicate: (byte & 0x20) != 0,
                write_authenticated_signed: (byte & 0x40) != 0,
            },
        )
    }
}

/// Reading back the property byte gives the same properties.
pub proof fn law_properties_roundtrip(p: CharacteristicProperties)
    ensures
        CharacteristicProperties::spec_from_byte(p.spec_byte()) == p,
{
    let x = p.spec_byte();
    let (c0, c1, c2, c3, c4, c5, c6) = (
        p.broadcast,
        p.read,
        p.write_without_response,
        p.write,
        p.notify,
        p.indicate,
        p.write_authenticated_signed,
    );
    assert(((x & 0x01) != 0) == c0 && ((x & 0x02) != 0) == c1 && ((x & 0x04) != 0) == c2 && ((x
        & 0x08) != 0) == c3 && ((x & 0x10) != 0) == c4 && ((x & 0x20) != 0) == c5 && ((x & 0x40)
        != 0) == c6) by (bit_vector)
        requires
            x == 0u8 | (if c0 { 0x01u8 } else { 0u8 }) | (if c1 { 0x02u8 } else { 0u8 }) | (if c2 {
                0x04u8
            } else {
                0u8
            }) | (if c3 { 0x08u8 } else { 0u8 }) | (if c4 { 0x10u8 } else { 0u8 }) | (if c5 {
                0x20u8
            } else {
                0u8
            }) | (if c6 { 0x40u8 } else { 0u8 }),
    ;
}

/// The bits of the property byte: broadcast 0x01, read 0x02, write without
/// response 0x04, write 0x08, notify 0x10, indicate 0x20, authenticated
/// signed writes 0x40. A byte with one of these bits alone announces that
/// property alone, and the zero byte announces none.
pub proof fn law_property_bits()
    ensures
        CharacteristicProperties::spec_from_byte(0) == (CharacteristicProperties {
            broadcast: false,
            read: false,
            write: false,
            write_without_response: false,
            notify: false,
            indicate: false,
            write_authenticated_signed: false,
        }),
        CharacteristicProperties::spec_from_byte(0x01) == (CharacteristicProperties { broadcast: true, ..CharacteristicProperties::spec_from_byte(0) }),
        CharacteristicProperties::spec_from_byte(0x02) == (CharacteristicProperties { read: true, ..CharacteristicProperties::spec_from_byte(0) }),
        CharacteristicProperties::spec_from_byte(0x04) == (CharacteristicProperties { write_without_response: true, ..CharacteristicProperties::spec_from_byte(0) }),
        CharacteristicProperties::spec_from_byte(0x08) == (CharacteristicProperties { write: true, ..CharacteristicProperties::spec_from_byte(0) }),
        CharacteristicProperties::spec_from_byte(0x10) == (CharacteristicProperties { notify: true, ..CharacteristicProperties::spec_from_byte(0) }),
        CharacteristicProperties::spec_from_byte(0x20) == (CharacteristicProperties { indicate: true, ..CharacteristicProperties::spec_from_byte(0) }),
        CharacteristicProperties::spec_from_byte(0x40) == (CharacteristicProperties { write_authenticated_signed: true, ..CharacteristicProperties::spec_from_byte(0) }),
{
    assert(
        (0x01u8 & 0x01u8) != 0
        && (0x01u8 & 0x02u8) == 0
        && (0x01u8 & 0x04u8) == 0
        && (0x01u8 & 0x08u8) == 0
        && (0x01u8 & 0x10u8) == 0
        && (0x01u8 & 0x20u8) == 0
        && (0x01u8 & 0x40u8) == 0
        && (0x02u8 & 0x01u8) == 0
        && (0x02u8 & 0x02u8) != 0
        && (0x02u8 & 0x04u8) == 0
        && (0x02u8 & 0x08u8) == 0
        && (0x02u8 & 0x10u8) == 0
        && (0x02u8 & 0x20u8) == 0
        && (0x02u8 & 0x40u8) == 0
        && (0x04u8 & 0x01u8) == 0
        && (0x04u8 & 0x02u8) == 0
        && (0x04u8 & 0x04u8) != 0
        && (0x04u8 & 0x08u8) == 0
        && (0x04u8 & 0x10u8) == 0
        && (0x04u8 & 0x20u8) == 0
        && (0x04u8 & 0x40u8) == 0
        && (0x08u8 & 0x01u8) == 0
        && (0x08u8 & 0x02u8) == 0
        && (0x08u8 & 0x04u8) == 0
        && (0x08u8 & 0x08u8) != 0
        && (0x08u8 & 0x10u8) == 0
        && (0x08u8 & 0x20u8) == 0
        && (0x08u8 & 0x40u8) == 0
        && (0x10u8 & 0x01u8) == 0
        && (0x10u8 & 0x02u8) == 0
        && (0x10u8 & 0x04u8) == 0
        && (0x10u8 & 0x08u8) == 0
        && (0x10u8 & 0x10u8) != 0
        && (0x10u8 & 0x20u8) == 0
        && (0x10u8 & 0x40u8) == 0
        && (0x20u8 & 0x01u8) == 0
        && (0x20u8 & 0x02u8) == 0
        && (0x20u8 & 0x04u8) == 0
        && (0x20u8 & 0x08u8) == 0
        && (0x20u8 & 0x10u8) == 0
        && (0x20u8 & 0x20u8) != 0
        && (0x20u8 & 0x40u8) == 0
        && (0x40u8 & 0x01u8) == 0
        && (0x40u8 & 0x02u8) == 0
        && (0x40u8 & 0x04u8) == 0
        && (0x40u8 & 0x08u8) == 0
        && (0x40u8 & 0x10u8) == 0
        && (0x40u8 & 0x20u8) == 0
        && (0x40u8 & 0x40u8) != 0
        && (0x00u8 & 0x01u8) == 0
        && (0x00u8 & 0x02u8) == 0
        && (0x00u8 & 0x04u8) == 0
        && (0x00u8 & 0x08u8) == 0
        && (0x00u8 & 0x10u8) == 0
        && (0x00u8 & 0x20u8) == 0
        && (0x00u8 & 0x40u8) == 0
    ) by (bit_vector);
}

/// Reading a byte as properties and writing them gives the byte without
/// its top bit.
pub proof fn law_properties_byte_roundtrip(byte: u8)
    ensures
        CharacteristicProperties::spec_from_byte(byte).spec_byte() == byte & 0x7F,
{
    let b0 = (byte & 0x01) != 0;
    let b1 = (byte & 0x02) != 0;
    let b2 = (byte & 0x04) != 0;
    let b3 = (byte & 0x08) != 0;
    let b4 = (byte & 0x10) != 0;
    let b5 = (byte & 0x20) != 0;
    let b6 = (byte & 0x40) != 0;
    assert(0u8 | (if b0 { 0x01u8 } else { 0u8 }) | (if b1 { 0x02u8 } else { 0u8 }) | (if b2 {
        0x04u8
    } else {
        0u8
    }) | (if b3 { 0x08u8 } else { 0u8 }) | (if b4 { 0x10u8 } else { 0u8 }) | (if b5 {
        0x20u8
    } else {
        0u8
    }) | (if b6 { 0x40u8 } else { 0u8 }) == byte & 0x7F) by (bit_vector)
        requires
            b0 == ((byte & 0x01) != 0),
            b1 == ((byte & 0x02) != 0),
            b2 == ((byte & 0x04) != 0),
            b3 == ((byte & 0x08) != 0),
            b4 == ((byte & 0x10) != 0),
            b5 == ((byte & 0x20) != 0),
            b6 == ((byte & 0x40) != 0),
    ;
}

// -- Core structs

#[derive(Debug)]
pub enum Attribute {
    Service(Service),
    Characteristic(Characteristic),
    Descriptor(Descriptor),
}

#[derive(Debug)]
pub struct Service {
    pub handle: Handle,
    pub uuid: Uuid,
    pub primary: bool,
    pub characteristics: Vec<Characteristic>,
}

#[derive(Debug)]
pub struct Characteristic {
    pub declaration_handle: Handle,
    pub value_handle: Handle,
    pub uuid: Uuid,
    pub properties: CharacteristicProperties,
    pub descriptors: Vec<Descriptor>,
    pub value: Vec<u8>,
}

#[derive(Debug)]
pub struct Descriptor {
    pub handle: Handle,
    pub uuid: Uuid,
    pub value: Vec<u8>,
}

/// A descriptor with its value by value.
pub struct DescriptorView {
    pub handle: Handle,
    pub uuid: Uuid,
    pub value: Seq<u8>,
}

/// A characteristic with its descriptors and value by value.
pub struct CharacteristicView {
    pub declaration_handle: Handle,
    pub value_handle: Handle,
    pub uuid: Uuid,
    pub properties: CharacteristicProperties,
    pub descriptors: Seq<DescriptorView>,
    pub value: Seq<u8>,
}

/// A service with its characteristics by value.
pub struct ServiceView {
    pub handle: Handle,
    pub uuid: Uuid,
    pub primary: bool,
    pub characteristics: Seq<CharacteristicView>,
}

/// An attribute by value.
pub enum AttributeView {
    Service(ServiceView),
    Characteristic(CharacteristicView),
    Descriptor(DescriptorView),
}

impl View for Descriptor {
    type V = DescriptorView;

    open spec fn view(&self) -> DescriptorView {
        DescriptorView { handle: self.handle, uuid: self.uuid, value: self.value@ }
    }
}

impl View for Characteristic {
    type V = CharacteristicView;

    open spec fn view(&self) -> CharacteristicView {
        CharacteristicView {
            declaration_handle: self.declaration_handle,
            value_handle: self.value_handle,
            uuid: self.uuid,
            properties: self.properties,
            descriptors: self.descriptors@.map_values(|d: Descriptor| d@),
            value: self.value@,
        }
    }
}

impl View for Service {
    type V = ServiceView;

    open spec fn view(&self) -> ServiceView {
        ServiceView {
            handle: self.handle,
            uuid: self.uuid,
            primary: self.primary,
            characteristics: self.characteristics@.map_values(|c: Characteristic| c@),
        }
    }
}

impl View for Attribute {
    type V = AttributeView;

    open spec fn view(&self) -> AttributeView {
        match self {
            Attribute::Service(s) => AttributeView::Service(s@),
            Attribute::Characteristic(c) => AttributeView::Characteristic(c@),
            Attribute::Descriptor(d) => AttributeView::Descriptor(d@),
        }
    }
}

impl Clone for Descriptor {
    fn clone(&self) -> (r: Self)
        ensures
            r@ == self@,
    {
        let value = self.value.clone();
        assert(value@ =~= self.value@);
        Descriptor { handle: self.handle, uuid: self.uuid, value }
    }
}

impl Clone for Characteristic {
    fn clone(&self) -> (r: Self)
        ensures
            r@ == self@,
    {
        let descriptors = self.descriptors.clone();
        let value = self.value.clone();
        assert(value@ =~= self.value@);
        let r = Characteristic {
            declaration_handle: self.declaration_handle,
            value_handle: self.value_handle,
            uuid: self.uuid,
            properties: self.properties,
            descriptors,
            value,
        };
        assert(r@.descriptors =~= self@.descriptors);
        r
    }
}

impl Clone for Service {
    fn clone(&self) -> (r: Self)
        ensures
            r@ == self@,
    {
        let characteristics = self.characteristics.clone();
        let r = Service {
            handle: self.handle,
            uuid: self.uuid,
            primary: self.primary,
            characteristics,
        };
        assert(r@.characteristics =~= self@.characteristics);
        r
    }
}

impl Clone for Attribute {
    fn clone(&self) -> (r: Self)
        ensures
            r@ == self@,
    {
        match self {
            Attribute::Service(s) => Attribute::Service(s.clone()),
            Attribute::Characteristic(c) => Attribute::Characteristic(c.clone()),
            Attribute::Descriptor(d) => Attribute::Descriptor(d.clone()),
        }
    }
}

/// The handle under which the database files an attribute: a service's
/// handle, a characteristic's declaration handle, a descriptor's handle.
pub open spec fn attribute_handle(a: AttributeView) -> u16 {
    match a {
        AttributeView::Service(s) => s.handle.0,
        AttributeView::Characteristic(c) => c.declaration_handle.0,
        AttributeView::Descriptor(d) => d.handle.0,
    }
}

// -- Attribute database

/// The attributes of a GATT server, filed by handle.
#[derive(Debug)]
pub struct AttributeDatabase {
    pub attributes: HashMap<u16, Attribute>,
}

impl View for AttributeDatabase {
    type V = Map<u16, AttributeView>;

    open spec fn view(&self) -> Map<u16, AttributeView> {
        self.attributes@.map_values(|a: Attribute| a@)
    }
}

/// What a find-by-type-value request on `handle` and `value` is answered
/// with: the declaration and value handles of the characteristic filed
/// under `handle`, where it holds that value; otherwise nothing.
pub open spec fn find_by_type_value(db: Map<u16, AttributeView>, handle: Handle, value: Seq<u8>) -> Option<
    Seq<Handle>,
> {
    if db.contains_key(handle.0) && db[handle.0] is Characteristic
        && db[handle.0]->Characteristic_0.value == value {
        let c = db[handle.0]->Characteristic_0;
        Some(seq![c.declaration_handle, c.value_handle])
    } else {
        None
    }
}

impl AttributeDatabase {
    pub fn new() -> (r: Self)
        ensures
            r@ == Map::<u16, AttributeView>::empty(),
    {
        let r = AttributeDatabase { attributes: HashMap::new() };
        assert(r@ =~= Map::<u16, AttributeView>::empty());
        r
    }

    pub fn insert(&mut self, attr: Attribute)
        ensures
            final(self)@ == old(self)@.insert(attribute_handle(attr@), attr@),
    {
        let handle = match &attr {
            Attribute::Service(s) => s.handle,
            Attribute::Characteristic(c) => c.declaration_handle,
            Attribute::Descriptor(d) => d.handle,
        };
        let ghost a = attr@;
        self.attributes.insert(handle.0, attr);
        assert(self@ =~= old(self)@.insert(attribute_handle(a), a));
    }

    pub fn respond_to_att_find_by_type_value_response(&self, handle: Handle, value: Vec<u8>) -> (r:
        Option<Vec<Handle>>)
        ensures
            r is Some == find_by_type_value(self@, handle, value@) is Some,
            r is Some ==> r->0@ == find_by_type_value(self@, handle, value@)->0,
    {
        match self.attributes.get(&handle.0) {
            Some(Attribute::Characteristic(c)) => {
                if slices_equal(c.value.as_slice(), value.as_slice()) {
                    let r = vec![c.declaration_handle, c.value_handle];
                    assert(r@ =~= seq![c.declaration_handle, c.value_handle]);
                    return Some(r);
                }
                None
            },
            _ => None,
        }
    }
}

/// A database answers a find-by-type-value request on the declaration
/// handle of a characteristic it was given, with that characteristic's
/// value, with the characteristic's two handles.
pub proof fn law_inserted_characteristic_is_found(
    db: Map<u16, AttributeView>,
    c: CharacteristicView,
)
    ensures
        find_by_type_value(
            db.insert(attribute_handle(AttributeView::Characteristic(c)), AttributeView::Characteristic(c)),
            c.declaration_handle,
            c.value,
        ) == Some(seq![c.declaration_handle, c.value_handle]),
{
}

} // verus!
