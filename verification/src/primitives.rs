//! Small wire values that read themselves from and write themselves to byte
//! slices, and the errors they report.
use vstd::prelude::*;

verus! {

#[derive(Debug, Clone, PartialEq, Eq)]
pub struct SerializationError(String);

#[derive(Debug, Clone, PartialEq, Eq)]
pub struct ParseError(String);

#[derive(Debug, Clone, PartialEq, Eq, Copy, Hash)]
pub struct U16Le(u16);

#[derive(Debug, Copy, Clone, PartialEq, Eq)]
pub enum HciStatus {
    Success,
    Error(u8),
}

impl View for SerializationError {
    type V = Seq<char>;

    /// The message.
    closed spec fn view(&self) -> Seq<char> {
        self.0@
    }
}

impl View for ParseError {
    type V = Seq<char>;

    /// The message.
    closed spec fn view(&self) -> Seq<char> {
        self.0@
    }
}

impl SerializationError {
    pub fn new(msg: &str) -> (r: Self)
        ensures
            r@ == msg@,
    {
        SerializationError(msg.to_owned())
    }
}

impl ParseError {
    pub fn new(msg: &str) -> (r: Self)
        ensures
            r@ == msg@,
    {
        ParseError(msg.to_owned())
    }
}

/// A value with a byte encoding: `from_bytes` reads one from a slice and
/// `to_bytes` writes one out.
pub trait FromToBytes: Sized {
    /// The value that `from_bytes` reads from `bytes`, or `None` where it
    /// fails.
    spec fn spec_from_bytes(bytes: Seq<u8>) -> Option<Self>;

    /// The bytes that `to_bytes` writes, or `None` where it fails.
    spec fn spec_to_bytes(&self) -> Option<Seq<u8>>;

    fn from_bytes(bytes: &[u8]) -> (r: Result<Self, ParseError>)
        ensures
            match r {
                Ok(v) => Self::spec_from_bytes(bytes@) == Some(v),
                Err(_) => Self::spec_from_bytes(bytes@) is None,
            },
    ;

    fn to_bytes(&self) -> (r: Result<Vec<u8>, SerializationError>)
        ensures
            match r {
                Ok(b) => self.spec_to_bytes() == Some(b@),
                Err(_) => self.spec_to_bytes() is None,
            },
    ;
}

/// The message of the error for a slice that is not two bytes long.
pub const U16LE_LENGTH_MESSAGE: &'static str = "Not enough bytes for U16Le";

impl U16Le {
    /// The number this value holds.
    pub closed spec fn spec_value(&self) -> u16 {
        self.0
    }

    /// The value that holds `v`.
    pub closed spec fn spec_new(v: u16) -> U16Le {
        U16Le(v)
    }

    /// A value holds the number it was made with, and is determined by it.
    pub proof fn lemma_value(v: u16, a: U16Le)
        ensures
            U16Le::spec_new(v).spec_value() == v,
            U16Le::spec_new(a.spec_value()) == a,
    {
    }

    pub fn new(handle: u16) -> (r: Self)
        ensures
            r == U16Le::spec_new(handle),
    {
        U16Le(handle)
    }

    pub fn value(&self) -> (r: u16)
        ensures
            r == self.spec_value(),
    {
        self.0
    }
}

impl FromToBytes for U16Le {
    /// Exactly two bytes, least significant first.
    open spec fn spec_from_bytes(bytes: Seq<u8>) -> Option<Self> {
        if bytes.len() == 2 {
            Some(U16Le::spec_new((bytes[0] + 256 * bytes[1]) as u16))
        } else {
            None
        }
    }

    open spec fn spec_to_bytes(&self) -> Option<Seq<u8>> {
        Some(seq![(self.spec_value() % 256) as u8, (self.spec_value() / 256) as u8])
    }

    fn from_bytes(bytes: &[u8]) -> (r: Result<Self, ParseError>)
        ensures
            r is Err ==> r->Err_0@ == U16LE_LENGTH_MESSAGE@,
    {
        if bytes.len() != 2 {
            return Err(ParseError::new(U16LE_LENGTH_MESSAGE));
        }
        let handle = bytes[0] as u16 + 256 * (bytes[1] as u16);
        Ok(U16Le::new(handle))
    }

    fn to_bytes(&self) -> (r: Result<Vec<u8>, SerializationError>) {
        let bytes = vec![(self.0 % 256) as u8, (self.0 / 256) as u8];
        assert(bytes@ =~= seq![(self.0 % 256) as u8, (self.0 / 256) as u8]);
        Ok(bytes)
    }
}

/// Writing a `U16Le` and reading the bytes back gives the same value.
pub proof fn law_u16le_roundtrip(v: U16Le)
    ensures
        v.spec_to_bytes() is Some,
        U16Le::spec_from_bytes(v.spec_to_bytes()->0) == Some(v),
{
}

/// Reading two bytes as a `U16Le` and writing it out gives the same bytes.
pub proof fn law_u16le_reencode(bytes: Seq<u8>)
    requires
        bytes.len() == 2,
    ensures
        U16Le::spec_from_bytes(bytes) is Some,
        U16Le::spec_from_bytes(bytes)->0.spec_to_bytes() == Some(bytes),
{
    assert(U16Le::spec_from_bytes(bytes)->0.spec_to_bytes()->0 =~= bytes);
}

} // verus!
