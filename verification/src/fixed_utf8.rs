//! A UTF-8 string stored in a field of exactly `N` bytes: the string's bytes,
//! then zeros up to the end of the field.
use vstd::prelude::*;
use vstd::string::{StrSliceExecFns, StringSliceAdditionalSpecFns};
use vstd::utf8::{encode_scalar, encode_utf8, has_width_1_encoding, is_scalar, valid_utf8};
use crate::packer::{bytes_result, zeros, FromToPacket, Packet, PacketError, PacketModel};
use crate::packer_laws::{holds_at, lemma_holds_after_pack, lemma_holds_split, rewound_to};

verus! {

/// `std::str::from_utf8`: the string slice whose UTF-8 encoding is `bytes`,
/// when `bytes` is valid UTF-8, and `None` otherwise (the error of
/// `from_utf8` is dropped).
#[verifier::external_body]
fn str_from_utf8(bytes: &[u8]) -> (r: Option<&str>)
    ensures
        r is Some <==> valid_utf8(bytes@),
        r matches Some(s) ==> s.spec_bytes() == bytes@,
{
    std::str::from_utf8(bytes).ok()
}

#[derive(Debug, Clone, PartialEq, Eq)]
pub struct FixedSizeUtf8<const N: usize> {
    value: String,
}

/// The bytes of `b` before its first zero byte (all of them when there is
/// none).
pub open spec fn until_nul(b: Seq<u8>) -> Seq<u8>
    decreases b.len(),
{
    if b.len() == 0 {
        b
    } else if b[0] == 0 {
        Seq::empty()
    } else {
        seq![b[0]] + until_nul(b.drop_first())
    }
}

proof fn lemma_until_nul_prefix(b: Seq<u8>, i: int)
    requires
        0 <= i <= b.len(),
        i < b.len() ==> b[i] == 0,
        forall|j: int| 0 <= j < i ==> b[j] != 0,
    ensures
        until_nul(b) == b.subrange(0, i),
    decreases i,
{
    if i == 0 {
        if b.len() > 0 {
            assert(b.subrange(0, 0) =~= Seq::<u8>::empty());
        } else {
            assert(b.subrange(0, 0) =~= b);
        }
    } else {
        let t = b.drop_first();
        assert forall|j: int| 0 <= j < i - 1 implies t[j] != 0 by {
            assert(t[j] == b[j + 1]);
        }
        lemma_until_nul_prefix(t, i - 1);
        assert(b.subrange(0, i) =~= seq![b[0]] + t.subrange(0, i - 1));
    }
}

impl<const N: usize> View for FixedSizeUtf8<N> {
    type V = Seq<char>;

    /// The characters of the string.
    closed spec fn view(&self) -> Seq<char> {
        self.value@
    }
}

impl<const N: usize> FixedSizeUtf8<N> {
    pub fn new(s: &str) -> (r: Self)
        ensures
            r@ == s@,
    {
        FixedSizeUtf8 { value: s.to_owned() }
    }

    pub fn get(&self) -> (r: &str)
        ensures
            r@ == self@,
    {
        self.value.as_str()
    }

    /// The string's UTF-8 bytes.
    pub open spec fn spec_bytes(&self) -> Seq<u8> {
        encode_utf8(self@)
    }

    /// The field as it is written: the string's bytes, then zeros up to
    /// `N` bytes.
    pub open spec fn field_bytes(&self) -> Seq<u8> {
        self.spec_bytes() + zeros((N - self.spec_bytes().len()) as nat)
    }
}

impl<const N: usize> FromToPacket for FixedSizeUtf8<N> {
    open spec fn from_packet_requires(m: PacketModel) -> bool {
        !m.has_instruction() && m.position + N <= usize::MAX
    }

    /// The `N` bytes at the cursor, up to the first zero byte, as UTF-8.
    open spec fn from_packet_spec(m: PacketModel) -> (PacketModel, Result<Seq<char>, PacketError>) {
        let (m1, r) = m.unpack_bytes_spec(N as nat);
        match r {
            Ok(b) => if valid_utf8(until_nul(b)) {
                (m1, Ok(vstd::utf8::decode_utf8(until_nul(b))))
            } else {
                (m1, Err(PacketError::InvalidBytes))
            },
            Err(e) => (m1, Err(e)),
        }
    }

    open spec fn to_packet_requires(&self, m: PacketModel) -> bool {
        &&& !m.has_instruction()
        &&& m.position + N <= usize::MAX
        &&& self.spec_bytes().len() <= N
    }

    /// The string's bytes, then zeros up to `N` bytes.
    open spec fn to_packet_spec(&self, m: PacketModel) -> (PacketModel, Result<(), PacketError>) {
        m.pack_bytes_spec(self.field_bytes())
    }

    fn from_packet(bytes: &mut Packet) -> (res: Result<Self, PacketError>) {
        let field = match bytes.unpack_bytes(N) {
            Ok(b) => b,
            Err(e) => return Err(e),
        };
        let ghost b = field@;
        let mut end: usize = 0;
        while end < field.len() && field[end] != 0
            invariant
                end <= field@.len(),
                forall|j: int| 0 <= j < end ==> field@[j] != 0,
            decreases field@.len() - end,
        {
            end = end + 1;
        }
        proof {
            lemma_until_nul_prefix(b, end as int);
        }
        let text = vstd::slice::slice_subrange(field.as_slice(), 0, end);
        match str_from_utf8(text) {
            Some(s) => {
                proof {
                    vstd::utf8::encode_utf8_decode_utf8(s@);
                }
                Ok(FixedSizeUtf8 { value: s.to_owned() })
            },
            None => Err(PacketError::InvalidBytes),
        }
    }

    fn to_packet(&self, bytes: &mut Packet) -> (res: Result<(), PacketError>) {
        let mut field = self.value.as_str().as_bytes_vec();
        let ghost text = field@;
        while field.len() < N
            invariant
                text.len() <= field@.len() <= N,
                field@ == text + zeros((field@.len() - text.len()) as nat),
            decreases N - field@.len(),
        {
            field.push(0);
            proof {
                assert(field@ =~= text + zeros((field@.len() - text.len()) as nat));
            }
        }
        match bytes.pack_bytes(field.as_slice()) {
            Ok(_) => Ok(()),
            Err(e) => Err(e),
        }
    }
}

/// No character of `chars` is NUL.
pub open spec fn no_nul(chars: Seq<char>) -> bool {
    forall|i: int| 0 <= i < chars.len() ==> #[trigger] chars[i] != '\0'
}

/// The UTF-8 encoding of a character other than NUL holds no zero byte.
#[verifier::rlimit(60)]
#[verifier::spinoff_prover]
proof fn lemma_scalar_no_zero(c: u32)
    requires
        is_scalar(c),
        c != 0,
    ensures
        forall|j: int| 0 <= j < encode_scalar(c).len() ==> #[trigger] encode_scalar(c)[j] != 0,
{
    if has_width_1_encoding(c) {
        assert((c & 0x7F) as u8 != 0) by (bit_vector)
            requires
                c != 0,
                c <= 0x7F,
        ;
    } else {
        assert(vstd::utf8::leading_byte_width_2(c) != 0) by (bit_vector);
        assert(vstd::utf8::leading_byte_width_3(c) != 0) by (bit_vector);
        assert(vstd::utf8::leading_byte_width_4(c) != 0) by (bit_vector);
        assert(vstd::utf8::last_continuation_byte(c) != 0) by (bit_vector);
        assert(vstd::utf8::second_last_continuation_byte(c) != 0) by (bit_vector);
        assert(vstd::utf8::third_last_continuation_byte(c) != 0) by (bit_vector);
    }
}

/// The UTF-8 encoding of a string without NUL holds no zero byte.
#[verifier::rlimit(60)]
#[verifier::spinoff_prover]
proof fn lemma_encode_no_zero(chars: Seq<char>)
    requires
        no_nul(chars),
    ensures
        forall|j: int| 0 <= j < encode_utf8(chars).len() ==> #[trigger] encode_utf8(chars)[j] != 0,
    decreases chars.len(),
{
    if chars.len() > 0 {
        let c = chars[0];
        vstd::utf8::char_is_scalar(c);
        assert(c as u32 != 0) by {
            assert(c != '\0');
            vstd::utf8::char_u32_cast(c, c as u32);
        }
        lemma_scalar_no_zero(c as u32);
        let t = chars.drop_first();
        assert(no_nul(t)) by {
            assert forall|i: int| 0 <= i < t.len() implies #[trigger] t[i] != '\0' by {
                assert(t[i] == chars[i + 1]);
            }
        }
        lemma_encode_no_zero(t);
        let e = encode_utf8(chars);
        assert(e == encode_scalar(c as u32) + encode_utf8(t));
        assert forall|j: int| 0 <= j < e.len() implies #[trigger] e[j] != 0 by {
            if j < encode_scalar(c as u32).len() {
            } else {
                assert(e[j] == encode_utf8(t)[j - encode_scalar(c as u32).len()]);
            }
        }
    }
}

impl<const N: usize> FixedSizeUtf8<N> {
    /// A field written from a string without NUL that fits is read back as
    /// that string, and the cursor moves past the field.
    #[verifier::rlimit(60)]
    #[verifier::spinoff_prover]
    pub proof fn lemma_read_field(m: PacketModel, s: Self, rest: Seq<u8>)
        requires
            holds_at(m, s.field_bytes() + rest),
            s.spec_bytes().len() <= N,
            no_nul(s@),
        ensures
            Self::from_packet_spec(m) == (m.advance_bytes(N as nat), Ok::<Seq<char>, PacketError>(s@)),
            holds_at(m.advance_bytes(N as nat), rest),
    {
        let e = s.spec_bytes();
        let f = s.field_bytes();
        assert(f.len() == N);
        lemma_holds_split(m, f, rest);
        lemma_encode_no_zero(s@);
        assert forall|j: int| 0 <= j < e.len() implies f[j] != 0 by {
            assert(f[j] == e[j]);
        }
        if e.len() < f.len() {
            assert(f[e.len() as int] == 0u8);
        }
        lemma_until_nul_prefix(f, e.len() as int);
        assert(f.subrange(0, e.len() as int) =~= e);
        vstd::utf8::encode_utf8_valid_utf8(s@);
        vstd::utf8::encode_utf8_decode_utf8(s@);
    }
}

/// Writing a string without NUL that fits its field and reading the field
/// back from the place it was written at gives the same string.
#[verifier::rlimit(60)]
#[verifier::spinoff_prover]
pub proof fn law_fixed_utf8_roundtrip<const N: usize>(m: PacketModel, s: FixedSizeUtf8<N>)
    requires
        m.wf(),
        !m.has_instruction(),
        s.spec_bytes().len() <= N,
        no_nul(s@),
    ensures
        FixedSizeUtf8::<N>::from_packet_spec(rewound_to(s.to_packet_spec(m).0, m.position)).1
            == Ok::<Seq<char>, PacketError>(s@),
{
    lemma_holds_after_pack(m, s.field_bytes());
    assert(s.field_bytes() + Seq::<u8>::empty() =~= s.field_bytes());
    FixedSizeUtf8::<N>::lemma_read_field(rewound_to(s.to_packet_spec(m).0, m.position), s, Seq::empty());
}

} // verus!
