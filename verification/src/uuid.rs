use vstd::prelude::*;

verus! {

/// `uuid::Uuid`, of which only the bits are read.
#[verifier::external_type_specification]
#[verifier::external_body]
pub struct ExUuid(uuid::Uuid);

/// `uuid::Error`, handed on to the caller as it comes.
#[verifier::external_type_specification]
#[verifier::external_body]
pub struct ExUuidError(uuid::Error);

/// A universally unique identifier: 128 bits, held as the number that its
/// sixteen bytes spell in big-endian order.
#[derive(Debug, Clone, Copy, PartialEq, Eq, Structural, PartialOrd, Ord, Hash)]
pub struct UUID {
    bits: u128,
}

/// What can go wrong when a UUID is made from bytes or text.
pub struct UUIDError(pub uuid::Error);

/// The number that the bytes of `s` spell in big-endian order.
pub open spec fn be_value(s: Seq<u8>) -> nat
    decreases s.len(),
{
    if s.len() == 0 {
        0
    } else {
        256 * be_value(s.drop_last()) + s.last() as nat
    }
}

/// The version field of an identifier: bits 76 to 79.
pub open spec fn version_of(bits: u128) -> int {
    (bits as int / 0x1000_0000_0000_0000_0000) % 16
}

/// The top two bits of the variant field of an identifier: bits 62 and 63.
pub open spec fn variant_of(bits: u128) -> int {
    (bits as int / 0x4000_0000_0000_0000) % 4
}

/// The sixteen bytes that a value of the `uuid` crate holds.
pub uninterp spec fn uuid_bytes(id: uuid::Uuid) -> Seq<u8>;

/// The identifier that `text` spells in one of the forms `uuid` reads.
pub uninterp spec fn uuid_of_text(text: Seq<char>) -> Option<u128>;

/// 16 to the power `k`.
pub open spec fn pow16(k: nat) -> nat
    decreases k,
{
    if k == 0 {
        1
    } else {
        16 * pow16((k - 1) as nat)
    }
}

/// The lower-case hexadecimal digit that stands for `n`, for `n` from 0
/// to 15.
pub open spec fn hex_digit(n: int) -> char {
    if n == 0 {
        '0'
    } else if n == 1 {
        '1'
    } else if n == 2 {
        '2'
    } else if n == 3 {
        '3'
    } else if n == 4 {
        '4'
    } else if n == 5 {
        '5'
    } else if n == 6 {
        '6'
    } else if n == 7 {
        '7'
    } else if n == 8 {
        '8'
    } else if n == 9 {
        '9'
    } else if n == 10 {
        'a'
    } else if n == 11 {
        'b'
    } else if n == 12 {
        'c'
    } else if n == 13 {
        'd'
    } else if n == 14 {
        'e'
    } else {
        'f'
    }
}

/// The digit of an identifier at place `k` of its 32 hexadecimal places,
/// counted from the most significant one.
pub open spec fn hex_at(bits: u128, k: int) -> char {
    hex_digit((bits as int / pow16((31 - k) as nat) as int) % 16)
}

/// How many hyphens stand before position `p` of the hyphenated form.
pub open spec fn hyphens_before(p: int) -> int {
    if p > 23 {
        4
    } else if p > 18 {
        3
    } else if p > 13 {
        2
    } else if p > 8 {
        1
    } else {
        0
    }
}

/// The hyphenated lower-case form of an identifier: its 32 hexadecimal
/// digits in groups of 8, 4, 4, 4 and 12, with a hyphen between groups.
pub open spec fn uuid_text(bits: u128) -> Seq<char> {
    Seq::new(
        36,
        |p: int|
            if p == 8 || p == 13 || p == 18 || p == 23 {
                '-'
            } else {
                hex_at(bits, p - hyphens_before(p))
            },
    )
}

/// `uuid::Uuid::as_u128`: the sixteen bytes of the value, read as one
/// number in big-endian order.
#[verifier::external_body]
fn bits_of(id: uuid::Uuid) -> (bits: u128)
    ensures
        bits == be_value(uuid_bytes(id)),
{
    id.as_u128()
}

/// `uuid::Uuid::new_v4`: random bits, with the version field set to 4 and
/// the variant field to the one of RFC 4122. Nothing else is known of
/// them. The call panics where the operating system gives no random
/// bytes.
#[verifier::external_body]
fn random_v4() -> (bits: u128)
    ensures
        version_of(bits) == 4,
        variant_of(bits) == 2,
{
    uuid::Uuid::new_v4().as_u128()
}

/// `uuid::Uuid::from_slice`: sixteen bytes are taken in big-endian order,
/// any other number of them is refused.
#[verifier::external_body]
fn bits_from_slice(slice: &[u8]) -> (r: Result<u128, uuid::Error>)
    ensures
        match r {
            Ok(bits) => slice@.len() == 16 && bits == be_value(slice@),
            Err(_) => slice@.len() != 16,
        },
{
    uuid::Uuid::from_slice(slice).map(|id| id.as_u128())
}

/// `uuid::Uuid::parse_str`: reads an identifier from text. The result is
/// taken to depend on the text alone: `uuid_of_text` names it.
#[verifier::external_body]
fn bits_from_text(text: &str) -> (r: Result<u128, uuid::Error>)
    ensures
        match r {
            Ok(bits) => uuid_of_text(text@) == Some(bits),
            Err(_) => uuid_of_text(text@) is None,
        },
{
    uuid::Uuid::parse_str(text).map(|id| id.as_u128())
}

/// The `Display` form of `uuid::Uuid`: 36 characters, the digits in
/// lower case with hyphens between the groups, as `uuid_text` spells it
/// out.
#[verifier::external_body]
fn text_of_bits(bits: u128) -> (text: String)
    ensures
        text@ == uuid_text(bits),
{
    uuid::Uuid::from_u128(bits).to_string()
}

impl View for UUID {
    type V = u128;

    closed spec fn view(&self) -> u128 {
        self.bits
    }
}

impl UUID {
    /// Creates a random UUID of version 4.
    pub fn new_v4() -> (id: Self)
        ensures
            version_of(id@) == 4,
            variant_of(id@) == 2,
    {
        UUID { bits: random_v4() }
    }

    /// Creates a UUID from a value of the `uuid` crate.
    pub fn from_uuid(uuid: uuid::Uuid) -> (id: Self)
        ensures
            id@ == be_value(uuid_bytes(uuid)),
    {
        UUID { bits: bits_of(uuid) }
    }

    /// Creates a UUID from sixteen bytes in big-endian order. Any other
    /// number of bytes is an error.
    pub fn from_slice(slice: &[u8]) -> (r: Result<Self, UUIDError>)
        ensures
            r is Ok <==> slice@.len() == 16,
            r matches Ok(id) ==> id@ == be_value(slice@),
    {
        match bits_from_slice(slice) {
            Ok(bits) => Ok(UUID { bits }),
            Err(e) => Err(UUIDError(e)),
        }
    }

    /// Creates a UUID from its high and its low 64 bits.
    pub fn from_u64_pair(high_bits: u64, low_bits: u64) -> (id: Self)
        ensures
            id@ == high_bits as int * 0x1_0000_0000_0000_0000 + low_bits as int,
    {
        let bits: u128 = ((high_bits as u128) << 64) | (low_bits as u128);
        assert(bits == high_bits as int * 0x1_0000_0000_0000_0000 + low_bits as int)
            by (bit_vector)
            requires
                bits == ((high_bits as u128) << 64) | (low_bits as u128),
        ;
        UUID { bits }
    }

    /// Creates a UUID from a 128-bit value, most significant byte first.
    pub fn from_u128be(v: u128) -> (id: Self)
        ensures
            id@ == v,
    {
        UUID { bits: v }
    }

    /// Reads a UUID from text.
    pub fn parse_str(s: &str) -> (r: Result<Self, UUIDError>)
        ensures
            match uuid_of_text(s@) {
                Some(bits) => r matches Ok(id) && id@ == bits,
                None => r is Err,
            },
    {
        match bits_from_text(s) {
            Ok(bits) => Ok(UUID { bits }),
            Err(e) => Err(UUIDError(e)),
        }
    }

    /// Identifiers with the same bits are the same identifier.
    pub proof fn lemma_view_injective(a: UUID, b: UUID)
        requires
            a@ == b@,
        ensures
            a == b,
    {
    }

    /// The 128 bits of the identifier.
    pub fn as_u128(&self) -> (bits: u128)
        ensures
            bits == self@,
    {
        self.bits
    }

    /// The hyphenated lower-case text of the identifier.
    pub fn to_string(&self) -> (text: String)
        ensures
            text@ == uuid_text(self@),
            text@.len() == 36,
    {
        text_of_bits(self.bits)
    }
}

impl std::str::FromStr for UUID {
    type Err = UUIDError;

    /// Reads a UUID from text, as [`UUID::parse_str`] does.
    fn from_str(s: &str) -> (r: Result<Self, UUIDError>)
        ensures
            match uuid_of_text(s@) {
                Some(bits) => r matches Ok(id) && id@ == bits,
                None => r is Err,
            },
    {
        UUID::parse_str(s)
    }
}

} // verus!
