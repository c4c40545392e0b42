use crate::error::ProtoCodecError;
use crate::fixed::{
    le_encoding, le_i32_parse, le_i64_parse, le_u16_parse, le_u32_parse, le_u64_parse,
    lemma_le_encoding_len, lemma_le_parse_roundtrip, lemma_le_parse_signed_roundtrip,
    lemma_pow256_values, to_unsigned,
};
use crate::stream::{
    write_le_i32, write_le_i64, write_le_u16, write_le_u32, write_le_u64, write_var_i32,
    write_var_i64, write_var_u32, write_var_u64, ByteReader,
};
use crate::varint::{
    lemma_var_i32_roundtrip, lemma_var_i64_roundtrip, lemma_var_u32_roundtrip,
    lemma_var_u64_roundtrip, uvar_encoding, var_i32_parse, var_i64_parse, var_u32_parse,
    var_u64_parse, zigzag,
};
use vstd::prelude::*;

verus! {

/// The outcome `r` of decoding a value while a reader went from `pre` to
/// `post` agrees with `expected`, the value and width that the bytes in
/// front of `pre` spell: on success the reader has moved past exactly the
/// bytes of the value, on failure it has not moved.
pub open spec fn decode_outcome<T: View>(
    pre: ByteReader,
    post: ByteReader,
    r: Result<T, ProtoCodecError>,
    expected: Result<(T::V, nat), ProtoCodecError>,
) -> bool {
    &&& post.source() == pre.source()
    &&& post.offset() <= post.source().len()
    &&& match expected {
        Ok((v, k)) => r is Ok && r->Ok_0@ == v && post.offset() == pre.offset() + k,
        Err(e) => r == Err::<T, ProtoCodecError>(e) && post.offset() == pre.offset(),
    }
}

/// A type with a wire form.
///
/// `wire` and `parse` say, over the view of the type, what is written and
/// what is read; the two executable methods are held to them, and
/// `lemma_roundtrip` shows that reading undoes writing.
pub trait ProtoCodec: Sized + View {
    /// Whether the value has a wire form at all.
    spec fn encodable(v: Self::V) -> bool;

    /// The bytes that stand for the value.
    spec fn wire(v: Self::V) -> Seq<u8>;

    /// The value at the front of `s` and the number of bytes it occupies,
    /// or the reason why there is none.
    spec fn parse(s: Seq<u8>) -> Result<(Self::V, nat), ProtoCodecError>;

    /// Appends the wire form of the value to `stream`. A value without a
    /// wire form is refused and nothing is written.
    fn proto_serialize(&self, stream: &mut Vec<u8>) -> (r: Result<(), ProtoCodecError>)
        ensures
            match r {
                Ok(_) => Self::encodable(self@) && final(stream)@ == old(stream)@ + Self::wire(
                    self@,
                ),
                Err(_) => !Self::encodable(self@) && final(stream)@ == old(stream)@,
            },
    ;

    /// Reads one value from the front of `stream`, consuming exactly its
    /// bytes.
    fn proto_deserialize(stream: &mut ByteReader) -> (r: Result<Self, ProtoCodecError>)
        ensures
            decode_outcome(
                *old(stream),
                *final(stream),
                r,
                Self::parse(old(stream).remaining()),
            ),
    ;

    /// Reading what was written gives the value back and consumes exactly
    /// what was written, whatever follows it.
    proof fn lemma_roundtrip(v: Self::V, rest: Seq<u8>)
        requires
            Self::encodable(v),
        ensures
            Self::parse(Self::wire(v) + rest) == Ok::<(Self::V, nat), ProtoCodecError>(
                (v, Self::wire(v).len()),
            ),
    ;
}

/// The value that `s` holds from its first to its last byte: the value at
/// its front has to use all of it, bytes left over are a `FormatMismatch`.
pub open spec fn whole_parse<T: ProtoCodec>(s: Seq<u8>) -> Result<T::V, ProtoCodecError> {
    match T::parse(s) {
        Ok((v, k)) => if k == s.len() {
            Ok(v)
        } else {
            Err(ProtoCodecError::FormatMismatch)
        },
        Err(e) => Err(e),
    }
}

/// The wire form of a value, as bytes of their own.
pub fn to_bytes<T: ProtoCodec>(value: &T) -> (r: Result<Vec<u8>, ProtoCodecError>)
    ensures
        match r {
            Ok(bytes) => T::encodable(value@) && bytes@ == T::wire(value@),
            Err(_) => !T::encodable(value@),
        },
{
    let mut bytes: Vec<u8> = Vec::new();
    match value.proto_serialize(&mut bytes) {
        Ok(_) => {
            assert(bytes@ =~= T::wire(value@));
            Ok(bytes)
        },
        Err(e) => Err(e),
    }
}

/// Reads the value that `bytes` hold from end to end; see [`whole_parse`].
pub fn from_bytes<T: ProtoCodec>(bytes: &[u8]) -> (r: Result<T, ProtoCodecError>)
    ensures
        match whole_parse::<T>(bytes@) {
            Ok(v) => r is Ok && r->Ok_0@ == v,
            Err(e) => r == Err::<T, ProtoCodecError>(e),
        },
{
    let mut reader: ByteReader = ByteReader::new(bytes);
    assert(reader.remaining() =~= bytes@);
    match T::proto_deserialize(&mut reader) {
        Ok(value) => if reader.is_exhausted() {
            Ok(value)
        } else {
            Err(ProtoCodecError::FormatMismatch)
        },
        Err(e) => Err(e),
    }
}

/// Reading the bytes of a value gives the value back, for every type with
/// a wire form and every value of it that has one.
pub proof fn lemma_bytes_roundtrip<T: ProtoCodec>(v: T::V)
    requires
        T::encodable(v),
    ensures
        whole_parse::<T>(T::wire(v)) == Ok::<T::V, ProtoCodecError>(v),
{
    T::lemma_roundtrip(v, Seq::empty());
    assert(T::wire(v) + Seq::<u8>::empty() =~= T::wire(v));
}

/// An integer that travels in variable-width form: seven bits per byte,
/// signed values zigzag-mapped first.
#[derive(Debug, Clone, Copy, PartialEq, Eq)]
pub struct VAR<T>(pub T);

/// An integer that travels as its bytes in little-endian order.
#[derive(Debug, Clone, Copy, PartialEq, Eq)]
pub struct LE<T>(pub T);

impl<T> View for VAR<T> {
    type V = T;

    open spec fn view(&self) -> T {
        self.0
    }
}

impl<T> View for LE<T> {
    type V = T;

    open spec fn view(&self) -> T {
        self.0
    }
}

impl<T> VAR<T> {
    /// Marks `value` as travelling in variable-width form.
    pub fn new(value: T) -> (r: Self)
        ensures
            r@ == value,
    {
        VAR(value)
    }

    /// The integer itself.
    pub fn into_inner(self) -> (value: T)
        ensures
            value == self@,
    {
        self.0
    }
}

impl<T> LE<T> {
    /// Marks `value` as travelling in little-endian form.
    pub fn new(value: T) -> (r: Self)
        ensures
            r@ == value,
    {
        LE(value)
    }

    /// The integer itself.
    pub fn into_inner(self) -> (value: T)
        ensures
            value == self@,
    {
        self.0
    }
}

impl ProtoCodec for VAR<u32> {
    open spec fn encodable(v: u32) -> bool {
        true
    }

    open spec fn wire(v: u32) -> Seq<u8> {
        uvar_encoding(v as nat)
    }

    open spec fn parse(s: Seq<u8>) -> Result<(u32, nat), ProtoCodecError> {
        var_u32_parse(s)
    }

    fn proto_serialize(&self, stream: &mut Vec<u8>) -> (r: Result<(), ProtoCodecError>) {
        write_var_u32(stream, self.0);
        Ok(())
    }

    fn proto_deserialize(stream: &mut ByteReader) -> (r: Result<Self, ProtoCodecError>) {
        match stream.read_var_u32() {
            Ok(v) => Ok(VAR(v)),
            Err(e) => Err(e),
        }
    }

    proof fn lemma_roundtrip(v: u32, rest: Seq<u8>) {
        lemma_var_u32_roundtrip(v, rest);
    }
}

impl ProtoCodec for VAR<u64> {
    open spec fn encodable(v: u64) -> bool {
        true
    }

    open spec fn wire(v: u64) -> Seq<u8> {
        uvar_encoding(v as nat)
    }

    open spec fn parse(s: Seq<u8>) -> Result<(u64, nat), ProtoCodecError> {
        var_u64_parse(s)
    }

    fn proto_serialize(&self, stream: &mut Vec<u8>) -> (r: Result<(), ProtoCodecError>) {
        write_var_u64(stream, self.0);
        Ok(())
    }

    fn proto_deserialize(stream: &mut ByteReader) -> (r: Result<Self, ProtoCodecError>) {
        match stream.read_var_u64() {
            Ok(v) => Ok(VAR(v)),
            Err(e) => Err(e),
        }
    }

    proof fn lemma_roundtrip(v: u64, rest: Seq<u8>) {
        lemma_var_u64_roundtrip(v, rest);
    }
}

impl ProtoCodec for VAR<i32> {
    open spec fn encodable(v: i32) -> bool {
        true
    }

    open spec fn wire(v: i32) -> Seq<u8> {
        uvar_encoding(zigzag(v as int))
    }

    open spec fn parse(s: Seq<u8>) -> Result<(i32, nat), ProtoCodecError> {
        var_i32_parse(s)
    }

    fn proto_serialize(&self, stream: &mut Vec<u8>) -> (r: Result<(), ProtoCodecError>) {
        write_var_i32(stream, self.0);
        Ok(())
    }

    fn proto_deserialize(stream: &mut ByteReader) -> (r: Result<Self, ProtoCodecError>) {
        match stream.read_var_i32() {
            Ok(v) => Ok(VAR(v)),
            Err(e) => Err(e),
        }
    }

    proof fn lemma_roundtrip(v: i32, rest: Seq<u8>) {
        lemma_var_i32_roundtrip(v, rest);
    }
}

impl ProtoCodec for VAR<i64> {
    open spec fn encodable(v: i64) -> bool {
        true
    }

    open spec fn wire(v: i64) -> Seq<u8> {
        uvar_encoding(zigzag(v as int))
    }

    open spec fn parse(s: Seq<u8>) -> Result<(i64, nat), ProtoCodecError> {
        var_i64_parse(s)
    }

    fn proto_serialize(&self, stream: &mut Vec<u8>) -> (r: Result<(), ProtoCodecError>) {
        write_var_i64(stream, self.0);
        Ok(())
    }

    fn proto_deserialize(stream: &mut ByteReader) -> (r: Result<Self, ProtoCodecError>) {
        match stream.read_var_i64() {
            Ok(v) => Ok(VAR(v)),
            Err(e) => Err(e),
        }
    }

    proof fn lemma_roundtrip(v: i64, rest: Seq<u8>) {
        lemma_var_i64_roundtrip(v, rest);
    }
}

impl ProtoCodec for LE<u16> {
    open spec fn encodable(v: u16) -> bool {
        true
    }

    open spec fn wire(v: u16) -> Seq<u8> {
        le_encoding(v as nat, 2)
    }

    open spec fn parse(s: Seq<u8>) -> Result<(u16, nat), ProtoCodecError> {
        le_u16_parse(s)
    }

    fn proto_serialize(&self, stream: &mut Vec<u8>) -> (r: Result<(), ProtoCodecError>) {
        write_le_u16(stream, self.0);
        Ok(())
    }

    fn proto_deserialize(stream: &mut ByteReader) -> (r: Result<Self, ProtoCodecError>) {
        match stream.read_le_u16() {
            Ok(v) => Ok(LE(v)),
            Err(e) => Err(e),
        }
    }

    proof fn lemma_roundtrip(v: u16, rest: Seq<u8>) {
        lemma_pow256_values();
        lemma_le_encoding_len(v as nat, 2);
        lemma_le_parse_roundtrip(v as nat, 2, rest);
    }
}

impl ProtoCodec for LE<u32> {
    open spec fn encodable(v: u32) -> bool {
        true
    }

    open spec fn wire(v: u32) -> Seq<u8> {
        le_encoding(v as nat, 4)
    }

    open spec fn parse(s: Seq<u8>) -> Result<(u32, nat), ProtoCodecError> {
        le_u32_parse(s)
    }

    fn proto_serialize(&self, stream: &mut Vec<u8>) -> (r: Result<(), ProtoCodecError>) {
        write_le_u32(stream, self.0);
        Ok(())
    }

    fn proto_deserialize(stream: &mut ByteReader) -> (r: Result<Self, ProtoCodecError>) {
        match stream.read_le_u32() {
            Ok(v) => Ok(LE(v)),
            Err(e) => Err(e),
        }
    }

    proof fn lemma_roundtrip(v: u32, rest: Seq<u8>) {
        lemma_pow256_values();
        lemma_le_encoding_len(v as nat, 4);
        lemma_le_parse_roundtrip(v as nat, 4, rest);
    }
}

impl ProtoCodec for LE<u64> {
    open spec fn encodable(v: u64) -> bool {
        true
    }

    open spec fn wire(v: u64) -> Seq<u8> {
        le_encoding(v as nat, 8)
    }

    open spec fn parse(s: Seq<u8>) -> Result<(u64, nat), ProtoCodecError> {
        le_u64_parse(s)
    }

    fn proto_serialize(&self, stream: &mut Vec<u8>) -> (r: Result<(), ProtoCodecError>) {
        write_le_u64(stream, self.0);
        Ok(())
    }

    fn proto_deserialize(stream: &mut ByteReader) -> (r: Result<Self, ProtoCodecError>) {
        match stream.read_le_u64() {
            Ok(v) => Ok(LE(v)),
            Err(e) => Err(e),
        }
    }

    proof fn lemma_roundtrip(v: u64, rest: Seq<u8>) {
        lemma_pow256_values();
        lemma_le_encoding_len(v as nat, 8);
        lemma_le_parse_roundtrip(v as nat, 8, rest);
    }
}

impl ProtoCodec for LE<i32> {
    open spec fn encodable(v: i32) -> bool {
        true
    }

    open spec fn wire(v: i32) -> Seq<u8> {
        le_encoding(to_unsigned(v as int, 4), 4)
    }

    open spec fn parse(s: Seq<u8>) -> Result<(i32, nat), ProtoCodecError> {
        le_i32_parse(s)
    }

    fn proto_serialize(&self, stream: &mut Vec<u8>) -> (r: Result<(), ProtoCodecError>) {
        write_le_i32(stream, self.0);
        Ok(())
    }

    fn proto_deserialize(stream: &mut ByteReader) -> (r: Result<Self, ProtoCodecError>) {
        match stream.read_le_i32() {
            Ok(v) => Ok(LE(v)),
            Err(e) => Err(e),
        }
    }

    proof fn lemma_roundtrip(v: i32, rest: Seq<u8>) {
        lemma_pow256_values();
        lemma_le_encoding_len(to_unsigned(v as int, 4), 4);
        lemma_le_parse_signed_roundtrip(v as int, 4, rest);
    }
}

impl ProtoCodec for LE<i64> {
    open spec fn encodable(v: i64) -> bool {
        true
    }

    open spec fn wire(v: i64) -> Seq<u8> {
        le_encoding(to_unsigned(v as int, 8), 8)
    }

    open spec fn parse(s: Seq<u8>) -> Result<(i64, nat), ProtoCodecError> {
        le_i64_parse(s)
    }

    fn proto_serialize(&self, stream: &mut Vec<u8>) -> (r: Result<(), ProtoCodecError>) {
        write_le_i64(stream, self.0);
        Ok(())
    }

    fn proto_deserialize(stream: &mut ByteReader) -> (r: Result<Self, ProtoCodecError>) {
        match stream.read_le_i64() {
            Ok(v) => Ok(LE(v)),
            Err(e) => Err(e),
        }
    }

    proof fn lemma_roundtrip(v: i64, rest: Seq<u8>) {
        lemma_pow256_values();
        lemma_le_encoding_len(to_unsigned(v as int, 8), 8);
        lemma_le_parse_signed_roundtrip(v as int, 8, rest);
    }
}

} // verus!
