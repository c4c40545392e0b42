use crate::codec::ProtoCodec;
use crate::error::ProtoCodecError;
use crate::stream::{write_bytes, write_var_u32, ByteReader};
use crate::varint::{lemma_var_u32_roundtrip, uvar_encoding, var_u32_parse};
use vstd::prelude::*;
use vstd::utf8::{decode_utf8, encode_utf8, valid_utf8};

verus! {

/// Turns bytes into text with `String::from_utf8`, which accepts exactly
/// the byte sequences that are valid UTF-8 and keeps their characters.
#[verifier::external_body]
pub(crate) fn utf8_text(bytes: Vec<u8>) -> (r: Option<String>)
    ensures
        match r {
            Some(text) => valid_utf8(bytes@) && text@ == decode_utf8(bytes@),
            None => !valid_utf8(bytes@),
        },
{
    String::from_utf8(bytes).ok()
}

/// The text at the front of `s`: a variable-width byte count, then that
/// many bytes of UTF-8.
#[verifier::opaque]
pub open spec fn text_parse(s: Seq<u8>) -> Result<(Seq<char>, nat), ProtoCodecError> {
    match var_u32_parse(s) {
        Err(e) => Err(e),
        Ok((len, k)) => if s.len() - k < len {
            Err(ProtoCodecError::TruncatedInput)
        } else if !valid_utf8(s.subrange(k as int, k + len)) {
            Err(ProtoCodecError::Utf8Error)
        } else {
            Ok((decode_utf8(s.subrange(k as int, k + len)), k + len as nat))
        },
    }
}

impl ProtoCodec for String {
    open spec fn encodable(v: Seq<char>) -> bool {
        encode_utf8(v).len() <= u32::MAX
    }

    open spec fn wire(v: Seq<char>) -> Seq<u8> {
        uvar_encoding(encode_utf8(v).len()) + encode_utf8(v)
    }

    open spec fn parse(s: Seq<u8>) -> Result<(Seq<char>, nat), ProtoCodecError> {
        text_parse(s)
    }

    fn proto_serialize(&self, stream: &mut Vec<u8>) -> (r: Result<(), ProtoCodecError>)
        ensures
            r is Err ==> r == Err::<(), ProtoCodecError>(ProtoCodecError::Overflow),
    {
        let bytes: &[u8] = self.as_str().as_bytes();
        let len: usize = bytes.len();
        if len > u32::MAX as usize {
            return Err(ProtoCodecError::Overflow);
        }
        write_var_u32(stream, len as u32);
        write_bytes(stream, bytes);
        assert(stream@ =~= old(stream)@ + Self::wire(self@));
        Ok(())
    }

    fn proto_deserialize(stream: &mut ByteReader) -> (r: Result<Self, ProtoCodecError>) {
        proof {
            reveal(text_parse);
        }
        let mut cursor: ByteReader = *stream;
        let len: u32 = match cursor.read_var_u32() {
            Ok(len) => len,
            Err(e) => {
                return Err(e);
            },
        };
        let ghost k = cursor.offset() - stream.offset();
        proof {
            assert(cursor.remaining() =~= stream.remaining().skip(k));
        }
        let bytes: Vec<u8> = match cursor.read_bytes(len as usize) {
            Ok(bytes) => bytes,
            Err(e) => {
                return Err(e);
            },
        };
        proof {
            let s = stream.remaining();
            assert(s.skip(k).take(len as int) =~= s.subrange(k, k + len));
        }
        match utf8_text(bytes) {
            Some(text) => {
                *stream = cursor;
                Ok(text)
            },
            None => Err(ProtoCodecError::Utf8Error),
        }
    }

    proof fn lemma_roundtrip(v: Seq<char>, rest: Seq<u8>) {
        reveal(text_parse);
        let body = encode_utf8(v);
        let head = uvar_encoding(body.len());
        let s = Self::wire(v) + rest;
        lemma_var_u32_roundtrip(body.len() as u32, body + rest);
        assert(s =~= head + (body + rest));
        assert(s.subrange(head.len() as int, (head.len() + body.len()) as int) =~= body);
        vstd::utf8::encode_utf8_valid_utf8(v);
        vstd::utf8::encode_utf8_decode_utf8(v);
    }
}

} // verus!
