use crate::codec::{ProtoCodec, VAR};
use crate::error::ProtoCodecError;
use crate::stream::{write_var_i32, ByteReader};
use crate::varint::{lemma_var_i32_roundtrip, uvar_encoding, var_i32_parse, zigzag};
use vstd::prelude::*;

verus! {

/// The position of a chunk column: both coordinates travel in
/// variable-width form.
#[derive(Debug, Clone, Copy, PartialEq, Eq)]
pub struct ChunkPos {
    pub x: VAR<i32>,
    pub z: VAR<i32>,
}

impl View for ChunkPos {
    type V = (i32, i32);

    open spec fn view(&self) -> (i32, i32) {
        (self.x@, self.z@)
    }
}

impl ChunkPos {
    /// The position with the given coordinates.
    pub fn new(x: i32, z: i32) -> (pos: Self)
        ensures
            pos@ == (x, z),
    {
        ChunkPos { x: VAR::new(x), z: VAR::new(z) }
    }
}

impl ProtoCodec for ChunkPos {
    open spec fn encodable(v: (i32, i32)) -> bool {
        true
    }

    open spec fn wire(v: (i32, i32)) -> Seq<u8> {
        uvar_encoding(zigzag(v.0 as int)) + uvar_encoding(zigzag(v.1 as int))
    }

    open spec fn parse(s: Seq<u8>) -> Result<((i32, i32), nat), ProtoCodecError> {
        match var_i32_parse(s) {
            Err(e) => Err(e),
            Ok((x, k0)) => match var_i32_parse(s.skip(k0 as int)) {
                Err(e) => Err(e),
                Ok((z, k1)) => Ok(((x, z), k0 + k1)),
            },
        }
    }

    fn proto_serialize(&self, stream: &mut Vec<u8>) -> (r: Result<(), ProtoCodecError>) {
        write_var_i32(stream, self.x.0);
        write_var_i32(stream, self.z.0);
        Ok(())
    }

    fn proto_deserialize(stream: &mut ByteReader) -> (r: Result<Self, ProtoCodecError>) {
        let mut cursor: ByteReader = *stream;
        let x: i32 = match cursor.read_var_i32() {
            Ok(x) => x,
            Err(e) => {
                return Err(e);
            },
        };
        let ghost k0 = cursor.offset() - stream.offset();
        proof {
            assert(cursor.remaining() =~= stream.remaining().skip(k0));
        }
        let z: i32 = match cursor.read_var_i32() {
            Ok(z) => z,
            Err(e) => {
                return Err(e);
            },
        };
        *stream = cursor;
        Ok(ChunkPos::new(x, z))
    }

    proof fn lemma_roundtrip(v: (i32, i32), rest: Seq<u8>) {
        let first = uvar_encoding(zigzag(v.0 as int));
        let second = uvar_encoding(zigzag(v.1 as int));
        let s = Self::wire(v) + rest;
        lemma_var_i32_roundtrip(v.0, second + rest);
        lemma_var_i32_roundtrip(v.1, rest);
        assert(s =~= first + (second + rest));
        assert(s.skip(first.len() as int) =~= second + rest);
    }
}

} // verus!
