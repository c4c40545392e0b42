use crate::codec::ProtoCodec;
use crate::error::ProtoCodecError;
use crate::stream::{write_var_i32, ByteReader};
use crate::varint::{lemma_var_i32_roundtrip, uvar_encoding, var_i32_parse, zigzag};
use vstd::prelude::*;

verus! {

/// How hard the world is set to be.
#[derive(Debug, Clone, Copy, PartialEq, Eq, Structural)]
pub enum Difficulty {
    Peaceful,
    Easy,
    Normal,
    Hard,
}

/// The tag that stands for a difficulty on the wire.
pub open spec fn difficulty_tag(d: Difficulty) -> i32 {
    match d {
        Difficulty::Peaceful => 0,
        Difficulty::Easy => 1,
        Difficulty::Normal => 2,
        Difficulty::Hard => 3,
    }
}

/// The difficulty that a tag stands for.
pub open spec fn difficulty_of(tag: i32) -> Option<Difficulty> {
    if tag == 0 {
        Some(Difficulty::Peaceful)
    } else if tag == 1 {
        Some(Difficulty::Easy)
    } else if tag == 2 {
        Some(Difficulty::Normal)
    } else if tag == 3 {
        Some(Difficulty::Hard)
    } else {
        None
    }
}

impl View for Difficulty {
    type V = Difficulty;

    open spec fn view(&self) -> Difficulty {
        *self
    }
}

impl ProtoCodec for Difficulty {
    open spec fn encodable(v: Difficulty) -> bool {
        true
    }

    open spec fn wire(v: Difficulty) -> Seq<u8> {
        uvar_encoding(zigzag(difficulty_tag(v) as int))
    }

    open spec fn parse(s: Seq<u8>) -> Result<(Difficulty, nat), ProtoCodecError> {
        match var_i32_parse(s) {
            Err(e) => Err(e),
            Ok((tag, k)) => match difficulty_of(tag) {
                Some(d) => Ok((d, k)),
                None => Err(ProtoCodecError::InvalidEnumID(tag)),
            },
        }
    }

    fn proto_serialize(&self, stream: &mut Vec<u8>) -> (r: Result<(), ProtoCodecError>) {
        let tag: i32 = match self {
            Difficulty::Peaceful => 0x00,
            Difficulty::Easy => 0x01,
            Difficulty::Normal => 0x02,
            Difficulty::Hard => 0x03,
        };
        write_var_i32(stream, tag);
        Ok(())
    }

    fn proto_deserialize(stream: &mut ByteReader) -> (r: Result<Self, ProtoCodecError>) {
        let mut cursor: ByteReader = *stream;
        let tag: i32 = match cursor.read_var_i32() {
            Ok(tag) => tag,
            Err(e) => {
                return Err(e);
            },
        };
        let difficulty: Difficulty = match tag {
            0 => Difficulty::Peaceful,
            1 => Difficulty::Easy,
            2 => Difficulty::Normal,
            3 => Difficulty::Hard,
            other => {
                return Err(ProtoCodecError::InvalidEnumID(other));
            },
        };
        *stream = cursor;
        Ok(difficulty)
    }

    proof fn lemma_roundtrip(v: Difficulty, rest: Seq<u8>) {
        lemma_var_i32_roundtrip(difficulty_tag(v), rest);
    }
}

} // verus!
