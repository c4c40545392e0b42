use crate::codec::ProtoCodec;
use crate::error::ProtoCodecError;
use crate::fixed::{le_encoding, le_u32_parse, lemma_le_encoding_len, lemma_le_parse_roundtrip, lemma_pow256_values};
use crate::stream::{write_le_u32, write_var_i32, write_var_u64, ByteReader};
use crate::varint::{
    lemma_var_i32_roundtrip, lemma_var_u64_roundtrip, uvar_encoding, var_i32_parse, var_u64_parse,
    zigzag,
};
use vstd::prelude::*;

verus! {

/// What an actor is shown doing. Swinging carries a rowing time, a 32-bit
/// float that is held here as its bit pattern.
#[derive(Debug, Clone, Copy, PartialEq, Eq, Structural)]
pub enum AnimateAction {
    NoAction,
    Swing { rowing_time_bits: u32 },
    WakeUp,
    CriticalHit,
    MagicCriticalHit,
    RowRight,
    RowLeft,
}

/// Tells the peer to play an animation on an actor.
#[derive(Debug, Clone, Copy, PartialEq, Eq, Structural)]
pub struct AnimatePacket {
    pub action: AnimateAction,
    pub target_runtime_id: u64,
}

/// The tag that stands for an action on the wire.
pub open spec fn action_tag(action: AnimateAction) -> i32 {
    match action {
        AnimateAction::NoAction => 0,
        AnimateAction::Swing { .. } => 1,
        AnimateAction::WakeUp => 3,
        AnimateAction::CriticalHit => 4,
        AnimateAction::MagicCriticalHit => 5,
        AnimateAction::RowRight => 128,
        AnimateAction::RowLeft => 129,
    }
}

/// The action without fields that a tag stands for.
pub open spec fn plain_action(tag: i32) -> Option<AnimateAction> {
    if tag == 0 {
        Some(AnimateAction::NoAction)
    } else if tag == 3 {
        Some(AnimateAction::WakeUp)
    } else if tag == 4 {
        Some(AnimateAction::CriticalHit)
    } else if tag == 5 {
        Some(AnimateAction::MagicCriticalHit)
    } else if tag == 128 {
        Some(AnimateAction::RowRight)
    } else if tag == 129 {
        Some(AnimateAction::RowLeft)
    } else {
        None
    }
}

/// The fields that follow the actor's identifier: the rowing time of a
/// swing, nothing for any other action.
pub open spec fn action_fields(action: AnimateAction) -> Seq<u8> {
    match action {
        AnimateAction::Swing { rowing_time_bits } => le_encoding(rowing_time_bits as nat, 4),
        _ => Seq::empty(),
    }
}

/// The action with tag `tag` whose fields stand at the front of `s`. A tag
/// that selects no action is refused with `InvalidEnumID`.
pub open spec fn action_parse(tag: i32, s: Seq<u8>) -> Result<(AnimateAction, nat), ProtoCodecError> {
    if tag == 1 {
        match le_u32_parse(s) {
            Ok((bits, k)) => Ok((AnimateAction::Swing { rowing_time_bits: bits }, k)),
            Err(e) => Err(e),
        }
    } else {
        match plain_action(tag) {
            Some(action) => Ok((action, 0)),
            None => Err(ProtoCodecError::InvalidEnumID(tag)),
        }
    }
}

impl View for AnimatePacket {
    type V = AnimatePacket;

    open spec fn view(&self) -> AnimatePacket {
        *self
    }
}

impl ProtoCodec for AnimatePacket {
    open spec fn encodable(v: AnimatePacket) -> bool {
        true
    }

    open spec fn wire(v: AnimatePacket) -> Seq<u8> {
        uvar_encoding(zigzag(action_tag(v.action) as int)) + uvar_encoding(
            v.target_runtime_id as nat,
        ) + action_fields(v.action)
    }

    open spec fn parse(s: Seq<u8>) -> Result<(AnimatePacket, nat), ProtoCodecError> {
        match var_i32_parse(s) {
            Err(e) => Err(e),
            Ok((tag, k0)) => match var_u64_parse(s.skip(k0 as int)) {
                Err(e) => Err(e),
                Ok((id, k1)) => match action_parse(tag, s.skip((k0 + k1) as int)) {
                    Err(e) => Err(e),
                    Ok((action, k2)) => Ok(
                        (AnimatePacket { action, target_runtime_id: id }, k0 + k1 + k2),
                    ),
                },
            },
        }
    }

    fn proto_serialize(&self, stream: &mut Vec<u8>) -> (r: Result<(), ProtoCodecError>) {
        let tag: i32 = match self.action {
            AnimateAction::NoAction => 0,
            AnimateAction::Swing { .. } => 1,
            AnimateAction::WakeUp => 3,
            AnimateAction::CriticalHit => 4,
            AnimateAction::MagicCriticalHit => 5,
            AnimateAction::RowRight => 128,
            AnimateAction::RowLeft => 129,
        };
        write_var_i32(stream, tag);
        write_var_u64(stream, self.target_runtime_id);
        if let AnimateAction::Swing { rowing_time_bits } = self.action {
            write_le_u32(stream, rowing_time_bits);
        }
        assert(stream@ =~= old(stream)@ + Self::wire(*self));
        Ok(())
    }

    fn proto_deserialize(stream: &mut ByteReader) -> (r: Result<Self, ProtoCodecError>) {
        let mut cursor: ByteReader = *stream;
        let tag: i32 = match cursor.read_var_i32() {
            Ok(tag) => tag,
            Err(e) => {
                return Err(e);
            },
        };
        let ghost k0 = cursor.offset() - stream.offset();
        proof {
            assert(cursor.remaining() =~= stream.remaining().skip(k0));
        }
        let target_runtime_id: u64 = match cursor.read_var_u64() {
            Ok(id) => id,
            Err(e) => {
                return Err(e);
            },
        };
        let ghost k1 = cursor.offset() - stream.offset();
        proof {
            assert(cursor.remaining() =~= stream.remaining().skip(k1));
        }
        let action: AnimateAction = match tag {
            0 => AnimateAction::NoAction,
            1 => match cursor.read_le_u32() {
                Ok(bits) => AnimateAction::Swing { rowing_time_bits: bits },
                Err(e) => {
                    return Err(e);
                },
            },
            3 => AnimateAction::WakeUp,
            4 => AnimateAction::CriticalHit,
            5 => AnimateAction::MagicCriticalHit,
            128 => AnimateAction::RowRight,
            129 => AnimateAction::RowLeft,
            other => {
                return Err(ProtoCodecError::InvalidEnumID(other));
            },
        };
        *stream = cursor;
        Ok(AnimatePacket { action, target_runtime_id })
    }

    proof fn lemma_roundtrip(v: AnimatePacket, rest: Seq<u8>) {
        let tag = action_tag(v.action);
        let head = uvar_encoding(zigzag(tag as int));
        let id = uvar_encoding(v.target_runtime_id as nat);
        let fields = action_fields(v.action);
        let s = Self::wire(v) + rest;
        lemma_var_i32_roundtrip(tag, id + fields + rest);
        lemma_var_u64_roundtrip(v.target_runtime_id, fields + rest);
        assert(s =~= head + (id + fields + rest));
        assert(s.skip(head.len() as int) =~= id + (fields + rest));
        assert(s.skip((head.len() + id.len()) as int) =~= fields + rest);
        assert(id + fields + rest =~= id + (fields + rest));
        match v.action {
            AnimateAction::Swing { rowing_time_bits } => {
                lemma_pow256_values();
                lemma_le_encoding_len(rowing_time_bits as nat, 4);
                lemma_le_parse_roundtrip(rowing_time_bits as nat, 4, rest);
            },
            _ => {},
        }
    }
}

} // verus!
