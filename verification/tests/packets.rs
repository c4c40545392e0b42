use bedrock_proto::animate::{AnimateAction, AnimatePacket};
use bedrock_proto::chunk_pos::ChunkPos;
use bedrock_proto::codec::{from_bytes, to_bytes, ProtoCodec, LE, VAR};
use bedrock_proto::difficulty::Difficulty;
use bedrock_proto::error::ProtoCodecError;
use bedrock_proto::resource_packs_stack_pack::ResourcePacksStackPack;
use bedrock_proto::stream::ByteReader;

fn all_actions() -> Vec<AnimateAction> {
    vec![
        AnimateAction::NoAction,
        AnimateAction::Swing { rowing_time_bits: 1.5f32.to_bits() },
        AnimateAction::Swing { rowing_time_bits: 0 },
        AnimateAction::Swing { rowing_time_bits: u32::MAX },
        AnimateAction::WakeUp,
        AnimateAction::CriticalHit,
        AnimateAction::MagicCriticalHit,
        AnimateAction::RowRight,
        AnimateAction::RowLeft,
    ]
}

#[test]
fn var_and_le_wrappers() {
    assert_eq!(VAR::new(5i32).into_inner(), 5);
    assert_eq!(LE::new(7u64).into_inner(), 7);
    let mut out = Vec::new();
    assert_eq!(VAR::<i32>::new(-3).proto_serialize(&mut out), Ok(()));
    assert_eq!(VAR::<u32>::new(300).proto_serialize(&mut out), Ok(()));
    assert_eq!(VAR::<u64>::new(1 << 40).proto_serialize(&mut out), Ok(()));
    assert_eq!(VAR::<i64>::new(i64::MIN).proto_serialize(&mut out), Ok(()));
    assert_eq!(LE::<u16>::new(0xABCD).proto_serialize(&mut out), Ok(()));
    assert_eq!(LE::<u32>::new(1).proto_serialize(&mut out), Ok(()));
    assert_eq!(LE::<u64>::new(u64::MAX).proto_serialize(&mut out), Ok(()));
    assert_eq!(LE::<i32>::new(-1).proto_serialize(&mut out), Ok(()));
    assert_eq!(LE::<i64>::new(-2).proto_serialize(&mut out), Ok(()));
    assert_eq!(&out[..3], &[0x05, 0xAC, 0x02]);
    let mut reader = ByteReader::new(&out);
    assert_eq!(VAR::<i32>::proto_deserialize(&mut reader), Ok(VAR(-3)));
    assert_eq!(VAR::<u32>::proto_deserialize(&mut reader), Ok(VAR(300)));
    assert_eq!(VAR::<u64>::proto_deserialize(&mut reader), Ok(VAR(1 << 40)));
    assert_eq!(VAR::<i64>::proto_deserialize(&mut reader), Ok(VAR(i64::MIN)));
    assert_eq!(LE::<u16>::proto_deserialize(&mut reader), Ok(LE(0xABCD)));
    assert_eq!(LE::<u32>::proto_deserialize(&mut reader), Ok(LE(1)));
    assert_eq!(LE::<u64>::proto_deserialize(&mut reader), Ok(LE(u64::MAX)));
    assert_eq!(LE::<i32>::proto_deserialize(&mut reader), Ok(LE(-1)));
    assert_eq!(LE::<i64>::proto_deserialize(&mut reader), Ok(LE(-2)));
    assert!(reader.is_exhausted());
    assert_eq!(
        LE::<i64>::proto_deserialize(&mut reader),
        Err(ProtoCodecError::TruncatedInput)
    );
}

#[test]
fn text_exact_bytes_and_round_trip() {
    let mut out = Vec::new();
    assert_eq!(String::from("héllo").proto_serialize(&mut out), Ok(()));
    assert_eq!(out, vec![6, b'h', 0xC3, 0xA9, b'l', b'l', b'o']);
    assert_eq!(String::new().proto_serialize(&mut out), Ok(()));
    assert_eq!(out.len(), 8);
    let mut reader = ByteReader::new(&out);
    assert_eq!(String::proto_deserialize(&mut reader), Ok(String::from("héllo")));
    assert_eq!(String::proto_deserialize(&mut reader), Ok(String::new()));
    assert!(reader.is_exhausted());
}

#[test]
fn text_failures() {
    let bytes = [3u8, b'a', b'b'];
    let mut reader = ByteReader::new(&bytes);
    assert_eq!(String::proto_deserialize(&mut reader), Err(ProtoCodecError::TruncatedInput));
    assert_eq!(reader.position(), 0);
    let bytes = [2u8, 0xC3, 0x28];
    let mut reader = ByteReader::new(&bytes);
    assert_eq!(String::proto_deserialize(&mut reader), Err(ProtoCodecError::Utf8Error));
    assert_eq!(reader.position(), 0);
    let bytes = [0x80u8];
    let mut reader = ByteReader::new(&bytes);
    assert_eq!(String::proto_deserialize(&mut reader), Err(ProtoCodecError::TruncatedInput));
    let bytes = [0x80u8, 0x80, 0x80, 0x80, 0x80];
    let mut reader = ByteReader::new(&bytes);
    assert_eq!(String::proto_deserialize(&mut reader), Err(ProtoCodecError::Overflow));
}

#[test]
fn chunk_pos_round_trip() {
    let pos = ChunkPos::new(-5, 1000);
    assert_eq!(pos.x.into_inner(), -5);
    assert_eq!(pos.z.into_inner(), 1000);
    let mut out = Vec::new();
    assert_eq!(pos.proto_serialize(&mut out), Ok(()));
    assert_eq!(out, vec![0x09, 0xD0, 0x0F]);
    let mut reader = ByteReader::new(&out);
    assert_eq!(ChunkPos::proto_deserialize(&mut reader), Ok(pos));
    assert!(reader.is_exhausted());
    for (x, z) in [(i32::MIN, i32::MAX), (0, 0), (i32::MAX, i32::MIN)] {
        let pos = ChunkPos::new(x, z);
        let mut out = Vec::new();
        assert_eq!(pos.proto_serialize(&mut out), Ok(()));
        let mut reader = ByteReader::new(&out);
        assert_eq!(ChunkPos::proto_deserialize(&mut reader), Ok(pos));
    }
    let bytes = [0x09u8];
    let mut reader = ByteReader::new(&bytes);
    assert_eq!(ChunkPos::proto_deserialize(&mut reader), Err(ProtoCodecError::TruncatedInput));
    assert_eq!(reader.position(), 0);
}

#[test]
fn difficulty_tags() {
    let cases = [
        (Difficulty::Peaceful, 0x00u8),
        (Difficulty::Easy, 0x02),
        (Difficulty::Normal, 0x04),
        (Difficulty::Hard, 0x06),
    ];
    for (difficulty, byte) in cases {
        let mut out = Vec::new();
        assert_eq!(difficulty.proto_serialize(&mut out), Ok(()));
        assert_eq!(out, vec![byte]);
        let mut reader = ByteReader::new(&out);
        assert_eq!(Difficulty::proto_deserialize(&mut reader), Ok(difficulty));
    }
}

#[test]
fn difficulty_unknown_tag() {
    let bytes = [0x08u8];
    let mut reader = ByteReader::new(&bytes);
    assert_eq!(
        Difficulty::proto_deserialize(&mut reader),
        Err(ProtoCodecError::InvalidEnumID(4))
    );
    assert_eq!(reader.position(), 0);
    let bytes = [0x01u8];
    let mut reader = ByteReader::new(&bytes);
    assert_eq!(
        Difficulty::proto_deserialize(&mut reader),
        Err(ProtoCodecError::InvalidEnumID(-1))
    );
}

#[test]
fn animate_exact_bytes() {
    let packet = AnimatePacket { action: AnimateAction::RowLeft, target_runtime_id: 300 };
    let mut out = Vec::new();
    assert_eq!(packet.proto_serialize(&mut out), Ok(()));
    assert_eq!(out, vec![0x82, 0x02, 0xAC, 0x02]);
    let packet = AnimatePacket {
        action: AnimateAction::Swing { rowing_time_bits: 1.0f32.to_bits() },
        target_runtime_id: 1,
    };
    let mut out = Vec::new();
    assert_eq!(packet.proto_serialize(&mut out), Ok(()));
    assert_eq!(out, vec![0x02, 0x01, 0x00, 0x00, 0x80, 0x3F]);
}

#[test]
fn animate_round_trips_every_action() {
    for action in all_actions() {
        for id in [0u64, 1, 127, 128, u64::MAX] {
            let packet = AnimatePacket { action, target_runtime_id: id };
            let mut out = Vec::new();
            assert_eq!(packet.proto_serialize(&mut out), Ok(()));
            out.push(0xEE);
            let mut reader = ByteReader::new(&out);
            assert_eq!(AnimatePacket::proto_deserialize(&mut reader), Ok(packet));
            assert_eq!(reader.remaining_len(), 1);
        }
    }
}

#[test]
fn animate_swing_keeps_the_float() {
    let packet = AnimatePacket {
        action: AnimateAction::Swing { rowing_time_bits: 0.25f32.to_bits() },
        target_runtime_id: 9,
    };
    let mut out = Vec::new();
    assert_eq!(packet.proto_serialize(&mut out), Ok(()));
    let mut reader = ByteReader::new(&out);
    match AnimatePacket::proto_deserialize(&mut reader) {
        Ok(AnimatePacket { action: AnimateAction::Swing { rowing_time_bits }, .. }) => {
            assert_eq!(f32::from_bits(rowing_time_bits), 0.25);
        }
        other => panic!("unexpected {:?}", other),
    }
}

#[test]
fn animate_failures() {
    let bytes = [0x04u8, 0x01];
    let mut reader = ByteReader::new(&bytes);
    assert_eq!(
        AnimatePacket::proto_deserialize(&mut reader),
        Err(ProtoCodecError::InvalidEnumID(2))
    );
    assert_eq!(reader.position(), 0);
    let bytes = [0x02u8, 0x01, 0x00, 0x00];
    let mut reader = ByteReader::new(&bytes);
    assert_eq!(
        AnimatePacket::proto_deserialize(&mut reader),
        Err(ProtoCodecError::TruncatedInput)
    );
    let bytes = [0x04u8];
    let mut reader = ByteReader::new(&bytes);
    assert_eq!(
        AnimatePacket::proto_deserialize(&mut reader),
        Err(ProtoCodecError::TruncatedInput)
    );
    let bytes: [u8; 0] = [];
    let mut reader = ByteReader::new(&bytes);
    assert_eq!(
        AnimatePacket::proto_deserialize(&mut reader),
        Err(ProtoCodecError::TruncatedInput)
    );
}

#[test]
fn resource_pack_entry_round_trip() {
    let entry = ResourcePacksStackPack {
        id: String::from("0fba4063-dba1-4281-9b89-ff9390653530"),
        version: String::from("1.0.0"),
        sub_pack_name: String::new(),
    };
    let mut out = Vec::new();
    assert_eq!(entry.proto_serialize(&mut out), Ok(()));
    assert_eq!(out.len(), 1 + 36 + 1 + 5 + 1);
    assert_eq!(out[0], 36);
    assert_eq!(out[37], 5);
    assert_eq!(out[43], 0);
    let mut reader = ByteReader::new(&out);
    assert_eq!(ResourcePacksStackPack::proto_deserialize(&mut reader), Ok(entry));
    assert!(reader.is_exhausted());
    let mut reader = ByteReader::new(&out[..40]);
    assert_eq!(
        ResourcePacksStackPack::proto_deserialize(&mut reader),
        Err(ProtoCodecError::TruncatedInput)
    );
    assert_eq!(reader.position(), 0);
}

#[test]
fn whole_values() {
    assert_eq!(to_bytes(&VAR::<u32>::new(300)), Ok(vec![0xAC, 0x02]));
    assert_eq!(to_bytes(&Difficulty::Normal), Ok(vec![0x04]));
    assert_eq!(to_bytes(&String::from("ab")), Ok(vec![2, b'a', b'b']));
    assert_eq!(from_bytes::<VAR<u32>>(&[0xAC, 0x02]), Ok(VAR(300)));
    assert_eq!(from_bytes::<Difficulty>(&[0x04]), Ok(Difficulty::Normal));
    assert_eq!(from_bytes::<Difficulty>(&[0x04, 0x00]), Err(ProtoCodecError::FormatMismatch));
    assert_eq!(from_bytes::<Difficulty>(&[]), Err(ProtoCodecError::TruncatedInput));
    assert_eq!(from_bytes::<LE<i32>>(&[0xFF, 0xFF, 0xFF, 0xFF]), Ok(LE(-1)));
    for action in all_actions() {
        let packet = AnimatePacket { action, target_runtime_id: 5 };
        let bytes = to_bytes(&packet).unwrap();
        assert_eq!(from_bytes::<AnimatePacket>(&bytes), Ok(packet));
    }
    let pos = ChunkPos::new(7, -7);
    assert_eq!(from_bytes::<ChunkPos>(&to_bytes(&pos).unwrap()), Ok(pos));
}
