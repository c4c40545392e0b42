use bedrock_proto::animate::{AnimateAction, AnimatePacket};
use bedrock_proto::batch::{join_batch, split_batch, Frame};
use bedrock_proto::difficulty::Difficulty;
use bedrock_proto::envelope::{
    decode_batch, encode_batch, read_frame_id, stamp, strip, FrameOutcome,
};
use bedrock_proto::error::ProtoCodecError;
use bedrock_proto::gamepacket::{decode_frame, encode_frame, GamePacket};
use bedrock_proto::registry::{PacketKind, Registry};
use bedrock_proto::resource_packs_stack_pack::ResourcePacksStackPack;

fn full_registry() -> Registry {
    let mut registry = Registry::new();
    assert!(registry.register(44, PacketKind::Animate));
    assert!(registry.register(60, PacketKind::SetDifficulty));
    assert!(registry.register(300, PacketKind::ResourcePackStackEntry));
    registry
}

fn packet_a() -> GamePacket {
    GamePacket::Animate(AnimatePacket {
        action: AnimateAction::Swing { rowing_time_bits: 2.5f32.to_bits() },
        target_runtime_id: 77,
    })
}

fn packet_b() -> GamePacket {
    GamePacket::SetDifficulty(Difficulty::Hard)
}

fn packet_c() -> GamePacket {
    GamePacket::ResourcePackStackEntry(ResourcePacksStackPack {
        id: String::from("pack"),
        version: String::from("1.2.3"),
        sub_pack_name: String::from("hd"),
    })
}

#[test]
fn registry_is_one_to_one() {
    let mut registry = Registry::new();
    assert_eq!(registry.len(), 0);
    assert_eq!(registry.lookup(44), None);
    assert_eq!(registry.identifier(PacketKind::Animate), None);
    assert!(registry.register(44, PacketKind::Animate));
    assert!(!registry.register(44, PacketKind::SetDifficulty));
    assert!(!registry.register(45, PacketKind::Animate));
    assert!(!registry.register(44, PacketKind::Animate));
    assert_eq!(registry.len(), 1);
    assert!(registry.register(60, PacketKind::SetDifficulty));
    assert_eq!(registry.len(), 2);
    assert_eq!(registry.lookup(44), Some(PacketKind::Animate));
    assert_eq!(registry.lookup(60), Some(PacketKind::SetDifficulty));
    assert_eq!(registry.lookup(45), None);
    assert_eq!(registry.identifier(PacketKind::Animate), Some(44));
    assert_eq!(registry.identifier(PacketKind::SetDifficulty), Some(60));
    assert_eq!(registry.identifier(PacketKind::ResourcePackStackEntry), None);
}

#[test]
fn packet_kinds() {
    assert_eq!(packet_a().kind(), PacketKind::Animate);
    assert_eq!(packet_b().kind(), PacketKind::SetDifficulty);
    assert_eq!(packet_c().kind(), PacketKind::ResourcePackStackEntry);
}

#[test]
fn frame_exact_bytes() {
    let registry = full_registry();
    let mut out = vec![0xAA];
    assert_eq!(encode_frame(&registry, &packet_b(), &mut out), Ok(()));
    assert_eq!(out, vec![0xAA, 60, 0x06]);
    let mut out = Vec::new();
    assert_eq!(encode_frame(&registry, &packet_c(), &mut out), Ok(()));
    assert_eq!(
        out,
        vec![0xAC, 0x02, 4, b'p', b'a', b'c', b'k', 5, b'1', b'.', b'2', b'.', b'3', 2, b'h', b'd']
    );
}

#[test]
fn every_registered_id_decodes_into_its_variant() {
    let registry = full_registry();
    for packet in [packet_a(), packet_b(), packet_c()] {
        let mut frame = Vec::new();
        assert_eq!(encode_frame(&registry, &packet, &mut frame), Ok(()));
        let decoded = decode_frame(&registry, &frame);
        assert_eq!(decoded, Ok(packet.clone()));
        assert_eq!(decoded.unwrap().kind(), packet.kind());
    }
}

#[test]
fn unknown_packet_id_is_reported() {
    let registry = full_registry();
    assert_eq!(decode_frame(&registry, &[45, 0x06]), Err(ProtoCodecError::UnknownPacketID(45)));
    assert_eq!(
        decode_frame(&registry, &[0xAD, 0x02]),
        Err(ProtoCodecError::UnknownPacketID(301))
    );
    let empty = Registry::new();
    assert_eq!(decode_frame(&empty, &[60, 0x06]), Err(ProtoCodecError::UnknownPacketID(60)));
}

#[test]
fn frame_failures() {
    let registry = full_registry();
    assert_eq!(decode_frame(&registry, &[]), Err(ProtoCodecError::TruncatedInput));
    assert_eq!(decode_frame(&registry, &[0x80]), Err(ProtoCodecError::TruncatedInput));
    assert_eq!(decode_frame(&registry, &[0x80; 5]), Err(ProtoCodecError::Overflow));
    assert_eq!(decode_frame(&registry, &[60]), Err(ProtoCodecError::TruncatedInput));
    assert_eq!(decode_frame(&registry, &[60, 0x06, 0x00]), Err(ProtoCodecError::FormatMismatch));
    assert_eq!(decode_frame(&registry, &[60, 0x0A]), Err(ProtoCodecError::InvalidEnumID(5)));
    assert_eq!(decode_frame(&registry, &[44, 0x04, 0x01]), Err(ProtoCodecError::InvalidEnumID(2)));
}

#[test]
fn unregistered_variant_is_not_written() {
    let mut registry = Registry::new();
    assert!(registry.register(60, PacketKind::SetDifficulty));
    let mut out = vec![1, 2];
    assert_eq!(
        encode_frame(&registry, &packet_a(), &mut out),
        Err(ProtoCodecError::NotImplemented)
    );
    assert_eq!(out, vec![1, 2]);
    let mut batch = vec![9];
    assert_eq!(
        encode_batch(&registry, &vec![packet_b(), packet_a()], &mut batch),
        Err(ProtoCodecError::NotImplemented)
    );
    assert_eq!(batch, vec![9]);
}

#[test]
fn batch_of_raw_frames_keeps_order() {
    let frames = vec![vec![1u8, 2, 3], vec![], vec![9u8; 200]];
    let mut batch = Vec::new();
    assert_eq!(join_batch(&frames, &mut batch), Ok(()));
    assert_eq!(batch.len(), 1 + 3 + 1 + 2 + 200);
    assert_eq!(&batch[..6], &[3, 1, 2, 3, 0, 0xC8]);
    let split = split_batch(&batch).unwrap();
    assert_eq!(
        split,
        vec![
            Frame { offset: 0, bytes: vec![1, 2, 3] },
            Frame { offset: 4, bytes: vec![] },
            Frame { offset: 5, bytes: vec![9u8; 200] },
        ]
    );
    assert_eq!(split_batch(&[]), Ok(vec![]));
}

#[test]
fn batch_with_partial_tail_is_a_format_error() {
    assert_eq!(split_batch(&[2, 1, 2, 5, 1]), Err(ProtoCodecError::FormatMismatch));
    assert_eq!(split_batch(&[2, 1, 2, 0x80]), Err(ProtoCodecError::FormatMismatch));
    assert_eq!(split_batch(&[1]), Err(ProtoCodecError::FormatMismatch));
    assert_eq!(split_batch(&[0x80, 0x80, 0x80, 0x80, 0x80, 0]), Err(ProtoCodecError::FormatMismatch));
    let registry = full_registry();
    assert_eq!(decode_batch(&registry, &[2, 60, 0x06, 7]), Err(ProtoCodecError::FormatMismatch));
}

#[test]
fn batch_dispatches_in_wire_order() {
    let registry = full_registry();
    let packets = vec![packet_a(), packet_b(), packet_c()];
    let mut batch = Vec::new();
    assert_eq!(encode_batch(&registry, &packets, &mut batch), Ok(()));
    let outcomes = decode_batch(&registry, &batch).unwrap();
    assert_eq!(outcomes.len(), 3);
    assert_eq!(outcomes[0].result, Ok(packet_a()));
    assert_eq!(outcomes[1].result, Ok(packet_b()));
    assert_eq!(outcomes[2].result, Ok(packet_c()));
    assert_eq!(outcomes[0].offset, 0);
    assert_eq!(outcomes[1].offset, 8);
    assert_eq!(outcomes[2].offset, 11);
    let reversed = vec![packet_c(), packet_b(), packet_a()];
    let mut batch = Vec::new();
    assert_eq!(encode_batch(&registry, &reversed, &mut batch), Ok(()));
    let outcomes = decode_batch(&registry, &batch).unwrap();
    let decoded: Vec<GamePacket> = outcomes.into_iter().map(|o| o.result.unwrap()).collect();
    assert_eq!(decoded, reversed);
}

#[test]
fn bad_frame_is_reported_in_place() {
    let registry = full_registry();
    let batch = [2u8, 60, 0x02, 2, 45, 0x00, 2, 60, 0x0A, 2, 60, 0x00];
    let outcomes = decode_batch(&registry, &batch).unwrap();
    assert_eq!(
        outcomes,
        vec![
            FrameOutcome {
                offset: 0,
                packet_id: Some(60),
                result: Ok(GamePacket::SetDifficulty(Difficulty::Easy)),
            },
            FrameOutcome {
                offset: 3,
                packet_id: Some(45),
                result: Err(ProtoCodecError::UnknownPacketID(45)),
            },
            FrameOutcome {
                offset: 6,
                packet_id: Some(60),
                result: Err(ProtoCodecError::InvalidEnumID(5)),
            },
            FrameOutcome {
                offset: 9,
                packet_id: Some(60),
                result: Ok(GamePacket::SetDifficulty(Difficulty::Peaceful)),
            },
        ]
    );
}

#[test]
fn frame_without_identifier() {
    let registry = full_registry();
    let outcomes = decode_batch(&registry, &[0, 1, 0x80]).unwrap();
    assert_eq!(
        outcomes,
        vec![
            FrameOutcome {
                offset: 0,
                packet_id: None,
                result: Err(ProtoCodecError::TruncatedInput),
            },
            FrameOutcome {
                offset: 1,
                packet_id: None,
                result: Err(ProtoCodecError::TruncatedInput),
            },
        ]
    );
    assert_eq!(read_frame_id(&[0xAC, 0x02, 9]), Some(300));
    assert_eq!(read_frame_id(&[]), None);
    assert_eq!(read_frame_id(&[0x80; 5]), None);
}

#[test]
fn empty_batch() {
    let registry = full_registry();
    let mut batch = vec![7];
    assert_eq!(encode_batch(&registry, &vec![], &mut batch), Ok(()));
    assert_eq!(batch, vec![7]);
    assert_eq!(decode_batch(&registry, &[]), Ok(vec![]));
}

#[test]
fn stamp_and_strip() {
    assert_eq!(stamp(0xFE, &[1, 2, 3]), vec![0xFE, 1, 2, 3]);
    assert_eq!(stamp(0x01, &[]), vec![0x01]);
    assert_eq!(strip(0xFE, &[0xFE, 1, 2, 3]), Ok(vec![1, 2, 3]));
    assert_eq!(strip(0xFE, &[0xFE]), Ok(vec![]));
    assert_eq!(strip(0xFE, &[0xFD, 1]), Err(ProtoCodecError::FormatMismatch));
    assert_eq!(strip(0xFE, &[]), Err(ProtoCodecError::TruncatedInput));
    assert_eq!(strip(0x10, &stamp(0x10, &[5, 6])), Ok(vec![5, 6]));
}
