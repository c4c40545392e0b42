use bedrock_proto::connection::{Connection, HandshakePhase, Transform};
use bedrock_proto::error::ProtoCodecError;
use bedrock_proto::stream::ByteReader;
use bedrock_proto::subchunk::SubChunk;
use bedrock_proto::transport::{
    frame_for_send, identifier, unframe_received, TransportKind, RAKNET_GAME_PACKET_ID,
};

#[test]
fn raknet_identifier_byte() {
    assert_eq!(RAKNET_GAME_PACKET_ID, 0xFE);
    assert_eq!(identifier(TransportKind::RaknetUDP), Ok(0xFE));
    assert_eq!(identifier(TransportKind::NetherNet), Err(ProtoCodecError::NotImplemented));
}

#[test]
fn transport_stamps_on_send() {
    assert_eq!(frame_for_send(TransportKind::RaknetUDP, &[1, 2]), Ok(vec![0xFE, 1, 2]));
    assert_eq!(frame_for_send(TransportKind::RaknetUDP, &[]), Ok(vec![0xFE]));
}

#[test]
fn transport_validates_on_receive() {
    assert_eq!(unframe_received(TransportKind::RaknetUDP, &[0xFE, 1, 2]), Ok(vec![1, 2]));
    assert_eq!(
        unframe_received(TransportKind::RaknetUDP, &[0xFD, 1, 2]),
        Err(ProtoCodecError::FormatMismatch)
    );
    assert_eq!(
        unframe_received(TransportKind::RaknetUDP, &[]),
        Err(ProtoCodecError::TruncatedInput)
    );
}

#[test]
fn unimplemented_transport_is_an_error() {
    assert_eq!(
        frame_for_send(TransportKind::NetherNet, &[1]),
        Err(ProtoCodecError::NotImplemented)
    );
    assert_eq!(
        unframe_received(TransportKind::NetherNet, &[0xFE, 1]),
        Err(ProtoCodecError::NotImplemented)
    );
}

#[test]
fn new_connection_state() {
    let connection = Connection::new(TransportKind::RaknetUDP, 0x2A);
    assert_eq!(connection.phase(), HandshakePhase::Unauthenticated);
    assert!(!connection.compression_enabled());
    assert!(!connection.encryption_enabled());
    assert_eq!(connection.outbound_transforms(), vec![]);
    assert_eq!(connection.inbound_transforms(), vec![]);
}

#[test]
fn transforms_follow_negotiation() {
    let mut connection = Connection::new(TransportKind::RaknetUDP, 0x2A);
    connection.enable_compression();
    assert!(connection.compression_enabled());
    assert_eq!(connection.outbound_transforms(), vec![Transform::Compress]);
    assert_eq!(connection.inbound_transforms(), vec![Transform::Decompress]);
    connection.enable_encryption();
    assert!(connection.encryption_enabled());
    assert_eq!(
        connection.outbound_transforms(),
        vec![Transform::Compress, Transform::Encrypt]
    );
    assert_eq!(
        connection.inbound_transforms(),
        vec![Transform::Decrypt, Transform::Decompress]
    );
    let mut other = Connection::new(TransportKind::RaknetUDP, 0x2A);
    other.enable_encryption();
    assert_eq!(other.outbound_transforms(), vec![Transform::Encrypt]);
    assert_eq!(other.inbound_transforms(), vec![Transform::Decrypt]);
}

#[test]
fn seal_and_open() {
    let connection = Connection::new(TransportKind::RaknetUDP, 0x2A);
    assert_eq!(connection.seal(&[1, 2, 3]), Ok(vec![0xFE, 0x2A, 1, 2, 3]));
    assert_eq!(connection.open(&[0xFE, 0x2A, 1, 2, 3]), Ok(vec![1, 2, 3]));
    assert_eq!(connection.open(&[0xFE, 0x2B, 1]), Err(ProtoCodecError::FormatMismatch));
    assert_eq!(connection.open(&[0xFF, 0x2A, 1]), Err(ProtoCodecError::FormatMismatch));
    assert_eq!(connection.open(&[0xFE]), Err(ProtoCodecError::TruncatedInput));
    assert_eq!(connection.open(&[]), Err(ProtoCodecError::TruncatedInput));
    let reserved = Connection::new(TransportKind::NetherNet, 0x2A);
    assert_eq!(reserved.seal(&[1]), Err(ProtoCodecError::NotImplemented));
    assert_eq!(reserved.open(&[0xFE, 0x2A, 1]), Err(ProtoCodecError::NotImplemented));
}

#[test]
fn phases_only_move_forward() {
    let mut connection = Connection::new(TransportKind::RaknetUDP, 0x2A);
    assert_eq!(connection.activate(), Err(ProtoCodecError::FormatMismatch));
    assert_eq!(connection.phase(), HandshakePhase::Unauthenticated);
    let bytes = [0x80u8];
    let mut reader = ByteReader::new(&bytes);
    assert!(matches!(connection.login(&mut reader), Err(ProtoCodecError::TruncatedInput)));
    assert_eq!(connection.phase(), HandshakePhase::Unauthenticated);
    assert_eq!(reader.position(), 0);
}

#[test]
fn subchunk_without_palette_is_not_loaded() {
    assert!(SubChunk::load(vec![1]).is_none());
    assert!(SubChunk::load(vec![9, 8, 0]).is_none());
    assert!(SubChunk::load(vec![7]).is_none());
    assert!(SubChunk::load(vec![10]).is_none());
}
