use crate::envelope::{stamp, strip, untagged};
use crate::error::ProtoCodecError;
use vstd::prelude::*;

verus! {

/// The byte that marks a datagram of the reliable-UDP transport as
/// carrying game data.
pub const RAKNET_GAME_PACKET_ID: u8 = 0xfe;

/// The transports a connection can run over. Only the reliable-UDP one is
/// there yet.
#[derive(Debug, Clone, Copy, PartialEq, Eq, Structural)]
pub enum TransportKind {
    RaknetUDP,
    NetherNet,
}

/// The identifier byte that a transport stamps on game data, where the
/// transport exists.
pub open spec fn identifier_of(kind: TransportKind) -> Option<u8> {
    match kind {
        TransportKind::RaknetUDP => Some(RAKNET_GAME_PACKET_ID),
        TransportKind::NetherNet => None,
    }
}

/// What a transport hands to the channel for `payload`: its identifier
/// byte, then the payload.
pub open spec fn datagram_of(kind: TransportKind, payload: Seq<u8>) -> Result<
    Seq<u8>,
    ProtoCodecError,
> {
    match identifier_of(kind) {
        Some(id) => Ok(seq![id] + payload),
        None => Err(ProtoCodecError::NotImplemented),
    }
}

/// The payload of a datagram that a transport took from the channel: the
/// identifier byte has to be the transport's own.
pub open spec fn payload_of(kind: TransportKind, datagram: Seq<u8>) -> Result<
    Seq<u8>,
    ProtoCodecError,
> {
    match identifier_of(kind) {
        Some(id) => untagged(id, datagram),
        None => Err(ProtoCodecError::NotImplemented),
    }
}

/// The identifier byte of a transport. A transport that does not exist
/// yet is `NotImplemented`.
pub fn identifier(kind: TransportKind) -> (r: Result<u8, ProtoCodecError>)
    ensures
        match identifier_of(kind) {
            Some(id) => r == Ok::<u8, ProtoCodecError>(id),
            None => r == Err::<u8, ProtoCodecError>(ProtoCodecError::NotImplemented),
        },
{
    match kind {
        TransportKind::RaknetUDP => Ok(RAKNET_GAME_PACKET_ID),
        TransportKind::NetherNet => Err(ProtoCodecError::NotImplemented),
    }
}

/// Makes the datagram that carries `payload` over the given transport.
pub fn frame_for_send(kind: TransportKind, payload: &[u8]) -> (r: Result<Vec<u8>, ProtoCodecError>)
    ensures
        match datagram_of(kind, payload@) {
            Ok(datagram) => r is Ok && r->Ok_0@ == datagram,
            Err(e) => r == Err::<Vec<u8>, ProtoCodecError>(e),
        },
{
    match identifier(kind) {
        Ok(id) => Ok(stamp(id, payload)),
        Err(e) => Err(e),
    }
}

/// Takes the payload out of a datagram that came over the given
/// transport. An empty datagram is cut short; another identifier byte
/// than the transport's is a `FormatMismatch`.
pub fn unframe_received(kind: TransportKind, datagram: &[u8]) -> (r: Result<
    Vec<u8>,
    ProtoCodecError,
>)
    ensures
        match payload_of(kind, datagram@) {
            Ok(payload) => r is Ok && r->Ok_0@ == payload,
            Err(e) => r == Err::<Vec<u8>, ProtoCodecError>(e),
        },
{
    match identifier(kind) {
        Ok(id) => strip(id, datagram),
        Err(e) => Err(e),
    }
}

/// What was framed for sending is taken back out unchanged on receipt.
pub proof fn lemma_transport_roundtrip(kind: TransportKind, payload: Seq<u8>)
    requires
        identifier_of(kind) is Some,
    ensures
        datagram_of(kind, payload) matches Ok(datagram) && payload_of(kind, datagram) == Ok::<
            Seq<u8>,
            ProtoCodecError,
        >(payload),
{
    let id = identifier_of(kind).unwrap();
    assert((seq![id] + payload).skip(1) =~= payload);
}

} // verus!
