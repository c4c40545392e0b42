use crate::animate::AnimatePacket;
use crate::codec::ProtoCodec;
use crate::difficulty::Difficulty;
use crate::error::ProtoCodecError;
use crate::registry::{one_to_one, PacketKind, Registry};
use crate::resource_packs_stack_pack::{ResourcePacksStackPack, ResourcePacksStackPackView};
use crate::stream::{write_bytes, write_var_u32, ByteReader};
use crate::varint::{lemma_var_u32_roundtrip, uvar_encoding, var_u32_parse};
use vstd::prelude::*;

verus! {

/// A packet of any of the variants that the library knows.
#[derive(Debug, Clone, PartialEq, Eq)]
pub enum GamePacket {
    Animate(AnimatePacket),
    SetDifficulty(Difficulty),
    ResourcePackStackEntry(ResourcePacksStackPack),
}

/// The mathematical counterpart of [`GamePacket`].
pub enum GamePacketView {
    Animate(AnimatePacket),
    SetDifficulty(Difficulty),
    ResourcePackStackEntry(ResourcePacksStackPackView),
}

impl View for GamePacket {
    type V = GamePacketView;

    open spec fn view(&self) -> GamePacketView {
        match self {
            GamePacket::Animate(p) => GamePacketView::Animate(*p),
            GamePacket::SetDifficulty(d) => GamePacketView::SetDifficulty(*d),
            GamePacket::ResourcePackStackEntry(e) => GamePacketView::ResourcePackStackEntry(e@),
        }
    }
}

/// The variant that a packet is of.
pub open spec fn packet_kind(p: GamePacketView) -> PacketKind {
    match p {
        GamePacketView::Animate(_) => PacketKind::Animate,
        GamePacketView::SetDifficulty(_) => PacketKind::SetDifficulty,
        GamePacketView::ResourcePackStackEntry(_) => PacketKind::ResourcePackStackEntry,
    }
}

/// Whether the fields of a packet have a wire form.
pub open spec fn payload_encodable(p: GamePacketView) -> bool {
    match p {
        GamePacketView::Animate(a) => AnimatePacket::encodable(a),
        GamePacketView::SetDifficulty(d) => Difficulty::encodable(d),
        GamePacketView::ResourcePackStackEntry(e) => ResourcePacksStackPack::encodable(e),
    }
}

/// The bytes of the fields of a packet, without its identifier.
pub open spec fn payload_wire(p: GamePacketView) -> Seq<u8> {
    match p {
        GamePacketView::Animate(a) => AnimatePacket::wire(a),
        GamePacketView::SetDifficulty(d) => Difficulty::wire(d),
        GamePacketView::ResourcePackStackEntry(e) => ResourcePacksStackPack::wire(e),
    }
}

/// The packet of variant `kind` whose fields stand at the front of `s`.
pub open spec fn payload_parse(kind: PacketKind, s: Seq<u8>) -> Result<
    (GamePacketView, nat),
    ProtoCodecError,
> {
    match kind {
        PacketKind::Animate => match AnimatePacket::parse(s) {
            Ok((a, k)) => Ok((GamePacketView::Animate(a), k)),
            Err(e) => Err(e),
        },
        PacketKind::SetDifficulty => match Difficulty::parse(s) {
            Ok((d, k)) => Ok((GamePacketView::SetDifficulty(d), k)),
            Err(e) => Err(e),
        },
        PacketKind::ResourcePackStackEntry => match ResourcePacksStackPack::parse(s) {
            Ok((e, k)) => Ok((GamePacketView::ResourcePackStackEntry(e), k)),
            Err(e) => Err(e),
        },
    }
}

/// A frame: the packet's identifier in variable-width form, then its
/// fields.
pub open spec fn frame_wire(id: u32, p: GamePacketView) -> Seq<u8> {
    uvar_encoding(id as nat) + payload_wire(p)
}

/// The packet that the frame `s` holds under `registry`.
///
/// The identifier is read first and looked up; an identifier that is not
/// registered is `UnknownPacketID`. The fields have to fill the rest of
/// the frame exactly: a frame that ends early fails as the field that
/// was cut short does, and bytes left over are a `FormatMismatch`.
pub open spec fn frame_parse(registry: Registry, s: Seq<u8>) -> Result<
    GamePacketView,
    ProtoCodecError,
> {
    match var_u32_parse(s) {
        Err(e) => Err(e),
        Ok((id, k)) => match registry.kind_of(id) {
            None => Err(ProtoCodecError::UnknownPacketID(id)),
            Some(kind) => match payload_parse(kind, s.skip(k as int)) {
                Err(e) => Err(e),
                Ok((p, n)) => if k + n == s.len() {
                    Ok(p)
                } else {
                    Err(ProtoCodecError::FormatMismatch)
                },
            },
        },
    }
}

impl GamePacket {
    /// The variant of the packet.
    pub fn kind(&self) -> (k: PacketKind)
        ensures
            k == packet_kind(self@),
    {
        match self {
            GamePacket::Animate(_) => PacketKind::Animate,
            GamePacket::SetDifficulty(_) => PacketKind::SetDifficulty,
            GamePacket::ResourcePackStackEntry(_) => PacketKind::ResourcePackStackEntry,
        }
    }

    /// Appends the fields of the packet. A packet whose fields have no
    /// wire form is refused with `Overflow` and nothing is written.
    pub fn serialize_payload(&self, stream: &mut Vec<u8>) -> (r: Result<(), ProtoCodecError>)
        ensures
            match r {
                Ok(_) => payload_encodable(self@) && final(stream)@ == old(stream)@ + payload_wire(
                    self@,
                ),
                Err(e) => !payload_encodable(self@) && final(stream)@ == old(stream)@ && e
                    == ProtoCodecError::Overflow,
            },
    {
        match self {
            GamePacket::Animate(p) => p.proto_serialize(stream),
            GamePacket::SetDifficulty(d) => d.proto_serialize(stream),
            GamePacket::ResourcePackStackEntry(e) => e.proto_serialize(stream),
        }
    }

    /// Reads the fields of a packet of the given variant.
    pub fn deserialize_payload(kind: PacketKind, stream: &mut ByteReader) -> (r: Result<
        Self,
        ProtoCodecError,
    >)
        ensures
            crate::codec::decode_outcome(
                *old(stream),
                *final(stream),
                r,
                payload_parse(kind, old(stream).remaining()),
            ),
    {
        match kind {
            PacketKind::Animate => match AnimatePacket::proto_deserialize(stream) {
                Ok(p) => Ok(GamePacket::Animate(p)),
                Err(e) => Err(e),
            },
            PacketKind::SetDifficulty => match Difficulty::proto_deserialize(stream) {
                Ok(d) => Ok(GamePacket::SetDifficulty(d)),
                Err(e) => Err(e),
            },
            PacketKind::ResourcePackStackEntry => match ResourcePacksStackPack::proto_deserialize(
                stream,
            ) {
                Ok(e) => Ok(GamePacket::ResourcePackStackEntry(e)),
                Err(e) => Err(e),
            },
        }
    }
}

/// Appends the frame of `packet` to `out`. A packet whose variant has no
/// identifier in `registry` is refused with `NotImplemented`, one whose
/// fields have no wire form with `Overflow`; nothing is written then.
pub fn encode_frame(registry: &Registry, packet: &GamePacket, out: &mut Vec<u8>) -> (r: Result<
    (),
    ProtoCodecError,
>)
    ensures
        match registry.id_of(packet_kind(packet@)) {
            None => r == Err::<(), ProtoCodecError>(ProtoCodecError::NotImplemented) && final(out)@ == old(out)@,
            Some(id) => if payload_encodable(packet@) {
                r is Ok && final(out)@ == old(out)@ + frame_wire(id, packet@)
            } else {
                r == Err::<(), ProtoCodecError>(ProtoCodecError::Overflow) && final(out)@ == old(out)@
            },
        },
{
    let id: u32 = match registry.identifier(packet.kind()) {
        Some(id) => id,
        None => {
            return Err(ProtoCodecError::NotImplemented);
        },
    };
    let mut body: Vec<u8> = Vec::new();
    match packet.serialize_payload(&mut body) {
        Ok(_) => {},
        Err(e) => {
            return Err(e);
        },
    }
    write_var_u32(out, id);
    write_bytes(out, body.as_slice());
    assert(body@ =~= payload_wire(packet@));
    assert(out@ =~= old(out)@ + frame_wire(id, packet@));
    Ok(())
}

/// Reads the packet that a frame holds: the identifier is resolved in
/// `registry` and the fields are read as its variant says; see
/// [`frame_parse`].
pub fn decode_frame(registry: &Registry, frame: &[u8]) -> (r: Result<GamePacket, ProtoCodecError>)
    ensures
        match frame_parse(*registry, frame@) {
            Ok(p) => r is Ok && r->Ok_0@ == p,
            Err(e) => r == Err::<GamePacket, ProtoCodecError>(e),
        },
{
    let mut reader: ByteReader = ByteReader::new(frame);
    assert(reader.remaining() =~= frame@);
    let id: u32 = match reader.read_var_u32() {
        Ok(id) => id,
        Err(e) => {
            return Err(e);
        },
    };
    let kind: PacketKind = match registry.lookup(id) {
        Some(kind) => kind,
        None => {
            return Err(ProtoCodecError::UnknownPacketID(id));
        },
    };
    let packet: GamePacket = match GamePacket::deserialize_payload(kind, &mut reader) {
        Ok(packet) => packet,
        Err(e) => {
            return Err(e);
        },
    };
    if !reader.is_exhausted() {
        return Err(ProtoCodecError::FormatMismatch);
    }
    Ok(packet)
}

/// A packet that is read is of the variant that its identifier is
/// registered for.
pub proof fn lemma_dispatch_matches(registry: Registry, s: Seq<u8>)
    ensures
        frame_parse(registry, s) matches Ok(p) ==> var_u32_parse(s) matches Ok((id, _))
            && registry.kind_of(id) == Some(packet_kind(p)),
{
}

/// An identifier that is not registered is reported as such, whatever
/// follows it in the frame.
pub proof fn lemma_dispatch_unknown(registry: Registry, id: u32, rest: Seq<u8>)
    requires
        registry.kind_of(id) is None,
    ensures
        frame_parse(registry, uvar_encoding(id as nat) + rest) == Err::<
            GamePacketView,
            ProtoCodecError,
        >(ProtoCodecError::UnknownPacketID(id)),
{
    lemma_var_u32_roundtrip(id, rest);
}

/// Reading the fields of a packet that were written gives the packet back.
pub proof fn lemma_payload_roundtrip(p: GamePacketView, rest: Seq<u8>)
    requires
        payload_encodable(p),
    ensures
        payload_parse(packet_kind(p), payload_wire(p) + rest) == Ok::<
            (GamePacketView, nat),
            ProtoCodecError,
        >((p, payload_wire(p).len())),
{
    match p {
        GamePacketView::Animate(a) => AnimatePacket::lemma_roundtrip(a, rest),
        GamePacketView::SetDifficulty(d) => Difficulty::lemma_roundtrip(d, rest),
        GamePacketView::ResourcePackStackEntry(e) => ResourcePacksStackPack::lemma_roundtrip(
            e,
            rest,
        ),
    }
}

/// Reading a frame that was written gives the packet back, for every
/// packet variant that is registered.
pub proof fn lemma_frame_roundtrip(registry: Registry, id: u32, p: GamePacketView)
    requires
        one_to_one(registry.entries()),
        registry.id_of(packet_kind(p)) == Some(id),
        payload_encodable(p),
    ensures
        frame_parse(registry, frame_wire(id, p)) == Ok::<GamePacketView, ProtoCodecError>(p),
{
    let head = uvar_encoding(id as nat);
    let body = payload_wire(p);
    let s = frame_wire(id, p);
    registry.lemma_bidirectional(id, packet_kind(p));
    lemma_var_u32_roundtrip(id, body);
    lemma_payload_roundtrip(p, Seq::empty());
    assert(body + Seq::<u8>::empty() =~= body);
    assert(s.skip(head.len() as int) =~= body);
}

} // verus!
