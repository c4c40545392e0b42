use crate::batch::{
    batch_parse, batch_wire, bodies_view, frames_view, join_batch, lemma_batch_order, split_batch,
    Frame,
};
use crate::error::ProtoCodecError;
use crate::gamepacket::{
    decode_frame, encode_frame, frame_parse, frame_wire, lemma_frame_roundtrip, packet_kind,
    payload_encodable, GamePacket, GamePacketView,
};
use crate::registry::{one_to_one, Registry};
use crate::stream::ByteReader;
use crate::varint::var_u32_parse;
use vstd::prelude::*;

verus! {

/// What became of one frame of a batch: where the frame starts in the
/// batch, the packet identifier it names, if that much of it could be
/// read, and the packet it held or the reason why it held none.
#[derive(Debug, PartialEq, Eq)]
pub struct FrameOutcome {
    pub offset: usize,
    pub packet_id: Option<u32>,
    pub result: Result<GamePacket, ProtoCodecError>,
}

/// The packet identifier at the front of a frame, if there is one.
pub open spec fn frame_id(frame: Seq<u8>) -> Option<u32> {
    match var_u32_parse(frame) {
        Ok((id, _)) => Some(id),
        Err(_) => None,
    }
}

/// `outcome` is what reading `frame` under `registry` gives.
pub open spec fn outcome_of(registry: Registry, frame: (nat, Seq<u8>), outcome: FrameOutcome) -> bool {
    &&& outcome.offset == frame.0
    &&& outcome.packet_id == frame_id(frame.1)
    &&& match frame_parse(registry, frame.1) {
        Ok(p) => outcome.result is Ok && outcome.result->Ok_0@ == p,
        Err(e) => outcome.result == Err::<GamePacket, ProtoCodecError>(e),
    }
}

/// The frame that `p` is written as under `registry`, or the reason why
/// it cannot be written: its variant has no identifier
/// (`NotImplemented`), or its fields or the whole frame are too long for
/// a 32-bit length (`Overflow`).
pub open spec fn packet_frame(registry: Registry, p: GamePacketView) -> Result<
    Seq<u8>,
    ProtoCodecError,
> {
    match registry.id_of(packet_kind(p)) {
        None => Err(ProtoCodecError::NotImplemented),
        Some(id) => if payload_encodable(p) && frame_wire(id, p).len() <= u32::MAX {
            Ok(frame_wire(id, p))
        } else {
            Err(ProtoCodecError::Overflow)
        },
    }
}

/// The views of `packets`.
pub open spec fn packets_view(packets: Seq<GamePacket>) -> Seq<GamePacketView> {
    packets.map_values(|p: GamePacket| p@)
}

/// Reads the packet identifier at the front of a frame.
pub fn read_frame_id(frame: &[u8]) -> (id: Option<u32>)
    ensures
        id == frame_id(frame@),
{
    let mut reader: ByteReader = ByteReader::new(frame);
    assert(reader.remaining() =~= frame@);
    match reader.read_var_u32() {
        Ok(id) => Some(id),
        Err(_) => None,
    }
}

/// Takes a batch apart and reads the packet of every frame, in the order
/// of the frames. A batch that cannot be taken apart fails as a whole; a
/// frame that cannot be read is reported in its place and the frames
/// after it are read all the same.
pub fn decode_batch(registry: &Registry, batch: &[u8]) -> (r: Result<
    Vec<FrameOutcome>,
    ProtoCodecError,
>)
    ensures
        match batch_parse(batch@) {
            Err(e) => r == Err::<Vec<FrameOutcome>, ProtoCodecError>(e),
            Ok(frames) => r is Ok && r->Ok_0@.len() == frames.len() && forall|i: int|
                0 <= i < frames.len() ==> outcome_of(
                    *registry,
                    frames[i],
                    #[trigger] r->Ok_0@[i],
                ),
        },
{
    let frames: Vec<Frame> = match split_batch(batch) {
        Ok(frames) => frames,
        Err(e) => {
            return Err(e);
        },
    };
    let mut outcomes: Vec<FrameOutcome> = Vec::new();
    let mut i: usize = 0;
    while i < frames.len()
        invariant
            i <= frames@.len(),
            outcomes@.len() == i,
            forall|j: int|
                0 <= j < i ==> outcome_of(*registry, frames@[j]@, #[trigger] outcomes@[j]),
        decreases frames@.len() - i,
    {
        let frame: &Frame = &frames[i];
        let packet_id: Option<u32> = read_frame_id(frame.bytes.as_slice());
        let result = decode_frame(registry, frame.bytes.as_slice());
        outcomes.push(FrameOutcome { offset: frame.offset, packet_id, result });
        i = i + 1;
    }
    proof {
        assert forall|j: int| 0 <= j < frames@.len() implies frames_view(frames@)[j]
            == frames@[j]@ by {}
    }
    Ok(outcomes)
}

/// Appends one batch that holds the frames of `packets`, in order. Where
/// a packet cannot be written the batch is refused with that packet's
/// error and nothing is written; see [`packet_frame`].
pub fn encode_batch(registry: &Registry, packets: &Vec<GamePacket>, out: &mut Vec<u8>) -> (r:
    Result<(), ProtoCodecError>)
    ensures
        match r {
            Ok(_) => {
                &&& forall|i: int|
                    0 <= i < packets@.len() ==> (#[trigger] packet_frame(
                        *registry,
                        packets@[i]@,
                    )) is Ok
                &&& final(out)@ == old(out)@ + batch_wire(
                    packets_view(packets@).map_values(
                        |p: GamePacketView| packet_frame(*registry, p).unwrap(),
                    ),
                )
            },
            Err(e) => final(out)@ == old(out)@ && exists|i: int|
                0 <= i < packets@.len() && (#[trigger] packet_frame(*registry, packets@[i]@))
                    == Err::<Seq<u8>, ProtoCodecError>(e),
        },
{
    let mut frames: Vec<Vec<u8>> = Vec::new();
    let mut i: usize = 0;
    while i < packets.len()
        invariant
            i <= packets@.len(),
            frames@.len() == i,
            forall|j: int|
                0 <= j < i ==> (#[trigger] packet_frame(*registry, packets@[j]@)) == Ok::<
                    Seq<u8>,
                    ProtoCodecError,
                >(frames@[j]@),
        decreases packets@.len() - i,
    {
        let mut frame: Vec<u8> = Vec::new();
        match encode_frame(registry, &packets[i], &mut frame) {
            Ok(_) => {},
            Err(e) => {
                assert(packet_frame(*registry, packets@[i as int]@) == Err::<
                    Seq<u8>,
                    ProtoCodecError,
                >(e));
                return Err(e);
            },
        }
        if frame.len() > u32::MAX as usize {
            assert(packet_frame(*registry, packets@[i as int]@) == Err::<Seq<u8>, ProtoCodecError>(
                ProtoCodecError::Overflow,
            ));
            return Err(ProtoCodecError::Overflow);
        }
        proof {
            let id = registry.id_of(packet_kind(packets@[i as int]@)).unwrap();
            assert(frame@ =~= frame_wire(id, packets@[i as int]@));
        }
        frames.push(frame);
        i = i + 1;
    }
    proof {
        assert(bodies_view(frames@) =~= packets_view(packets@).map_values(
            |p: GamePacketView| packet_frame(*registry, p).unwrap(),
        ));
        assert forall|j: int| 0 <= j < frames@.len() implies (#[trigger] frames@[j])@.len()
            <= u32::MAX by {
            assert(packet_frame(*registry, packets@[j]@) is Ok);
        }
    }
    match join_batch(&frames, out) {
        Ok(_) => Ok(()),
        Err(_) => {
            proof {
                let j = choose|j: int|
                    0 <= j < frames@.len() && (#[trigger] frames@[j])@.len() > u32::MAX;
                assert(frames@[j]@.len() <= u32::MAX);
            }
            Err(ProtoCodecError::Overflow)
        },
    }
}

/// Packets written into one batch come out of it in the order in which
/// they went in, each read back as the packet it was.
pub proof fn lemma_batch_roundtrip(registry: Registry, packets: Seq<GamePacketView>)
    requires
        one_to_one(registry.entries()),
        forall|i: int| 0 <= i < packets.len() ==> (#[trigger] packet_frame(registry, packets[i]))
            is Ok,
    ensures
        batch_parse(
            batch_wire(packets.map_values(|p: GamePacketView| packet_frame(registry, p).unwrap())),
        ) matches Ok(parsed) && parsed.len() == packets.len() && forall|i: int|
            0 <= i < packets.len() ==> frame_parse(registry, (#[trigger] parsed[i]).1) == Ok::<
                GamePacketView,
                ProtoCodecError,
            >(packets[i]),
{
    let frames = packets.map_values(|p: GamePacketView| packet_frame(registry, p).unwrap());
    assert forall|i: int| 0 <= i < frames.len() implies (#[trigger] frames[i]).len()
        <= u32::MAX by {
        assert(packet_frame(registry, packets[i]) is Ok);
    }
    lemma_batch_order(frames);
    let parsed = batch_parse(batch_wire(frames))->Ok_0;
    assert forall|i: int| 0 <= i < packets.len() implies frame_parse(
        registry,
        (#[trigger] parsed[i]).1,
    ) == Ok::<GamePacketView, ProtoCodecError>(packets[i]) by {
        assert(packet_frame(registry, packets[i]) is Ok);
        let id = registry.id_of(packet_kind(packets[i])).unwrap();
        lemma_frame_roundtrip(registry, id, packets[i]);
        assert(parsed[i].1 == frames[i]);
    }
}

/// What is left of `s` when the tag byte at its front is taken off: an
/// input without a first byte is cut short, another first byte than
/// `tag` is a `FormatMismatch`.
pub open spec fn untagged(tag: u8, s: Seq<u8>) -> Result<Seq<u8>, ProtoCodecError> {
    if s.len() == 0 {
        Err(ProtoCodecError::TruncatedInput)
    } else if s[0] != tag {
        Err(ProtoCodecError::FormatMismatch)
    } else {
        Ok(s.skip(1))
    }
}

/// Puts the tag byte in front of `payload`.
pub fn stamp(tag: u8, payload: &[u8]) -> (r: Vec<u8>)
    ensures
        r@ == seq![tag] + payload@,
        untagged(tag, r@) == Ok::<Seq<u8>, ProtoCodecError>(payload@),
{
    let mut out: Vec<u8> = Vec::new();
    out.push(tag);
    out.extend_from_slice(payload);
    assert(out@ =~= seq![tag] + payload@);
    assert(out@.skip(1) =~= payload@);
    out
}

/// Checks the tag byte at the front of `bytes` and hands out what follows
/// it; see [`untagged`].
pub fn strip(tag: u8, bytes: &[u8]) -> (r: Result<Vec<u8>, ProtoCodecError>)
    ensures
        match untagged(tag, bytes@) {
            Ok(payload) => r is Ok && r->Ok_0@ == payload,
            Err(e) => r == Err::<Vec<u8>, ProtoCodecError>(e),
        },
{
    if bytes.len() == 0 {
        return Err(ProtoCodecError::TruncatedInput);
    }
    if bytes[0] != tag {
        return Err(ProtoCodecError::FormatMismatch);
    }
    let mut out: Vec<u8> = Vec::new();
    let mut i: usize = 1;
    while i < bytes.len()
        invariant
            1 <= i <= bytes@.len(),
            out@ == bytes@.subrange(1, i as int),
        decreases bytes@.len() - i,
    {
        out.push(bytes[i]);
        i = i + 1;
        assert(out@ =~= bytes@.subrange(1, i as int));
    }
    assert(out@ =~= bytes@.skip(1));
    Ok(out)
}

} // verus!
