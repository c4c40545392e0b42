use crate::connection_request::{handshake_outcome, ConnectionRequest};
use crate::envelope::{stamp, strip, untagged};
use crate::error::ProtoCodecError;
use crate::stream::ByteReader;
use crate::transport::{
    datagram_of, frame_for_send, identifier_of, payload_of, unframe_received, TransportKind,
};
use vstd::prelude::*;

verus! {

/// How far the handshake of a connection has come. A connection only
/// ever moves forward through the phases.
#[derive(Debug, Clone, Copy, PartialEq, Eq, Structural)]
pub enum HandshakePhase {
    Unauthenticated,
    ChainValidated,
    SessionActive,
}

/// A change that the buffer of a batch goes through between the codec and
/// the transport. The library says which changes are due and in which
/// order; making them is left to the caller.
#[derive(Debug, Clone, Copy, PartialEq, Eq, Structural)]
pub enum Transform {
    Compress,
    Encrypt,
    Decrypt,
    Decompress,
}

/// The place of a phase in the order of phases.
pub open spec fn phase_rank(phase: HandshakePhase) -> nat {
    match phase {
        HandshakePhase::Unauthenticated => 0,
        HandshakePhase::ChainValidated => 1,
        HandshakePhase::SessionActive => 2,
    }
}

/// The changes a batch goes through on its way out: compression first,
/// where it has been negotiated, then encryption, where it is on.
pub open spec fn outbound_plan(compression: bool, encryption: bool) -> Seq<Transform> {
    (if compression {
        seq![Transform::Compress]
    } else {
        Seq::empty()
    }) + (if encryption {
        seq![Transform::Encrypt]
    } else {
        Seq::empty()
    })
}

/// The changes a batch goes through on its way in: those of the way out,
/// undone in the opposite order.
pub open spec fn inbound_plan(compression: bool, encryption: bool) -> Seq<Transform> {
    (if encryption {
        seq![Transform::Decrypt]
    } else {
        Seq::empty()
    }) + (if compression {
        seq![Transform::Decompress]
    } else {
        Seq::empty()
    })
}

/// What belongs to one peer: the transport it is reached over, the tag
/// that marks a payload as a batch of game data, what has been negotiated
/// for the session, and how far the handshake has come.
pub struct Connection {
    transport: TransportKind,
    batch_tag: u8,
    compression: bool,
    encryption: bool,
    phase: HandshakePhase,
}

impl Connection {
    /// The transport of the connection.
    pub closed spec fn transport_kind(&self) -> TransportKind {
        self.transport
    }

    /// The tag of a batch of game data.
    pub closed spec fn tag(&self) -> u8 {
        self.batch_tag
    }

    /// Whether batches are compressed.
    pub closed spec fn compressed(&self) -> bool {
        self.compression
    }

    /// Whether batches are encrypted.
    pub closed spec fn encrypted(&self) -> bool {
        self.encryption
    }

    /// The phase of the handshake.
    pub closed spec fn current_phase(&self) -> HandshakePhase {
        self.phase
    }

    /// Whether `later` is the same connection as `self` but for its phase.
    pub open spec fn same_session(&self, later: &Connection) -> bool {
        &&& later.transport_kind() == self.transport_kind()
        &&& later.tag() == self.tag()
        &&& later.compressed() == self.compressed()
        &&& later.encrypted() == self.encrypted()
    }

    /// The bytes that go to the channel for a buffer that has been through
    /// the changes of the way out: the transport's identifier byte, the
    /// batch tag, the buffer.
    pub open spec fn outbound_wire(&self, buffer: Seq<u8>) -> Result<Seq<u8>, ProtoCodecError> {
        datagram_of(self.transport_kind(), seq![self.tag()] + buffer)
    }

    /// The buffer that a datagram from the channel carries, before the
    /// changes of the way in: both marker bytes have to be the expected
    /// ones.
    pub open spec fn inbound_buffer(&self, datagram: Seq<u8>) -> Result<Seq<u8>, ProtoCodecError> {
        match payload_of(self.transport_kind(), datagram) {
            Ok(payload) => untagged(self.tag(), payload),
            Err(e) => Err(e),
        }
    }

    /// A connection that has just been accepted: nothing negotiated, the
    /// peer not authenticated.
    pub fn new(transport: TransportKind, batch_tag: u8) -> (c: Self)
        ensures
            c.transport_kind() == transport,
            c.tag() == batch_tag,
            !c.compressed(),
            !c.encrypted(),
            c.current_phase() == HandshakePhase::Unauthenticated,
    {
        Connection {
            transport,
            batch_tag,
            compression: false,
            encryption: false,
            phase: HandshakePhase::Unauthenticated,
        }
    }

    /// The phase of the handshake.
    pub fn phase(&self) -> (p: HandshakePhase)
        ensures
            p == self.current_phase(),
    {
        self.phase
    }

    /// The transport the peer is reached over.
    pub fn transport(&self) -> (kind: TransportKind)
        ensures
            kind == self.transport_kind(),
    {
        self.transport
    }

    /// The tag that marks a payload as a batch of game data.
    pub fn batch_tag(&self) -> (tag: u8)
        ensures
            tag == self.tag(),
    {
        self.batch_tag
    }

    /// Whether compression has been negotiated.
    pub fn compression_enabled(&self) -> (b: bool)
        ensures
            b == self.compressed(),
    {
        self.compression
    }

    /// Whether encryption is on.
    pub fn encryption_enabled(&self) -> (b: bool)
        ensures
            b == self.encrypted(),
    {
        self.encryption
    }

    /// Turns compression on for every batch from now on.
    pub fn enable_compression(&mut self)
        ensures
            final(self).compressed(),
            final(self).encrypted() == old(self).encrypted(),
            final(self).transport_kind() == old(self).transport_kind(),
            final(self).tag() == old(self).tag(),
            final(self).current_phase() == old(self).current_phase(),
    {
        self.compression = true;
    }

    /// Turns encryption on for every batch from now on.
    pub fn enable_encryption(&mut self)
        ensures
            final(self).encrypted(),
            final(self).compressed() == old(self).compressed(),
            final(self).transport_kind() == old(self).transport_kind(),
            final(self).tag() == old(self).tag(),
            final(self).current_phase() == old(self).current_phase(),
    {
        self.encryption = true;
    }

    /// Reads the handshake payload of a peer that is not authenticated
    /// yet, as [`ConnectionRequest::proto_deserialize`] does. On success
    /// the chain is validated and the connection moves to
    /// `ChainValidated`. On failure nothing changes: the attempt is over
    /// and the caller closes the transport. A connection that is past its
    /// handshake refuses another one with `FormatMismatch` and reads
    /// nothing.
    pub fn login(&mut self, stream: &mut ByteReader) -> (r: Result<
        ConnectionRequest,
        ProtoCodecError,
    >)
        ensures
            old(self).same_session(final(self)),
            phase_rank(final(self).current_phase()) >= phase_rank(old(self).current_phase()),
            final(stream).source() == old(stream).source(),
            match r {
                Ok(_) => old(self).current_phase() == HandshakePhase::Unauthenticated && final(self).current_phase() == HandshakePhase::ChainValidated,
                Err(_) => final(self).current_phase() == old(self).current_phase() && final(stream).offset() == old(stream).offset(),
            },
            old(self).current_phase() != HandshakePhase::Unauthenticated ==> r == Err::<
                ConnectionRequest,
                ProtoCodecError,
            >(ProtoCodecError::FormatMismatch),
            old(self).current_phase() == HandshakePhase::Unauthenticated ==> handshake_outcome(
                *old(stream),
                *final(stream),
                r,
            ),
    {
        match self.phase {
            HandshakePhase::Unauthenticated => {},
            _ => {
                return Err(ProtoCodecError::FormatMismatch);
            },
        }
        match ConnectionRequest::proto_deserialize(stream) {
            Ok(request) => {
                self.phase = HandshakePhase::ChainValidated;
                Ok(request)
            },
            Err(e) => Err(e),
        }
    }

    /// Moves a connection whose chain has been validated to
    /// `SessionActive`. In any other phase nothing changes and the answer
    /// is `FormatMismatch`.
    pub fn activate(&mut self) -> (r: Result<(), ProtoCodecError>)
        ensures
            old(self).same_session(final(self)),
            phase_rank(final(self).current_phase()) >= phase_rank(old(self).current_phase()),
            match r {
                Ok(_) => old(self).current_phase() == HandshakePhase::ChainValidated && final(self).current_phase() == HandshakePhase::SessionActive,
                Err(e) => e == ProtoCodecError::FormatMismatch && old(self).current_phase()
                    != HandshakePhase::ChainValidated && final(self).current_phase() == old(self).current_phase(),
            },
    {
        match self.phase {
            HandshakePhase::ChainValidated => {
                self.phase = HandshakePhase::SessionActive;
                Ok(())
            },
            _ => Err(ProtoCodecError::FormatMismatch),
        }
    }

    /// The changes that a batch buffer is due on its way out, in order.
    pub fn outbound_transforms(&self) -> (plan: Vec<Transform>)
        ensures
            plan@ == outbound_plan(self.compressed(), self.encrypted()),
    {
        let mut plan: Vec<Transform> = Vec::new();
        if self.compression {
            plan.push(Transform::Compress);
        }
        if self.encryption {
            plan.push(Transform::Encrypt);
        }
        assert(plan@ =~= outbound_plan(self.compression, self.encryption));
        plan
    }

    /// The changes that a batch buffer is due on its way in, in order.
    pub fn inbound_transforms(&self) -> (plan: Vec<Transform>)
        ensures
            plan@ == inbound_plan(self.compressed(), self.encrypted()),
    {
        let mut plan: Vec<Transform> = Vec::new();
        if self.encryption {
            plan.push(Transform::Decrypt);
        }
        if self.compression {
            plan.push(Transform::Decompress);
        }
        assert(plan@ =~= inbound_plan(self.compression, self.encryption));
        plan
    }

    /// Makes the datagram for a buffer that has been through the changes
    /// of the way out; see [`Connection::outbound_wire`].
    pub fn seal(&self, buffer: &[u8]) -> (r: Result<Vec<u8>, ProtoCodecError>)
        ensures
            match self.outbound_wire(buffer@) {
                Ok(datagram) => r is Ok && r->Ok_0@ == datagram,
                Err(e) => r == Err::<Vec<u8>, ProtoCodecError>(e),
            },
    {
        let tagged: Vec<u8> = stamp(self.batch_tag, buffer);
        frame_for_send(self.transport, tagged.as_slice())
    }

    /// Takes the buffer out of a datagram, for the changes of the way in;
    /// see [`Connection::inbound_buffer`].
    pub fn open(&self, datagram: &[u8]) -> (r: Result<Vec<u8>, ProtoCodecError>)
        ensures
            match self.inbound_buffer(datagram@) {
                Ok(buffer) => r is Ok && r->Ok_0@ == buffer,
                Err(e) => r == Err::<Vec<u8>, ProtoCodecError>(e),
            },
    {
        match unframe_received(self.transport, datagram) {
            Ok(payload) => strip(self.batch_tag, payload.as_slice()),
            Err(e) => Err(e),
        }
    }

    /// What one side seals the other side opens to the same buffer.
    pub proof fn lemma_seal_open(&self, buffer: Seq<u8>)
        requires
            identifier_of(self.transport_kind()) is Some,
        ensures
            self.outbound_wire(buffer) matches Ok(datagram) && self.inbound_buffer(datagram)
                == Ok::<Seq<u8>, ProtoCodecError>(buffer),
    {
        let id = identifier_of(self.transport_kind()).unwrap();
        let tagged = seq![self.tag()] + buffer;
        assert((seq![id] + tagged).skip(1) =~= tagged);
        assert(tagged.skip(1) =~= buffer);
    }
}

/// The way in undoes the way out: the changes of the way in are those of
/// the way out, each replaced by its opposite, in the opposite order.
pub proof fn lemma_plans_mirror(compression: bool, encryption: bool)
    ensures
        inbound_plan(compression, encryption).len() == outbound_plan(
            compression,
            encryption,
        ).len(),
        forall|i: int|
            0 <= i < outbound_plan(compression, encryption).len() ==> inverse(
                #[trigger] outbound_plan(compression, encryption)[i],
            ) == inbound_plan(compression, encryption)[outbound_plan(
                compression,
                encryption,
            ).len() - 1 - i],
{
}

/// The change that undoes `t`.
pub open spec fn inverse(t: Transform) -> Transform {
    match t {
        Transform::Compress => Transform::Decompress,
        Transform::Encrypt => Transform::Decrypt,
        Transform::Decrypt => Transform::Encrypt,
        Transform::Decompress => Transform::Compress,
    }
}

} // verus!
