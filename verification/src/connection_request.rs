use crate::chain::{
    anchor_of, chain_tokens, chain_tokens_of, chain_verdict, chain_view, claims_of, decode_link,
    first_link_failure, header_keys, walk_chain, walk_verdict,
};
use crate::claims::Claims;
use crate::error::ProtoCodecError;
use crate::fixed::le_i32_parse;
use crate::stream::ByteReader;
use crate::text::utf8_text;
use crate::token::{token_claims, token_x5u};
use crate::varint::var_u32_parse;
use vstd::prelude::*;
use vstd::utf8::{decode_utf8, valid_utf8};

verus! {

/// A region at the front of `s`: a little-endian `i32` byte count, which
/// must not be negative, then that many bytes.
pub open spec fn region_parse(s: Seq<u8>) -> Result<(Seq<u8>, nat), ProtoCodecError> {
    match le_i32_parse(s) {
        Err(e) => Err(e),
        Ok((len, k)) => if len < 0 {
            Err(ProtoCodecError::FormatMismatch)
        } else if s.len() - k < len {
            Err(ProtoCodecError::TruncatedInput)
        } else {
            Ok((s.subrange(k as int, k + len), (k + len) as nat))
        },
    }
}

/// A region at the front of `s` that holds UTF-8 text.
pub open spec fn text_region_parse(s: Seq<u8>) -> Result<(Seq<char>, nat), ProtoCodecError> {
    match region_parse(s) {
        Err(e) => Err(e),
        Ok((bytes, k)) => if valid_utf8(bytes) {
            Ok((decode_utf8(bytes), k))
        } else {
            Err(ProtoCodecError::Utf8Error)
        },
    }
}

/// The front of a handshake payload, up to and including the chain
/// document: an overall length that is read and not used, then the text
/// region of the document. Gives the tokens of the chain and the number
/// of bytes that hold them.
pub open spec fn handshake_prefix(s: Seq<u8>) -> Result<(Seq<Seq<char>>, nat), ProtoCodecError> {
    match var_u32_parse(s) {
        Err(e) => Err(e),
        Ok((_, k0)) => match text_region_parse(s.skip(k0 as int)) {
            Err(e) => Err(e),
            Ok((document, k1)) => match chain_tokens_of(document) {
                Err(e) => Err(e),
                Ok(tokens) => Ok((tokens, k0 + k1)),
            },
        },
    }
}

/// Reads one length-prefixed region of text.
pub fn read_text_region(stream: &mut ByteReader) -> (r: Result<String, ProtoCodecError>)
    ensures
        final(stream).source() == old(stream).source(),
        final(stream).offset() <= final(stream).source().len(),
        match text_region_parse(old(stream).remaining()) {
            Ok((text, k)) => r is Ok && r->Ok_0@ == text && final(stream).offset() == old(
                stream,
            ).offset() + k,
            Err(e) => r == Err::<String, ProtoCodecError>(e) && final(stream).offset() == old(
                stream,
            ).offset(),
        },
{
    let mut cursor: ByteReader = *stream;
    let len: i32 = match cursor.read_le_i32() {
        Ok(len) => len,
        Err(e) => {
            return Err(e);
        },
    };
    if len < 0 {
        return Err(ProtoCodecError::FormatMismatch);
    }
    let ghost k = cursor.offset() - stream.offset();
    proof {
        assert(cursor.remaining() =~= stream.remaining().skip(k));
        if k + len <= stream.remaining().len() {
            assert(stream.remaining().skip(k).take(len as int) =~= stream.remaining().subrange(
                k,
                k + len,
            ));
        }
    }
    let bytes: Vec<u8> = match cursor.read_bytes(len as usize) {
        Ok(bytes) => bytes,
        Err(e) => {
            return Err(e);
        },
    };
    match utf8_text(bytes) {
        Some(text) => {
            *stream = cursor;
            Ok(text)
        },
        None => Err(ProtoCodecError::Utf8Error),
    }
}

/// The parsed handshake payload: the claims of every link of the
/// certificate chain, oldest first, and the claims of the token that
/// carries the client's own data.
pub struct ConnectionRequest {
    /// The claims of each certificate of the chain. The last one carries
    /// the player's identity.
    pub certificate_chain: Vec<Claims>,
    /// The claims of the client-data token: skin, device and the like.
    pub raw_token: Claims,
}

/// Whether the client-data token hangs on the key that the chain leads
/// to: its header has to be readable (`JwtError` if not), and the key it
/// names, if it names one, has to be that key; see [`anchor_of`].
pub open spec fn raw_verdict(key: Seq<u8>, raw: Seq<char>) -> Result<(), ProtoCodecError> {
    match token_x5u(raw) {
        None => Err(ProtoCodecError::JwtError),
        Some(x5u) => match anchor_of(Some(key), x5u) {
            Err(e) => Err(e),
            Ok(_) => Ok(()),
        },
    }
}

/// What a handshake payload comes to when the claims of each of its
/// tokens are decoded: the tokens of the chain, the client-data token and
/// the number of bytes the payload takes, or the first failure met. The
/// steps, in order: the framing and the chain document
/// ([`handshake_prefix`]), the walk of the chain ([`walk_verdict`]), the
/// region of the client-data token, and its place on the chain
/// ([`raw_verdict`]).
pub open spec fn handshake_verdict(s: Seq<u8>) -> Result<
    (Seq<Seq<char>>, Seq<char>, nat),
    ProtoCodecError,
> {
    match handshake_prefix(s) {
        Err(e) => Err(e),
        Ok((tokens, k)) => match walk_verdict(tokens) {
            Err(e) => Err(e),
            Ok(key) => match text_region_parse(s.skip(k as int)) {
                Err(e) => Err(e),
                Ok((raw, k2)) => match raw_verdict(key, raw) {
                    Err(e) => Err(e),
                    Ok(_) => Ok((tokens, raw, k + k2)),
                },
            },
        },
    }
}

/// What reading a handshake payload owes: `r` is the outcome of a read
/// that took a reader from `pre` to `post`.
///
/// A payload that fails before any claims are decoded fails with exactly
/// that failure. After that the token decoder has its say on every
/// token: it may refuse one (`JwtError`); any other failure is the one
/// that [`handshake_verdict`] names. On success the payload is sound as
/// [`handshake_verdict`] says and has been consumed, entry `i` of the
/// chain holds the claims of token `i`, the raw-token claims are those of
/// the client-data token, and the chain is linked as [`chain_verdict`]
/// says. On failure the reader has not moved.
pub open spec fn handshake_outcome(
    pre: ByteReader,
    post: ByteReader,
    r: Result<ConnectionRequest, ProtoCodecError>,
) -> bool {
    &&& post.source() == pre.source()
    &&& post.offset() <= post.source().len()
    &&& handshake_prefix(pre.remaining()) matches Err(e) ==> r == Err::<
        ConnectionRequest,
        ProtoCodecError,
    >(e)
    &&& handshake_prefix(pre.remaining()) matches Ok((tokens, _)) ==> (first_link_failure(tokens)
        matches Some(e) ==> r == Err::<ConnectionRequest, ProtoCodecError>(e))
    &&& match r {
        Ok(request) => {
            &&& handshake_verdict(pre.remaining()) matches Ok((tokens, raw, n))
            &&& post.offset() == pre.offset() + n
            &&& tokens.len() >= 1
            &&& chain_view(request.certificate_chain@) == claims_of(tokens)
            &&& request.raw_token@ == token_claims(raw)
            &&& forall|i: int| 0 <= i < tokens.len() ==> (#[trigger] token_x5u(tokens[i])) is Some
            &&& chain_verdict(header_keys(tokens), chain_view(request.certificate_chain@))
                == Ok::<Option<Seq<u8>>, ProtoCodecError>(Some(walk_verdict(tokens)->Ok_0))
        },
        Err(e) => {
            &&& post.offset() == pre.offset()
            &&& e == ProtoCodecError::JwtError || handshake_verdict(pre.remaining()) == Err::<
                (Seq<Seq<char>>, Seq<char>, nat),
                ProtoCodecError,
            >(e)
        },
    }
}

impl ConnectionRequest {
    /// Writing a connection request is not supported.
    pub fn proto_serialize(&self, stream: &mut Vec<u8>) -> (r: Result<(), ProtoCodecError>)
        ensures
            r == Err::<(), ProtoCodecError>(ProtoCodecError::NotImplemented),
            final(stream)@ == old(stream)@,
    {
        Err(ProtoCodecError::NotImplemented)
    }

    /// Reads a handshake payload: the chain document, whose tokens are
    /// walked as [`walk_chain`] does, then the client-data token, decoded
    /// under the key that the chain leads to.
    ///
    /// What the read owes is said in [`handshake_outcome`]. Nothing of a
    /// request is handed out on failure. Token signatures are not
    /// verified.
    pub fn proto_deserialize(stream: &mut ByteReader) -> (r: Result<Self, ProtoCodecError>)
        ensures
            handshake_outcome(*old(stream), *final(stream), r),
    {
        let mut cursor: ByteReader = *stream;
        match cursor.read_var_u32() {
            Ok(_) => {},
            Err(e) => {
                return Err(e);
            },
        }
        let ghost k0 = cursor.offset() - stream.offset();
        proof {
            assert(cursor.remaining() =~= stream.remaining().skip(k0));
        }
        let document: String = match read_text_region(&mut cursor) {
            Ok(document) => document,
            Err(e) => {
                return Err(e);
            },
        };
        let ghost k = cursor.offset() - stream.offset();
        proof {
            assert(cursor.remaining() =~= stream.remaining().skip(k));
        }
        let tokens: Vec<String> = match chain_tokens(document.as_str()) {
            Ok(tokens) => tokens,
            Err(e) => {
                return Err(e);
            },
        };
        let (certificate_chain, key) = match walk_chain(&tokens) {
            Ok(walked) => walked,
            Err(e) => {
                return Err(e);
            },
        };
        let raw: String = match read_text_region(&mut cursor) {
            Ok(raw) => raw,
            Err(e) => {
                return Err(e);
            },
        };
        let (raw_token, _) = match decode_link(raw.as_str(), Some(key)) {
            Ok(link) => link,
            Err(e) => {
                return Err(e);
            },
        };
        *stream = cursor;
        Ok(ConnectionRequest { certificate_chain, raw_token })
    }
}

} // verus!
