//! The wire protocol of a block-building multiplayer game.
//!
//! Three layers, each proved against a mathematical description of what
//! it reads and writes:
//!
//! - the integer codec ([`varint`], [`fixed`], [`stream`]) and the typed
//!   codec built on it ([`codec`], [`text`], and the packet types);
//! - the frames and batches that carry packets ([`registry`],
//!   [`gamepacket`], [`batch`], [`envelope`], [`transport`]);
//! - the login handshake, which walks a chain of identity tokens
//!   ([`json`], [`token`], [`claims`], [`chain`], [`connection_request`])
//!   and the per-peer state it feeds ([`connection`]).
//!
//! Calls into other crates (JSON, tokens, base64, UUIDs) stand behind
//! small functions whose contracts are assumed; every one of them says in
//! its documentation what is taken on trust.

pub mod animate;
pub mod batch;
pub mod chain;
pub mod chunk_pos;
pub mod claims;
pub mod codec;
pub mod connection;
pub mod connection_request;
pub mod difficulty;
pub mod envelope;
pub mod error;
pub mod fixed;
pub mod gamepacket;
pub mod json;
pub mod registry;
pub mod resource_packs_stack_pack;
pub mod stream;
pub mod subchunk;
pub mod text;
pub mod token;
pub mod transport;
pub mod uuid;
pub mod varint;
