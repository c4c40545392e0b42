use vstd::prelude::*;

verus! {

/// Everything that can go wrong while encoding or decoding protocol data.
///
/// Errors carry no detail beyond what a caller needs to decide between
/// dropping one packet and dropping the connection.
#[derive(Debug, Clone, Copy, PartialEq, Eq, Structural)]
pub enum ProtoCodecError {
    /// The input ended in the middle of a value.
    TruncatedInput,
    /// A variable-width integer does not fit the width it was read as.
    Overflow,
    /// A frame names a packet identifier that the registry does not hold.
    UnknownPacketID(u32),
    /// An enum-valued field carries a tag that selects no variant.
    InvalidEnumID(i32),
    /// The input is well-formed at the byte level but has the wrong shape.
    FormatMismatch,
    /// A key or certificate is not valid standard base64.
    Base64DecodeError,
    /// A text region is not valid UTF-8.
    Utf8Error,
    /// A token is not a JSON Web Token, or its claims were refused.
    JwtError,
    /// A link of the certificate chain names another key than the one the
    /// link before it vouches for.
    CredentialChainBroken,
    /// The requested transport or codec path does not exist yet.
    NotImplemented,
}

} // verus!
