use crate::json::members_view;
use base64::Engine;
use std::collections::BTreeMap;
use vstd::prelude::*;

verus! {

/// `jsonwebtoken::Algorithm`, carried from a token's header to its validation.
#[verifier::external_type_specification]
#[verifier::external_body]
pub struct ExAlgorithm(jsonwebtoken::Algorithm);

/// `jsonwebtoken::Validation`, the checks that a token is decoded under.
#[verifier::external_type_specification]
#[verifier::external_body]
pub struct ExValidation(jsonwebtoken::Validation);

/// `jsonwebtoken::DecodingKey`, the key that a token is decoded under.
#[verifier::external_type_specification]
#[verifier::external_body]
pub struct ExDecodingKey(jsonwebtoken::DecodingKey);

/// `jsonwebtoken::errors::Error`, taken as it comes and not looked into.
#[verifier::external_type_specification]
#[verifier::external_body]
pub struct ExTokenError(jsonwebtoken::errors::Error);

/// `base64::DecodeError`, taken as it comes and not looked into.
#[verifier::external_type_specification]
#[verifier::external_body]
pub struct ExBase64Error(base64::DecodeError);

/// What the handshake reads from the header of a token: the signature
/// algorithm it names and, if it carries one, the key it says it was
/// signed with (`x5u`, still base64 text).
pub struct TokenHeader {
    pub alg: jsonwebtoken::Algorithm,
    pub x5u: Option<String>,
}

/// The characters of an optional text.
pub open spec fn text_view(text: Option<String>) -> Option<Seq<char>> {
    match text {
        Some(t) => Some(t@),
        None => None,
    }
}

/// No key occurs twice among `members`.
pub open spec fn distinct_keys(members: Seq<(Seq<char>, Seq<char>)>) -> bool {
    forall|i: int, j: int|
        0 <= i < j < members.len() ==> (#[trigger] members[i]).0 != (#[trigger] members[j]).0
}

/// The bytes that `input` stands for in standard base64 with padding, if
/// it is valid.
pub uninterp spec fn base64_standard(input: Seq<u8>) -> Option<Seq<u8>>;

/// The `x5u` entry of the header of `token`, if `token` has the three
/// parts of a compact token and a header that can be read.
pub uninterp spec fn token_x5u(token: Seq<char>) -> Option<Option<Seq<char>>>;

/// The claims of `token`, where the token has claims that can be read:
/// each name with the JSON text of its value, in the order of the names.
pub uninterp spec fn token_claims(token: Seq<char>) -> Seq<(Seq<char>, Seq<char>)>;

/// Whether a validation has the signature of a token checked.
pub uninterp spec fn checks_signature(validation: jsonwebtoken::Validation) -> bool;

/// Whether a validation asks for any registered claim to be present.
pub uninterp spec fn requires_registered_claims(validation: jsonwebtoken::Validation) -> bool;

/// The bytes that a decoding key was made from.
pub uninterp spec fn key_der(key: jsonwebtoken::DecodingKey) -> Seq<u8>;

/// Decodes standard base64 with the `decode` method of
/// `base64::prelude::BASE64_STANDARD`. The result is taken to depend on
/// the input alone: `base64_standard` names it.
#[verifier::external_body]
pub(crate) fn base64_decode(input: &[u8]) -> (r: Result<Vec<u8>, base64::DecodeError>)
    ensures
        match r {
            Ok(bytes) => base64_standard(input@) == Some(bytes@),
            Err(_) => base64_standard(input@) is None,
        },
{
    base64::prelude::BASE64_STANDARD.decode(input)
}

/// Reads the header of a token with `jsonwebtoken::decode_header` and
/// keeps its `alg` and `x5u` fields. Whether there is a header, and what
/// its `x5u` is, is taken to depend on the token alone: `token_x5u` names
/// it. Nothing is claimed of `alg`.
#[verifier::external_body]
pub(crate) fn read_header(token: &str) -> (r: Result<TokenHeader, jsonwebtoken::errors::Error>)
    ensures
        match r {
            Ok(header) => token_x5u(token@) == Some(text_view(header.x5u)),
            Err(_) => token_x5u(token@) is None,
        },
{
    jsonwebtoken::decode_header(token).map(|h| TokenHeader { alg: h.alg, x5u: h.x5u })
}

/// `jsonwebtoken::Validation::new`: the default checks for tokens signed
/// with `alg`. They have the signature checked and ask for the claim
/// `exp` to be present.
pub assume_specification[ jsonwebtoken::Validation::new ](
    alg: jsonwebtoken::Algorithm,
) -> (validation: jsonwebtoken::Validation)
    ensures
        checks_signature(validation),
        requires_registered_claims(validation),
;

/// `jsonwebtoken::Validation::insecure_disable_signature_validation`:
/// switches the signature check off and leaves the rest as it is.
pub assume_specification[ jsonwebtoken::Validation::insecure_disable_signature_validation ](
    validation: &mut jsonwebtoken::Validation,
)
    ensures
        !checks_signature(*final(validation)),
        requires_registered_claims(*final(validation)) == requires_registered_claims(
            *old(validation),
        ),
;

/// `jsonwebtoken::DecodingKey::from_ec_der`: a key for the elliptic-curve
/// algorithms that holds the given bytes.
pub assume_specification[ jsonwebtoken::DecodingKey::from_ec_der ](
    der: &[u8],
) -> (key: jsonwebtoken::DecodingKey)
    ensures
        key_der(key) == der@,
;

/// Calls `jsonwebtoken::Validation::set_required_spec_claims` with an
/// empty list, so that no registered claim has to be present; the rest
/// of the validation stays as it is.
#[verifier::external_body]
pub(crate) fn require_no_claims(validation: &mut jsonwebtoken::Validation)
    ensures
        !requires_registered_claims(*final(validation)),
        checks_signature(*final(validation)) == checks_signature(*old(validation)),
{
    validation.set_required_spec_claims::<&str>(&[]);
}

/// Decodes the claims of a token with `jsonwebtoken::decode` into a map
/// keyed by string and hands out its entries in the map's order, each
/// value as JSON text. It is called only with a validation that neither
/// checks the signature nor asks for registered claims.
///
/// Whether the token is accepted depends on the validation and, through
/// its expiry check, on the clock; a clock set before 1970 makes the
/// call panic. The claims of a token that is accepted depend on the token
/// alone: `token_claims` names them. No key comes out twice.
#[verifier::external_body]
pub(crate) fn decode_claims(
    token: &str,
    key: &jsonwebtoken::DecodingKey,
    validation: &jsonwebtoken::Validation,
) -> (r: Result<Vec<(String, String)>, jsonwebtoken::errors::Error>)
    requires
        !checks_signature(*validation),
        !requires_registered_claims(*validation),
    ensures
        r matches Ok(members) ==> members_view(members@) == token_claims(token@) && distinct_keys(
            members_view(members@),
        ),
{
    jsonwebtoken::decode::<BTreeMap<String, serde_json::Value>>(token, key, validation).map(
        |data| data.claims.iter().map(|(k, v)| (k.clone(), v.to_string())).collect(),
    )
}

} // verus!
