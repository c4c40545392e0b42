use crate::claims::Claims;
use crate::error::ProtoCodecError;
use crate::json::{
    find_member, json_document, member_text, parse_json, texts_view, JsonModel, JsonShape,
};
use crate::token::{
    base64_decode, base64_standard, checks_signature, decode_claims, read_header,
    require_no_claims, requires_registered_claims, text_view, token_claims, token_x5u,
    TokenHeader,
};
use vstd::prelude::*;
use vstd::utf8::encode_utf8;

verus! {

/// The string that a parsed JSON value is; anything else, and text that
/// is no JSON at all, is a `FormatMismatch`.
pub open spec fn string_of(parsed: Option<JsonModel>) -> Result<Seq<char>, ProtoCodecError> {
    match parsed {
        Some(JsonModel::Text(t)) => Ok(t),
        _ => Err(ProtoCodecError::FormatMismatch),
    }
}

/// The JSON text of the elements of a parsed JSON array; anything else is
/// a `FormatMismatch`.
pub open spec fn items_of(parsed: Option<JsonModel>) -> Result<Seq<Seq<char>>, ProtoCodecError> {
    match parsed {
        Some(JsonModel::List(items)) => Ok(items),
        _ => Err(ProtoCodecError::FormatMismatch),
    }
}

/// The JSON text of the member `chain` of a parsed chain document: the
/// document has to be an object and to have that member.
pub open spec fn chain_member_of(parsed: Option<JsonModel>) -> Result<Seq<char>, ProtoCodecError> {
    match parsed {
        Some(JsonModel::Object(members)) => match member_text(members, "chain"@) {
            Some(chain) => Ok(chain),
            None => Err(ProtoCodecError::FormatMismatch),
        },
        _ => Err(ProtoCodecError::FormatMismatch),
    }
}

/// The string that `text` spells as a JSON document, if it spells one.
pub open spec fn json_string(text: Seq<char>) -> Option<Seq<char>> {
    match string_of(json_document(text)) {
        Ok(t) => Some(t),
        Err(_) => None,
    }
}

/// The tokens of a chain document: the document has to be an object with
/// a member `chain` that is an array of strings.
pub open spec fn chain_tokens_of(document: Seq<char>) -> Result<Seq<Seq<char>>, ProtoCodecError> {
    match chain_member_of(json_document(document)) {
        Err(e) => Err(e),
        Ok(chain) => match items_of(json_document(chain)) {
            Err(e) => Err(e),
            Ok(items) => if forall|i: int|
                0 <= i < items.len() ==> (#[trigger] json_string(items[i])) is Some {
                Ok(items.map_values(|item: Seq<char>| json_string(item).unwrap()))
            } else {
                Err(ProtoCodecError::FormatMismatch)
            },
        },
    }
}

/// The characters of each text of `texts`.
pub open spec fn tokens_view(texts: Seq<String>) -> Seq<Seq<char>> {
    texts.map_values(|t: String| t@)
}

/// What came out of parsing a text as JSON, as its mathematical
/// counterpart: the shape, or nothing where the text was refused.
pub open spec fn parsed_view<E>(parsed: Result<JsonShape, E>) -> Option<JsonModel> {
    match parsed {
        Ok(shape) => Some(shape@),
        Err(_) => None,
    }
}

/// Takes the string out of a parsed JSON value; see [`string_of`].
pub fn take_string<E>(parsed: Result<JsonShape, E>) -> (r: Result<String, ProtoCodecError>)
    ensures
        match string_of(parsed_view(parsed)) {
            Ok(t) => r is Ok && r->Ok_0@ == t,
            Err(e) => r == Err::<String, ProtoCodecError>(e),
        },
{
    match parsed {
        Ok(JsonShape::Text(t)) => Ok(t),
        _ => Err(ProtoCodecError::FormatMismatch),
    }
}

/// Takes the elements out of a parsed JSON array; see [`items_of`].
pub fn take_items<E>(parsed: Result<JsonShape, E>) -> (r: Result<Vec<String>, ProtoCodecError>)
    ensures
        match items_of(parsed_view(parsed)) {
            Ok(items) => r is Ok && texts_view(r->Ok_0@) == items,
            Err(e) => r == Err::<Vec<String>, ProtoCodecError>(e),
        },
{
    match parsed {
        Ok(JsonShape::List(items)) => Ok(items),
        _ => Err(ProtoCodecError::FormatMismatch),
    }
}

/// Takes the member `chain` out of a parsed chain document; see
/// [`chain_member_of`].
pub fn take_chain_member<E>(parsed: Result<JsonShape, E>) -> (r: Result<String, ProtoCodecError>)
    ensures
        match chain_member_of(parsed_view(parsed)) {
            Ok(chain) => r is Ok && r->Ok_0@ == chain,
            Err(e) => r == Err::<String, ProtoCodecError>(e),
        },
{
    match parsed {
        Ok(JsonShape::Object(members)) => match find_member(&members, "chain") {
            Some(chain) => Ok(chain.clone()),
            None => Err(ProtoCodecError::FormatMismatch),
        },
        _ => Err(ProtoCodecError::FormatMismatch),
    }
}

/// Takes the tokens out of a chain document. Anything but an object with
/// an array of strings under `chain` is a `FormatMismatch`.
#[verifier::loop_isolation(false)]
pub fn chain_tokens(document: &str) -> (r: Result<Vec<String>, ProtoCodecError>)
    ensures
        match chain_tokens_of(document@) {
            Ok(tokens) => r is Ok && tokens_view(r->Ok_0@) == tokens,
            Err(e) => r == Err::<Vec<String>, ProtoCodecError>(e),
        },
{
    let chain: String = match take_chain_member(parse_json(document)) {
        Ok(chain) => chain,
        Err(e) => {
            return Err(e);
        },
    };
    let items: Vec<String> = match take_items(parse_json(chain.as_str())) {
        Ok(items) => items,
        Err(e) => {
            return Err(e);
        },
    };
    let ghost texts = texts_view(items@);
    let mut tokens: Vec<String> = Vec::new();
    let mut i: usize = 0;
    while i < items.len()
        invariant
            i <= items.len(),
            texts == texts_view(items@),
            tokens@.len() == i,
            forall|j: int| 0 <= j < i ==> (#[trigger] json_string(texts[j])) == Some(tokens@[j]@),
        decreases items.len() - i,
    {
        match take_string(parse_json(items[i].as_str())) {
            Ok(token) => {
                tokens.push(token);
            },
            Err(e) => {
                assert(json_string(texts[i as int]) is None);
                return Err(e);
            },
        }
        i = i + 1;
    }
    assert(tokens_view(tokens@) =~= texts.map_values(|item: Seq<char>| json_string(item).unwrap()));
    Ok(tokens)
}

/// The key that base64 text stands for.
pub open spec fn decoded_key(text: Seq<char>) -> Result<Seq<u8>, ProtoCodecError> {
    match base64_standard(encode_utf8(text)) {
        Some(key) => Ok(key),
        None => Err(ProtoCodecError::Base64DecodeError),
    }
}

/// The trust anchor of a link, given the anchor that the links before it
/// have led to (`None` for the first link) and the key that the link's
/// own header names, already decoded (`None` where it names none).
///
/// The first link is self-signed: its anchor is the key in its header,
/// and a header without one is a `FormatMismatch`. Every later link is
/// anchored in the key that the link before it claims; where its header
/// names a key as well, that key has to be the same one, else the chain is
/// broken.
pub open spec fn settled_anchor(previous: Option<Seq<u8>>, named: Option<Seq<u8>>) -> Result<
    Seq<u8>,
    ProtoCodecError,
> {
    match previous {
        None => match named {
            None => Err(ProtoCodecError::FormatMismatch),
            Some(key) => Ok(key),
        },
        Some(anchor) => match named {
            None => Ok(anchor),
            Some(key) => if key == anchor {
                Ok(anchor)
            } else {
                Err(ProtoCodecError::CredentialChainBroken)
            },
        },
    }
}

/// The trust anchor of a link whose header names its key as base64 text:
/// the text is decoded, which may fail, and the anchor settled as
/// [`settled_anchor`] says.
pub open spec fn anchor_of(previous: Option<Seq<u8>>, x5u: Option<Seq<char>>) -> Result<
    Seq<u8>,
    ProtoCodecError,
> {
    match x5u {
        None => settled_anchor(previous, None),
        Some(text) => match decoded_key(text) {
            Ok(key) => settled_anchor(previous, Some(key)),
            Err(e) => Err(e),
        },
    }
}

/// The key that a link vouches for: its claim `identityPublicKey`, which
/// has to be there and to be a string of base64.
pub open spec fn claimed_key_of(claims: Seq<(Seq<char>, Seq<char>)>) -> Result<
    Seq<u8>,
    ProtoCodecError,
> {
    match member_text(claims, "identityPublicKey"@) {
        None => Err(ProtoCodecError::FormatMismatch),
        Some(text) => match json_string(text) {
            None => Err(ProtoCodecError::FormatMismatch),
            Some(key) => decoded_key(key),
        },
    }
}

/// Where a chain leads: the key that its last link vouches for, `None`
/// for a chain without links, or the first failure met when the links
/// are taken in order. `x5us` holds, link by link, the key named in the
/// header.
pub open spec fn chain_verdict(
    x5us: Seq<Option<Seq<char>>>,
    chain: Seq<Seq<(Seq<char>, Seq<char>)>>,
) -> Result<Option<Seq<u8>>, ProtoCodecError>
    decreases chain.len(),
{
    if chain.len() == 0 {
        Ok(None)
    } else {
        match chain_verdict(x5us.drop_last(), chain.drop_last()) {
            Err(e) => Err(e),
            Ok(previous) => match anchor_of(previous, x5us.last()) {
                Err(e) => Err(e),
                Ok(_) => match claimed_key_of(chain.last()) {
                    Err(e) => Err(e),
                    Ok(key) => Ok(Some(key)),
                },
            },
        }
    }
}

/// Decodes a key from base64 text.
pub fn decode_key(text: &str) -> (r: Result<Vec<u8>, ProtoCodecError>)
    ensures
        match decoded_key(text@) {
            Ok(key) => r is Ok && r->Ok_0@ == key,
            Err(e) => r == Err::<Vec<u8>, ProtoCodecError>(e),
        },
{
    match base64_decode(text.as_bytes()) {
        Ok(key) => Ok(key),
        Err(_) => Err(ProtoCodecError::Base64DecodeError),
    }
}

/// Whether two runs of bytes are the same.
fn same_bytes(a: &[u8], b: &[u8]) -> (r: bool)
    ensures
        r == (a@ == b@),
{
    if a.len() != b.len() {
        return false;
    }
    let mut i: usize = 0;
    while i < a.len()
        invariant
            i <= a.len(),
            a@.len() == b@.len(),
            forall|j: int| 0 <= j < i ==> a@[j] == b@[j],
        decreases a.len() - i,
    {
        if a[i] != b[i] {
            return false;
        }
        i = i + 1;
    }
    assert(a@ =~= b@);
    true
}

/// The bytes of an optional key.
pub open spec fn key_view(key: Option<Vec<u8>>) -> Option<Seq<u8>> {
    match key {
        Some(k) => Some(k@),
        None => None,
    }
}

/// Settles the trust anchor of one link from decoded keys; see
/// [`settled_anchor`].
pub fn settle_anchor(previous: Option<Vec<u8>>, named: Option<Vec<u8>>) -> (r: Result<
    Vec<u8>,
    ProtoCodecError,
>)
    ensures
        match settled_anchor(key_view(previous), key_view(named)) {
            Ok(anchor) => r is Ok && r->Ok_0@ == anchor,
            Err(e) => r == Err::<Vec<u8>, ProtoCodecError>(e),
        },
{
    match previous {
        None => match named {
            None => Err(ProtoCodecError::FormatMismatch),
            Some(key) => Ok(key),
        },
        Some(anchor) => match named {
            None => Ok(anchor),
            Some(key) => if same_bytes(key.as_slice(), anchor.as_slice()) {
                Ok(anchor)
            } else {
                Err(ProtoCodecError::CredentialChainBroken)
            },
        },
    }
}

/// Settles the trust anchor of one link whose header names its key as
/// base64 text; see [`anchor_of`].
pub fn anchor_for(previous: Option<Vec<u8>>, x5u: &Option<String>) -> (r: Result<
    Vec<u8>,
    ProtoCodecError,
>)
    ensures
        match anchor_of(key_view(previous), text_view(*x5u)) {
            Ok(anchor) => r is Ok && r->Ok_0@ == anchor,
            Err(e) => r == Err::<Vec<u8>, ProtoCodecError>(e),
        },
{
    match x5u {
        None => settle_anchor(previous, None),
        Some(text) => match decode_key(text.as_str()) {
            Ok(key) => settle_anchor(previous, Some(key)),
            Err(e) => Err(e),
        },
    }
}

/// Reads the key that a link vouches for; see [`claimed_key_of`].
pub fn claimed_key(claims: &Claims) -> (r: Result<Vec<u8>, ProtoCodecError>)
    ensures
        match claimed_key_of(claims@) {
            Ok(key) => r is Ok && r->Ok_0@ == key,
            Err(e) => r == Err::<Vec<u8>, ProtoCodecError>(e),
        },
{
    let text: &String = match claims.get("identityPublicKey") {
        Some(text) => text,
        None => {
            return Err(ProtoCodecError::FormatMismatch);
        },
    };
    match take_string(parse_json(text.as_str())) {
        Ok(key) => decode_key(key.as_str()),
        Err(e) => Err(e),
    }
}

/// The claims of each link of `chain`.
pub open spec fn chain_view(chain: Seq<Claims>) -> Seq<Seq<(Seq<char>, Seq<char>)>> {
    chain.map_values(|claims: Claims| claims@)
}

/// The header keys of `x5us` as characters.
pub open spec fn x5us_view(x5us: Seq<Option<String>>) -> Seq<Option<Seq<char>>> {
    x5us.map_values(|x5u: Option<String>| text_view(x5u))
}

/// Checks the linkage of a chain whose tokens have been decoded already:
/// `x5us` holds the key named in each header, `chain` the claims of each
/// link. Gives the key that the last link vouches for, or fails as the
/// first link that is out of line does; see [`chain_verdict`]. Header keys
/// and links that differ in number are a `FormatMismatch`.
pub fn verify_chain(x5us: &Vec<Option<String>>, chain: &Vec<Claims>) -> (r: Result<
    Option<Vec<u8>>,
    ProtoCodecError,
>)
    ensures
        if x5us@.len() != chain@.len() {
            r == Err::<Option<Vec<u8>>, ProtoCodecError>(ProtoCodecError::FormatMismatch)
        } else {
            match chain_verdict(x5us_view(x5us@), chain_view(chain@)) {
                Ok(key) => r is Ok && key_view(r->Ok_0) == key,
                Err(e) => r == Err::<Option<Vec<u8>>, ProtoCodecError>(e),
            }
        },
{
    if x5us.len() != chain.len() {
        return Err(ProtoCodecError::FormatMismatch);
    }
    let ghost heads = x5us_view(x5us@);
    let ghost links = chain_view(chain@);
    let mut anchor: Option<Vec<u8>> = None;
    let mut i: usize = 0;
    while i < chain.len()
        invariant
            i <= chain@.len(),
            x5us@.len() == chain@.len(),
            heads == x5us_view(x5us@),
            links == chain_view(chain@),
            chain_verdict(heads.take(i as int), links.take(i as int)) == Ok::<
                Option<Seq<u8>>,
                ProtoCodecError,
            >(key_view(anchor)),
        decreases chain@.len() - i,
    {
        proof {
            assert(heads.take(i + 1).drop_last() =~= heads.take(i as int));
            assert(links.take(i + 1).drop_last() =~= links.take(i as int));
            assert(heads.take(i + 1).last() == text_view(x5us@[i as int]));
            assert(links.take(i + 1).last() == chain@[i as int]@);
            lemma_verdict_fails_on(heads, links, i + 1);
        }
        match anchor_for(anchor, &x5us[i]) {
            Ok(_) => {},
            Err(e) => {
                return Err(e);
            },
        }
        match claimed_key(&chain[i]) {
            Ok(key) => {
                anchor = Some(key);
            },
            Err(e) => {
                return Err(e);
            },
        }
        i = i + 1;
    }
    proof {
        assert(heads.take(i as int) =~= heads);
        assert(links.take(i as int) =~= links);
    }
    Ok(anchor)
}

/// A link that names another key than the one the links before it lead
/// to breaks the chain, whatever comes after it.
pub proof fn lemma_broken_link(
    x5us: Seq<Option<Seq<char>>>,
    chain: Seq<Seq<(Seq<char>, Seq<char>)>>,
    i: int,
)
    requires
        x5us.len() == chain.len(),
        0 <= i < chain.len(),
        chain_verdict(x5us.take(i), chain.take(i)) matches Ok(Some(anchor)) && x5us[i] matches Some(
            text,
        ) && decoded_key(text) matches Ok(key) && key != anchor,
    ensures
        chain_verdict(x5us, chain) == Err::<Option<Seq<u8>>, ProtoCodecError>(
            ProtoCodecError::CredentialChainBroken,
        ),
{
    assert(x5us.take(i + 1).drop_last() =~= x5us.take(i));
    assert(chain.take(i + 1).drop_last() =~= chain.take(i));
    assert(x5us.take(i + 1).last() == x5us[i]);
    lemma_verdict_fails_on(x5us, chain, i + 1);
}

/// A failure among the first `n` links is the failure of the whole chain.
proof fn lemma_verdict_fails_on(
    x5us: Seq<Option<Seq<char>>>,
    chain: Seq<Seq<(Seq<char>, Seq<char>)>>,
    n: int,
)
    requires
        x5us.len() == chain.len(),
        0 <= n <= chain.len(),
    ensures
        chain_verdict(x5us.take(n), chain.take(n)) is Err ==> chain_verdict(x5us, chain)
            == chain_verdict(x5us.take(n), chain.take(n)),
    decreases chain.len() - n,
{
    if n < chain.len() {
        assert(x5us.take(n + 1).drop_last() =~= x5us.take(n));
        assert(chain.take(n + 1).drop_last() =~= chain.take(n));
        lemma_verdict_fails_on(x5us, chain, n + 1);
    } else {
        assert(x5us.take(n) =~= x5us);
        assert(chain.take(n) =~= chain);
    }
}

/// The failure that a chain of tokens meets before any of its claims has
/// been decoded, if it meets one there: the chain is empty, or the header
/// of its first token cannot be read, names no key, or names one that is
/// no base64.
pub open spec fn first_link_failure(tokens: Seq<Seq<char>>) -> Option<ProtoCodecError> {
    if tokens.len() == 0 {
        Some(ProtoCodecError::FormatMismatch)
    } else {
        match token_x5u(tokens[0]) {
            None => Some(ProtoCodecError::JwtError),
            Some(x5u) => match anchor_of(None, x5u) {
                Err(e) => Some(e),
                Ok(_) => None,
            },
        }
    }
}

/// The key named in the header of each token of `tokens`.
pub open spec fn header_keys(tokens: Seq<Seq<char>>) -> Seq<Option<Seq<char>>> {
    tokens.map_values(|token: Seq<char>| token_x5u(token).unwrap())
}

/// The claims of each token of `tokens`.
pub open spec fn claims_of(tokens: Seq<Seq<char>>) -> Seq<Seq<(Seq<char>, Seq<char>)>> {
    tokens.map_values(|token: Seq<char>| token_claims(token))
}

/// What one link leads to when its claims are decoded: the key it vouches
/// for, or the reason why it has no place in the chain. A token without
/// a readable header is a `JwtError`; the anchor is settled as
/// [`anchor_of`] says; the key is read from the claims as
/// [`claimed_key_of`] says.
pub open spec fn link_verdict(previous: Option<Seq<u8>>, token: Seq<char>) -> Result<
    Seq<u8>,
    ProtoCodecError,
> {
    match token_x5u(token) {
        None => Err(ProtoCodecError::JwtError),
        Some(x5u) => match anchor_of(previous, x5u) {
            Err(e) => Err(e),
            Ok(_) => claimed_key_of(token_claims(token)),
        },
    }
}

/// Where the tokens of a chain lead when the claims of each are decoded:
/// the key that the last one vouches for, `None` for no tokens, or the
/// failure of the first link that has one.
pub open spec fn tokens_verdict(tokens: Seq<Seq<char>>) -> Result<Option<Seq<u8>>, ProtoCodecError>
    decreases tokens.len(),
{
    if tokens.len() == 0 {
        Ok(None)
    } else {
        match tokens_verdict(tokens.drop_last()) {
            Err(e) => Err(e),
            Ok(previous) => match link_verdict(previous, tokens.last()) {
                Err(e) => Err(e),
                Ok(key) => Ok(Some(key)),
            },
        }
    }
}

/// The key that a walk of `tokens` ends with when the claims of each are
/// decoded. Tokens that lead to no key, as an empty chain does, are a
/// `FormatMismatch`.
pub open spec fn walk_verdict(tokens: Seq<Seq<char>>) -> Result<Seq<u8>, ProtoCodecError> {
    match tokens_verdict(tokens) {
        Err(e) => Err(e),
        Ok(None) => Err(ProtoCodecError::FormatMismatch),
        Ok(Some(key)) => Ok(key),
    }
}

/// A failure among the first `n` tokens is the failure of all of them.
pub proof fn lemma_tokens_verdict_fails_on(tokens: Seq<Seq<char>>, n: int)
    requires
        0 <= n <= tokens.len(),
    ensures
        tokens_verdict(tokens.take(n)) is Err ==> tokens_verdict(tokens) == tokens_verdict(
            tokens.take(n),
        ),
    decreases tokens.len() - n,
{
    if n < tokens.len() {
        assert(tokens.take(n + 1).drop_last() =~= tokens.take(n));
        lemma_tokens_verdict_fails_on(tokens, n + 1);
    } else {
        assert(tokens.take(n) =~= tokens);
    }
}

/// The checks that the tokens of a handshake are decoded under: those
/// that the token library starts from for the algorithm, without the
/// check of the signature and with no registered claim asked for.
fn lenient_validation(alg: jsonwebtoken::Algorithm) -> (validation: jsonwebtoken::Validation)
    ensures
        !checks_signature(validation),
        !requires_registered_claims(validation),
{
    let mut validation = jsonwebtoken::Validation::new(alg);
    validation.insecure_disable_signature_validation();
    require_no_claims(&mut validation);
    validation
}

/// Decodes one token under the anchor that the chain has led to so far.
///
/// The header is read first and the anchor settled as [`anchor_of`] says;
/// then the claims are decoded under that anchor. The token's signature
/// is not verified: only the structure of the token, the default checks
/// of its registered claims and the linkage of the keys are.
///
/// A token that fails before its claims are decoded fails with exactly
/// the error of its header or anchor. After that the decoder decides: it
/// may refuse the token (`JwtError`), and what it accepts comes back as
/// the claims of this token with the anchor they were decoded under.
pub fn decode_link(token: &str, previous: Option<Vec<u8>>) -> (r: Result<
    (Claims, Vec<u8>),
    ProtoCodecError,
>)
    ensures
        match token_x5u(token@) {
            None => r == Err::<(Claims, Vec<u8>), ProtoCodecError>(ProtoCodecError::JwtError),
            Some(x5u) => match anchor_of(key_view(previous), x5u) {
                Err(e) => r == Err::<(Claims, Vec<u8>), ProtoCodecError>(e),
                Ok(anchor) => match r {
                    Ok((claims, used)) => claims@ == token_claims(token@) && used@ == anchor,
                    Err(e) => e == ProtoCodecError::JwtError,
                },
            },
        },
{
    let header: TokenHeader = match read_header(token) {
        Ok(header) => header,
        Err(_) => {
            return Err(ProtoCodecError::JwtError);
        },
    };
    let anchor: Vec<u8> = match anchor_for(previous, &header.x5u) {
        Ok(anchor) => anchor,
        Err(e) => {
            return Err(e);
        },
    };
    let validation = lenient_validation(header.alg);
    let key = jsonwebtoken::DecodingKey::from_ec_der(anchor.as_slice());
    match decode_claims(token, &key, &validation) {
        Ok(members) => Ok((Claims::from_distinct(members), anchor)),
        Err(_) => Err(ProtoCodecError::JwtError),
    }
}

/// Walks the tokens of a chain in order, each decoded under the key that
/// the one before it vouches for, and gives the claims of every link and
/// the key that the last one vouches for.
///
/// A chain that fails before any claims are decoded fails exactly as
/// [`first_link_failure`] says; an empty chain is among these. After that
/// the decoder has its say on every token: it may refuse one
/// (`JwtError`); any other failure is the one that [`walk_verdict`]
/// names. On success entry `i` holds the claims of token `i`, the key is
/// the one that [`walk_verdict`] names, and the chain is linked as
/// [`chain_verdict`] says.
#[verifier::loop_isolation(false)]
pub fn walk_chain(tokens: &Vec<String>) -> (r: Result<(Vec<Claims>, Vec<u8>), ProtoCodecError>)
    ensures
        first_link_failure(tokens_view(tokens@)) matches Some(e) ==> r == Err::<
            (Vec<Claims>, Vec<u8>),
            ProtoCodecError,
        >(e),
        r matches Err(e) ==> e == ProtoCodecError::JwtError || walk_verdict(tokens_view(tokens@))
            == Err::<Seq<u8>, ProtoCodecError>(e),
        r matches Ok((chain, key)) ==> {
            &&& chain_view(chain@) == claims_of(tokens_view(tokens@))
            &&& walk_verdict(tokens_view(tokens@)) == Ok::<Seq<u8>, ProtoCodecError>(key@)
            &&& forall|i: int|
                0 <= i < tokens@.len() ==> (#[trigger] token_x5u(tokens_view(tokens@)[i])) is Some
            &&& chain_verdict(header_keys(tokens_view(tokens@)), chain_view(chain@)) == Ok::<
                Option<Seq<u8>>,
                ProtoCodecError,
            >(Some(key@))
        },
{
    let ghost texts = tokens_view(tokens@);
    let ghost heads = header_keys(texts);
    let mut chain: Vec<Claims> = Vec::new();
    let mut anchor: Option<Vec<u8>> = None;
    let mut i: usize = 0;
    proof {
        assert(chain_view(chain@) =~= claims_of(texts.take(0)));
    }
    while i < tokens.len()
        invariant
            i <= tokens@.len(),
            chain@.len() == i,
            i > 0 ==> first_link_failure(texts) is None,
            forall|j: int| 0 <= j < i ==> (#[trigger] token_x5u(texts[j])) is Some,
            chain_view(chain@) == claims_of(texts.take(i as int)),
            tokens_verdict(texts.take(i as int)) == Ok::<Option<Seq<u8>>, ProtoCodecError>(
                key_view(anchor),
            ),
            chain_verdict(heads.take(i as int), chain_view(chain@)) == Ok::<
                Option<Seq<u8>>,
                ProtoCodecError,
            >(key_view(anchor)),
        decreases tokens@.len() - i,
    {
        let ghost before = chain_view(chain@);
        let ghost previous = key_view(anchor);
        proof {
            assert(texts[i as int] == tokens@[i as int]@);
            assert(texts.take(i + 1).drop_last() =~= texts.take(i as int));
            assert(texts.take(i + 1).last() == texts[i as int]);
            lemma_tokens_verdict_fails_on(texts, i + 1);
        }
        let (claims, _) = match decode_link(tokens[i].as_str(), anchor) {
            Ok(link) => link,
            Err(e) => {
                return Err(e);
            },
        };
        let next: Vec<u8> = match claimed_key(&claims) {
            Ok(next) => next,
            Err(e) => {
                assert(link_verdict(previous, texts[i as int]) == Err::<Seq<u8>, ProtoCodecError>(
                    e,
                ));
                return Err(e);
            },
        };
        proof {
            assert(heads.take(i + 1).drop_last() =~= heads.take(i as int));
            assert(heads.take(i + 1).last() == token_x5u(texts[i as int]).unwrap());
            assert(chain_view(chain@.push(claims)) =~= before.push(claims@));
            assert(before.push(claims@).drop_last() =~= before);
            assert(before.push(claims@) =~= claims_of(texts.take(i + 1)));
        }
        chain.push(claims);
        anchor = Some(next);
        i = i + 1;
    }
    proof {
        assert(heads.take(i as int) =~= heads);
        assert(texts.take(i as int) =~= texts);
    }
    match anchor {
        Some(key) => Ok((chain, key)),
        None => Err(ProtoCodecError::FormatMismatch),
    }
}

} // verus!
