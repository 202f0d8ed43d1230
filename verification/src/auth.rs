//! Short-lived signed bearer tokens.
//!
//! A token is the triple (expiry in seconds, subject, signature). The signature is
//! made over the binary form of the pair (expiry, subject): Ed25519 signs those
//! bytes as they are, ECDSA over secp256k1 signs their SHA3-256 digest.

use vstd::prelude::*;
use crate::cbor::{
    cbor_encoding, cbor_level, decode, decode_unsigned, encode_bytes, encode_list, encode_text,
    encode_unsigned, items_of, part_views, structural, unsigned_of, Cbor, CborItem, CborLevel,
};
use ed25519_dalek::Signer;
use k256::ecdsa::signature::hazmat::{PrehashSigner, PrehashVerifier};
use base64::Engine;
use sha3::Digest;

verus! {

/// Seconds by which a token may be past its expiry and still be accepted.
pub const PERMITTED_DRIFT: u64 = 10;

/// Length of an Ed25519 signature in bytes.
pub const ED25519_SIGNATURE_LENGTH: usize = 64;

/// A bearer token: expiry in seconds since the epoch, subject, signature.
#[derive(Debug)]
pub struct Token(pub u64, pub String, pub Vec<u8>);

impl View for Token {
    type V = (u64, Seq<char>, Seq<u8>);

    open spec fn view(&self) -> (u64, Seq<char>, Seq<u8>) {
        (self.0, self.1@, self.2@)
    }
}

/// Why a token was not accepted.
#[derive(Clone, Copy, Debug, PartialEq, Eq, Structural)]
pub enum TokenError {
    /// The bytes are not the binary form of a token.
    Decode,
    /// The token is past its expiry by more than the permitted drift.
    Expired,
    /// The signature is not an Ed25519 signature.
    Ed25519Signature,
    /// No key accepts the Ed25519 signature.
    Ed25519Verify,
    /// The signature is not an ECDSA signature over secp256k1.
    Secp256k1Signature,
    /// No key accepts the ECDSA signature.
    Secp256k1Verify,
}

impl TokenError {
    /// The text that describes the error.
    pub fn message(&self) -> (s: String)
        ensures
            s@ == match *self {
                TokenError::Decode => "failed to decode CBOR data"@,
                TokenError::Expired => "token expired"@,
                TokenError::Ed25519Signature => "failed to parse Ed25519 signature"@,
                TokenError::Ed25519Verify => "failed to verify Ed25519 signature"@,
                TokenError::Secp256k1Signature => "failed to parse Secp256k1 signature"@,
                TokenError::Secp256k1Verify => "failed to verify ECDSA/Secp256k1 signature"@,
            },
    {
        match self {
            TokenError::Decode => "failed to decode CBOR data".to_string(),
            TokenError::Expired => "token expired".to_string(),
            TokenError::Ed25519Signature => "failed to parse Ed25519 signature".to_string(),
            TokenError::Ed25519Verify => "failed to verify Ed25519 signature".to_string(),
            TokenError::Secp256k1Signature => "failed to parse Secp256k1 signature".to_string(),
            TokenError::Secp256k1Verify => "failed to verify ECDSA/Secp256k1 signature".to_string(),
        }
    }
}

/// The SHA3-256 digest of `data`, as `sha3::Sha3_256` computes it.
pub uninterp spec fn sha3_256_digest(data: Seq<u8>) -> Seq<u8>;

/// The signature that `ed25519_dalek::SigningKey::sign` makes over `message` with
/// the key whose secret bytes are `secret`.
pub uninterp spec fn ed25519_signature(secret: Seq<u8>, message: Seq<u8>) -> Seq<u8>;

/// Whether `ed25519_dalek::VerifyingKey::verify_strict` accepts `signature` over
/// `message` under the key whose compressed form is `public`.
pub uninterp spec fn ed25519_accepts(public: Seq<u8>, message: Seq<u8>, signature: Seq<u8>) -> bool;

/// The signature that `k256::ecdsa::SigningKey::sign_prehash` makes over `prehash`
/// with the key whose secret scalar is `secret`, if it makes one.
pub uninterp spec fn ecdsa_signature(secret: Seq<u8>, prehash: Seq<u8>) -> Option<Seq<u8>>;

/// Whether `k256::ecdsa::Signature::from_slice` reads `signature`.
pub uninterp spec fn ecdsa_signature_parses(signature: Seq<u8>) -> bool;

/// The public key of the secp256k1 key whose secret scalar is `secret`, in the
/// SEC1 form that `k256::ecdsa::VerifyingKey::to_sec1_bytes` writes; none where
/// `k256::ecdsa::SigningKey::from_slice` refuses the bytes.
pub uninterp spec fn ecdsa_public_key(secret: Seq<u8>) -> Option<Seq<u8>>;

/// Whether `k256::ecdsa::VerifyingKey::verify_prehash` accepts `signature` over
/// `prehash` under the key whose SEC1 form is `public`.
pub uninterp spec fn ecdsa_accepts(public: Seq<u8>, prehash: Seq<u8>, signature: Seq<u8>) -> bool;

/// What `base64::engine::general_purpose::URL_SAFE_NO_PAD` reads from `text`: the
/// bytes, or the text of the error with which it refuses the input.
pub uninterp spec fn base64url_decoding(text: Seq<char>) -> Result<Seq<u8>, Seq<char>>;

/// The text that `base64::engine::general_purpose::URL_SAFE_NO_PAD` writes for `data`.
pub uninterp spec fn base64url_encoding(data: Seq<u8>) -> Seq<char>;

/// The item that is signed: the pair (expiry, subject).
pub open spec fn claims_item(expire_at: u64, subject: Seq<char>) -> CborItem {
    CborItem::List(seq![CborItem::Unsigned(expire_at), CborItem::Text(subject)])
}

/// The item that is transmitted: the triple (expiry, subject, signature).
pub open spec fn token_item(expire_at: u64, subject: Seq<char>, signature: Seq<u8>) -> CborItem {
    CborItem::List(
        seq![CborItem::Unsigned(expire_at), CborItem::Text(subject), CborItem::Bytes(signature)],
    )
}

/// The bytes that are signed.
pub open spec fn claims_bytes(expire_at: u64, subject: Seq<char>) -> Seq<u8> {
    cbor_encoding(claims_item(expire_at, subject))
}

/// The binary form of a token.
pub open spec fn token_bytes(expire_at: u64, subject: Seq<char>, signature: Seq<u8>) -> Seq<u8> {
    cbor_encoding(token_item(expire_at, subject, signature))
}

/// The token that `data` is the binary form of, if it is one: an array of three
/// elements whose binary forms are read as an unsigned integer, a text string and
/// a byte string.
pub open spec fn parsed_token(data: Seq<u8>) -> Option<(u64, Seq<char>, Seq<u8>)> {
    match cbor_level(data) {
        Some(CborLevel::List(ps)) => if ps.len() == 3 {
            match (unsigned_of(ps[0]), cbor_level(ps[1]), cbor_level(ps[2])) {
                (Some(e), Some(CborLevel::Text(s)), Some(CborLevel::Bytes(b))) => Some((e, s, b)),
                _ => None,
            }
        } else {
            None
        },
        _ => None,
    }
}

/// Whether a token that expires at `expire_at` is rejected at time `now`.
pub open spec fn is_expired(expire_at: u64, now: u64) -> bool {
    expire_at + PERMITTED_DRIFT < now
}

/// Whether some key of `keys` accepts the Ed25519 signature of the token.
pub open spec fn ed25519_some_key_accepts(keys: Seq<[u8; 32]>, token: (u64, Seq<char>, Seq<u8>)) -> bool {
    exists|i: int|
        0 <= i < keys.len() && ed25519_accepts(
            (#[trigger] keys[i])@,
            claims_bytes(token.0, token.1),
            token.2,
        )
}

/// What verifying `data` against `keys` at time `now` gives, for Ed25519.
pub open spec fn ed25519_outcome(keys: Seq<[u8; 32]>, data: Seq<u8>, now: u64) -> Result<
    (u64, Seq<char>, Seq<u8>),
    TokenError,
> {
    match parsed_token(data) {
        None => Err(TokenError::Decode),
        Some(token) => if is_expired(token.0, now) {
            Err(TokenError::Expired)
        } else if token.2.len() != ED25519_SIGNATURE_LENGTH {
            Err(TokenError::Ed25519Signature)
        } else if ed25519_some_key_accepts(keys, token) {
            Ok(token)
        } else {
            Err(TokenError::Ed25519Verify)
        },
    }
}

/// Whether some key of `keys` accepts the ECDSA signature of the token.
pub open spec fn ecdsa_some_key_accepts(keys: Seq<Vec<u8>>, token: (u64, Seq<char>, Seq<u8>)) -> bool {
    exists|i: int|
        0 <= i < keys.len() && ecdsa_accepts(
            (#[trigger] keys[i])@,
            sha3_256_digest(claims_bytes(token.0, token.1)),
            token.2,
        )
}

/// What verifying `data` against `keys` at time `now` gives, for ECDSA over secp256k1.
pub open spec fn ecdsa_outcome(keys: Seq<Vec<u8>>, data: Seq<u8>, now: u64) -> Result<
    (u64, Seq<char>, Seq<u8>),
    TokenError,
> {
    match parsed_token(data) {
        None => Err(TokenError::Decode),
        Some(token) => if is_expired(token.0, now) {
            Err(TokenError::Expired)
        } else if !ecdsa_signature_parses(token.2) {
            Err(TokenError::Secp256k1Signature)
        } else if ecdsa_some_key_accepts(keys, token) {
            Ok(token)
        } else {
            Err(TokenError::Secp256k1Verify)
        },
    }
}

/// The view of a verification result.
pub open spec fn outcome_view(r: Result<Token, TokenError>) -> Result<
    (u64, Seq<char>, Seq<u8>),
    TokenError,
> {
    match r {
        Ok(t) => Ok(t@),
        Err(e) => Err(e),
    }
}

/// `sha3::Sha3_256`: the SHA3-256 digest of `data`.
#[verifier::external_body]
pub fn sha3_256(data: &[u8]) -> (digest: [u8; 32])
    ensures
        digest@ == sha3_256_digest(data@),
{
    let mut hasher = sha3::Sha3_256::new();
    hasher.update(data);
    hasher.finalize().into()
}

/// `Engine::decode` of `URL_SAFE_NO_PAD`: the bytes that `text` stands for, or the
/// text of the error.
#[verifier::external_body]
pub(crate) fn base64url_decode(text: &str) -> (r: Result<Vec<u8>, String>)
    ensures
        match base64url_decoding(text@) {
            Ok(data) => r matches Ok(d) && d@ == data,
            Err(why) => r matches Err(e) && e@ == why,
        },
{
    base64::engine::general_purpose::URL_SAFE_NO_PAD.decode(text).map_err(|err| err.to_string())
}

/// `Engine::encode` of `URL_SAFE_NO_PAD`: the text that stands for `data`, which
/// is read back as `data`.
#[verifier::external_body]
pub(crate) fn base64url_encode(data: &[u8]) -> (out: String)
    ensures
        out@ == base64url_encoding(data@),
        base64url_decoding(out@) is Ok,
        base64url_decoding(out@)->Ok_0 == data@,
{
    base64::engine::general_purpose::URL_SAFE_NO_PAD.encode(data)
}

/// `chrono::DateTime::<Utc>::from` on `std::time::SystemTime::now`, and
/// `timestamp`: the seconds since the epoch on this machine's clock, zero where
/// the clock is set before the year 1970. Nothing is promised of the value.
#[verifier::external_body]
pub(crate) fn unix_seconds() -> u64 {
    let now = chrono::DateTime::<chrono::Utc>::from(std::time::SystemTime::now());
    match u64::try_from(now.timestamp()) {
        Ok(seconds) => seconds,
        Err(_) => 0,
    }
}

/// `ed25519_dalek::SigningKey::from_bytes` and `sign`: the 64 bytes of the
/// signature over `message`.
#[verifier::external_body]
fn ed25519_sign_message(secret: &[u8; 32], message: &[u8]) -> (signature: Vec<u8>)
    ensures
        signature@ == ed25519_signature(secret@, message@),
        signature@.len() == ED25519_SIGNATURE_LENGTH,
{
    ed25519_dalek::SigningKey::from_bytes(secret).sign(message).to_vec()
}

/// `ed25519_dalek::VerifyingKey::verify_strict` under the key that `from_bytes`
/// reads from `public`; `false` where the bytes are no key.
#[verifier::external_body]
fn ed25519_verify_strict(public: &[u8; 32], message: &[u8], signature: &[u8]) -> (ok: bool)
    requires
        signature@.len() == ED25519_SIGNATURE_LENGTH,
    ensures
        ok == ed25519_accepts(public@, message@, signature@),
{
    let signature = ed25519_dalek::Signature::from_slice(signature).expect("64 bytes");
    match ed25519_dalek::VerifyingKey::from_bytes(public) {
        Ok(key) => key.verify_strict(message, &signature).is_ok(),
        Err(_) => false,
    }
}

/// `k256::ecdsa::SigningKey::sign_prehash` with the key that `from_slice` reads from
/// `secret`; `None` where the bytes are no key or no signature is made. A signature
/// that is made is the pair of two scalars that are not zero, the second in the
/// lower half of its range: `Signature::from_slice` reads its bytes back, and
/// `verify_prehash` accepts it over the same prehash under the public key of the
/// key that made it.
#[verifier::external_body]
fn ecdsa_sign_prehash(secret: &[u8], prehash: &[u8]) -> (signature: Option<Vec<u8>>)
    ensures
        signature.is_some() == ecdsa_signature(secret@, prehash@).is_some(),
        signature matches Some(s) ==> ecdsa_signature(secret@, prehash@) == Some(s@),
        signature matches Some(s) ==> ecdsa_signature_parses(s@),
        signature matches Some(s) ==> ecdsa_public_key(secret@) is Some,
        signature matches Some(s) ==> ecdsa_accepts(ecdsa_public_key(secret@)->0, prehash@, s@),
{
    let key = k256::ecdsa::SigningKey::from_slice(secret).ok()?;
    let signature: k256::ecdsa::Signature = key.sign_prehash(prehash).ok()?;
    Some(signature.to_vec())
}

/// `k256::ecdsa::SigningKey::from_slice`, then `verifying_key` and
/// `to_sec1_bytes`: the public key of the key in SEC1 form; `None` where the bytes
/// are no key.
#[verifier::external_body]
fn ecdsa_derive_public_key(secret: &[u8]) -> (public: Option<Vec<u8>>)
    ensures
        public.is_some() == ecdsa_public_key(secret@).is_some(),
        public matches Some(p) ==> ecdsa_public_key(secret@) == Some(p@),
{
    let key = k256::ecdsa::SigningKey::from_slice(secret).ok()?;
    Some(key.verifying_key().to_sec1_bytes().to_vec())
}

/// `k256::ecdsa::Signature::from_slice`: whether the bytes are read as a signature.
#[verifier::external_body]
fn ecdsa_parse_signature(signature: &[u8]) -> (ok: bool)
    ensures
        ok == ecdsa_signature_parses(signature@),
{
    k256::ecdsa::Signature::from_slice(signature).is_ok()
}

/// `k256::ecdsa::VerifyingKey::verify_prehash` under the key that `from_sec1_bytes`
/// reads from `public`; `false` where the bytes are no key.
#[verifier::external_body]
fn ecdsa_verify_prehash(public: &[u8], prehash: &[u8], signature: &[u8]) -> (ok: bool)
    requires
        ecdsa_signature_parses(signature@),
    ensures
        ok == ecdsa_accepts(public@, prehash@, signature@),
{
    let signature = k256::ecdsa::Signature::from_slice(signature).expect("a signature");
    match k256::ecdsa::VerifyingKey::from_sec1_bytes(public) {
        Ok(key) => key.verify_prehash(prehash, &signature).is_ok(),
        Err(_) => false,
    }
}

/// The bytes that are signed for a token with this expiry and subject.
pub fn encode_claims(expire_at: u64, subject: &str) -> (out: Vec<u8>)
    ensures
        out@ == claims_bytes(expire_at, subject@),
{
    let mut parts: Vec<Vec<u8>> = Vec::new();
    parts.push(encode_unsigned(expire_at));
    parts.push(encode_text(subject));
    assert(items_of(part_views(parts@)) =~= seq![
        CborItem::Unsigned(expire_at),
        CborItem::Text(subject@),
    ]);
    encode_list(parts)
}

/// The binary form of a token; it is read back as the same token.
pub fn encode_token(expire_at: u64, subject: &str, signature: &[u8]) -> (out: Vec<u8>)
    ensures
        out@ == token_bytes(expire_at, subject@, signature@),
        parsed_token(out@) == Some((expire_at, subject@, signature@)),
{
    let mut parts: Vec<Vec<u8>> = Vec::new();
    parts.push(encode_unsigned(expire_at));
    parts.push(encode_text(subject));
    parts.push(encode_bytes(signature));
    let ghost xs = seq![
        CborItem::Unsigned(expire_at),
        CborItem::Text(subject@),
        CborItem::Bytes(signature@),
    ];
    let ghost ps = part_views(parts@);
    proof {
        assert(items_of(ps) =~= xs);
        assert(structural(CborItem::List(xs), crate::cbor::ROUND_TRIP_DEPTH as nat)) by {
            assert forall|i: int| 0 <= i < xs.len() implies structural(
                #[trigger] xs[i],
                (crate::cbor::ROUND_TRIP_DEPTH - 1) as nat,
            ) by {}
        }
    }
    let out = encode_list(parts);
    proof {
        assert(xs.map_values(|x: CborItem| cbor_encoding(x)) =~= ps);
        assert(cbor_level(out@) == Some(CborLevel::List(ps)));
    }
    out
}

/// The token that `data` is the binary form of.
pub fn decode_token(data: &[u8]) -> (r: Option<Token>)
    ensures
        r is Some <==> parsed_token(data@) is Some,
        r matches Some(t) ==> parsed_token(data@) == Some(t@),
{
    let parts = match decode(data) {
        Some(Cbor::List(parts)) => parts,
        _ => { return None; },
    };
    if parts.len() != 3 {
        return None;
    }
    assert(cbor_level(data@) == Some(CborLevel::List(part_views(parts@))));
    let expire_at = match decode_unsigned(parts[0].as_slice()) {
        Some(n) => n,
        None => { return None; },
    };
    let subject = match decode(parts[1].as_slice()) {
        Some(Cbor::Text(t)) => t,
        _ => { return None; },
    };
    let signature = match decode(parts[2].as_slice()) {
        Some(Cbor::Bytes(b)) => b,
        _ => { return None; },
    };
    Some(Token(expire_at, subject, signature))
}

/// Whether a token with this expiry is rejected at time `now`.
pub fn expired(expire_at: u64, now: u64) -> (r: bool)
    ensures
        r == is_expired(expire_at, now),
{
    match expire_at.checked_add(PERMITTED_DRIFT) {
        Some(limit) => limit < now,
        None => false,
    }
}

/// Signs a token for `agent` that expires at `expire_at`, with the Ed25519 key
/// whose secret bytes are `key`. The result is read back as the token that was signed.
///
/// The token verifies at every time at which it has not expired, against every
/// list of keys of which one accepts the signature. That the key's own public key
/// accepts it is not promised here: strict verification refuses a signature
/// whose nonce point is of small order, which the signer does not rule out.
pub fn ed25519_sign(key: &[u8; 32], expire_at: u64, agent: String) -> (out: Vec<u8>)
    ensures
        out@ == token_bytes(
            expire_at,
            agent@,
            ed25519_signature(key@, claims_bytes(expire_at, agent@)),
        ),
        parsed_token(out@) == Some(
            (expire_at, agent@, ed25519_signature(key@, claims_bytes(expire_at, agent@))),
        ),
        ed25519_signature(key@, claims_bytes(expire_at, agent@)).len() == ED25519_SIGNATURE_LENGTH,
        forall|keys: Seq<[u8; 32]>, now: u64|
            !is_expired(expire_at, now) && ed25519_some_key_accepts(
                keys,
                (expire_at, agent@, ed25519_signature(key@, claims_bytes(expire_at, agent@))),
            ) ==> #[trigger] ed25519_outcome(keys, out@, now) == Ok::<
                (u64, Seq<char>, Seq<u8>),
                TokenError,
            >((expire_at, agent@, ed25519_signature(key@, claims_bytes(expire_at, agent@)))),
{
    let claims = encode_claims(expire_at, agent.as_str());
    let signature = ed25519_sign_message(key, claims.as_slice());
    encode_token(expire_at, agent.as_str(), signature.as_slice())
}

/// Verifies `data` against `keys` at time `now`.
pub fn ed25519_verify_at(keys: &[[u8; 32]], data: &[u8], now: u64) -> (r: Result<
    Token,
    TokenError,
>)
    ensures
        outcome_view(r) == ed25519_outcome(keys@, data@, now),
{
    let token = match decode_token(data) {
        Some(token) => token,
        None => { return Err(TokenError::Decode); },
    };
    if expired(token.0, now) {
        return Err(TokenError::Expired);
    }
    if token.2.len() != ED25519_SIGNATURE_LENGTH {
        return Err(TokenError::Ed25519Signature);
    }
    let claims = encode_claims(token.0, token.1.as_str());
    let mut i: usize = 0;
    while i < keys.len()
        invariant
            i <= keys.len(),
            parsed_token(data@) == Some(token@),
            !is_expired(token.0, now),
            token.2@.len() == ED25519_SIGNATURE_LENGTH,
            claims@ == claims_bytes(token.0, token.1@),
            forall|j: int|
                0 <= j < i ==> !ed25519_accepts((#[trigger] keys@[j])@, claims@, token.2@),
        decreases keys.len() - i,
    {
        if ed25519_verify_strict(&keys[i], claims.as_slice(), token.2.as_slice()) {
            assert(ed25519_some_key_accepts(keys@, token@));
            return Ok(token);
        }
        i += 1;
    }
    Err(TokenError::Ed25519Verify)
}

/// Verifies `data` against `keys` at the time of the call. Whatever the clock
/// says, the result is what [`ed25519_verify_at`] gives for that time.
pub fn ed25519_verify(keys: &[[u8; 32]], data: &[u8]) -> (r: Result<Token, TokenError>)
    ensures
        exists|now: u64| outcome_view(r) == #[trigger] ed25519_outcome(keys@, data@, now),
{
    let now = unix_seconds();
    ed25519_verify_at(keys, data, now)
}

/// Whether one of the keys is this public key.
pub open spec fn holds_public_key(keys: Seq<Vec<u8>>, public: Seq<u8>) -> bool {
    exists|i: int| 0 <= i < keys.len() && (#[trigger] keys[i])@ == public
}

/// The public key of the secp256k1 key whose secret scalar is `key`, in SEC1 form:
/// the key that verifies the tokens that `key` signs. `None` where the bytes are
/// no key.
pub fn ecdsa_verifying_key(key: &[u8]) -> (public: Option<Vec<u8>>)
    ensures
        match ecdsa_public_key(key@) {
            Some(p) => public matches Some(bytes) && bytes@ == p,
            None => public is None,
        },
{
    ecdsa_derive_public_key(key)
}

/// Signs a token for `agent` that expires at `expire_at`, with the secp256k1 key
/// whose secret scalar is `key`; `None` where no signature is made with these bytes.
///
/// A token that is made verifies: against every list of keys that holds the
/// public key of `key`, at every time at which the token has not expired, the
/// outcome is the signed expiry and subject.
pub fn ecdsa_sign(key: &[u8], expire_at: u64, agent: String) -> (out: Option<Vec<u8>>)
    ensures
        match ecdsa_signature(key@, sha3_256_digest(claims_bytes(expire_at, agent@))) {
            Some(signature) => out is Some && out->0@ == token_bytes(expire_at, agent@, signature)
                && parsed_token(out->0@) == Some((expire_at, agent@, signature)),
            None => out is None,
        },
        out matches Some(data) ==> ecdsa_public_key(key@) is Some && forall|
            keys: Seq<Vec<u8>>,
            now: u64,
        |
            holds_public_key(keys, ecdsa_public_key(key@)->0) && !is_expired(expire_at, now)
                ==> #[trigger] ecdsa_outcome(keys, data@, now) == Ok::<
                (u64, Seq<char>, Seq<u8>),
                TokenError,
            >(
                (
                    expire_at,
                    agent@,
                    ecdsa_signature(key@, sha3_256_digest(claims_bytes(expire_at, agent@)))->0,
                ),
            ),
{
    let claims = encode_claims(expire_at, agent.as_str());
    let digest = sha3_256(claims.as_slice());
    match ecdsa_sign_prehash(key, digest.as_slice()) {
        Some(signature) => {
            let data = encode_token(expire_at, agent.as_str(), signature.as_slice());
            proof {
                let public = ecdsa_public_key(key@)->0;
                assert forall|keys: Seq<Vec<u8>>, now: u64|
                    holds_public_key(keys, public) && !is_expired(
                        expire_at,
                        now,
                    ) implies #[trigger] ecdsa_outcome(keys, data@, now) == Ok::<
                    (u64, Seq<char>, Seq<u8>),
                    TokenError,
                >((expire_at, agent@, signature@)) by {
                    let i = choose|i: int| 0 <= i < keys.len() && (#[trigger] keys[i])@ == public;
                    assert(ecdsa_accepts(
                        keys[i]@,
                        sha3_256_digest(claims_bytes(expire_at, agent@)),
                        signature@,
                    ));
                }
            }
            Some(data)
        },
        None => None,
    }
}

/// Verifies `data` against `keys` at time `now`.
pub fn ecdsa_verify_at(keys: &[Vec<u8>], data: &[u8], now: u64) -> (r: Result<Token, TokenError>)
    ensures
        outcome_view(r) == ecdsa_outcome(keys@, data@, now),
{
    let token = match decode_token(data) {
        Some(token) => token,
        None => { return Err(TokenError::Decode); },
    };
    if expired(token.0, now) {
        return Err(TokenError::Expired);
    }
    if !ecdsa_parse_signature(token.2.as_slice()) {
        return Err(TokenError::Secp256k1Signature);
    }
    let claims = encode_claims(token.0, token.1.as_str());
    let digest = sha3_256(claims.as_slice());
    let mut i: usize = 0;
    while i < keys.len()
        invariant
            i <= keys.len(),
            parsed_token(data@) == Some(token@),
            !is_expired(token.0, now),
            ecdsa_signature_parses(token.2@),
            digest@ == sha3_256_digest(claims_bytes(token.0, token.1@)),
            forall|j: int| 0 <= j < i ==> !ecdsa_accepts((#[trigger] keys@[j])@, digest@, token.2@),
        decreases keys.len() - i,
    {
        if ecdsa_verify_prehash(keys[i].as_slice(), digest.as_slice(), token.2.as_slice()) {
            assert(ecdsa_some_key_accepts(keys@, token@));
            return Ok(token);
        }
        i += 1;
    }
    Err(TokenError::Secp256k1Verify)
}

/// Verifies `data` against `keys` at the time of the call. Whatever the clock
/// says, the result is what [`ecdsa_verify_at`] gives for that time.
pub fn ecdsa_verify(keys: &[Vec<u8>], data: &[u8]) -> (r: Result<Token, TokenError>)
    ensures
        exists|now: u64| outcome_view(r) == #[trigger] ecdsa_outcome(keys@, data@, now),
{
    let now = unix_seconds();
    ecdsa_verify_at(keys, data, now)
}

/// A token that was signed is accepted: where the bytes are read back as the token,
/// the token is not expired, and one of the keys accepts the signature, Ed25519
/// verification returns that token.
pub proof fn lemma_ed25519_signed_token_verifies(
    keys: Seq<[u8; 32]>,
    public: [u8; 32],
    data: Seq<u8>,
    expire_at: u64,
    subject: Seq<char>,
    signature: Seq<u8>,
    now: u64,
)
    requires
        parsed_token(data) == Some((expire_at, subject, signature)),
        signature.len() == ED25519_SIGNATURE_LENGTH,
        expire_at + PERMITTED_DRIFT >= now,
        keys.contains(public),
        ed25519_accepts(public@, claims_bytes(expire_at, subject), signature),
    ensures
        ed25519_outcome(keys, data, now) == Ok::<(u64, Seq<char>, Seq<u8>), TokenError>(
            (expire_at, subject, signature),
        ),
{
    let i = choose|i: int| 0 <= i < keys.len() && keys[i] == public;
    assert(ed25519_accepts(keys[i]@, claims_bytes(expire_at, subject), signature));
}

/// The same for ECDSA over secp256k1.
pub proof fn lemma_ecdsa_signed_token_verifies(
    keys: Seq<Vec<u8>>,
    public: Vec<u8>,
    data: Seq<u8>,
    expire_at: u64,
    subject: Seq<char>,
    signature: Seq<u8>,
    now: u64,
)
    requires
        parsed_token(data) == Some((expire_at, subject, signature)),
        ecdsa_signature_parses(signature),
        expire_at + PERMITTED_DRIFT >= now,
        keys.contains(public),
        ecdsa_accepts(public@, sha3_256_digest(claims_bytes(expire_at, subject)), signature),
    ensures
        ecdsa_outcome(keys, data, now) == Ok::<(u64, Seq<char>, Seq<u8>), TokenError>(
            (expire_at, subject, signature),
        ),
{
    let i = choose|i: int| 0 <= i < keys.len() && keys[i] == public;
    assert(ecdsa_accepts(
        keys[i]@,
        sha3_256_digest(claims_bytes(expire_at, subject)),
        signature,
    ));
}

} // verus!
