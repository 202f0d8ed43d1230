//! The edge of the proxy: what is read from an inbound request before it is
//! dispatched. Headers are rewritten, the upstream URL is resolved, the caller's
//! token is verified and the idempotency key is formed.

use vstd::prelude::*;
use vstd::string::*;
use crate::auth::{
    base64url_decode, base64url_decoding, claims_bytes, ecdsa_outcome, ecdsa_signature_parses,
    ecdsa_some_key_accepts, ecdsa_verify_at, ed25519_accepts, ed25519_outcome,
    ed25519_some_key_accepts, ed25519_verify_at, is_expired, parsed_token, unix_seconds,
    TokenError, ED25519_SIGNATURE_LENGTH,
};
use crate::cache::{header_text, header_value_text, raw_views, RawHeader};
use crate::text::{
    copy_bytes, first_of, lemma_first_of_skip, skip_chars, starts_with, str_eq,
};

verus! {

/// What the proxy is configured with.
#[derive(Debug)]
pub struct AppState {
    /// Subjects that may use the proxy; everyone may where the list is empty.
    pub agents: Vec<String>,
    /// Symbolic URLs: a name that begins with `URL_`, and the URL that it stands for.
    pub url_vars: Vec<(String, String)>,
    /// Header values that stand for others: a name, and the value that replaces it.
    pub header_vars: Vec<RawHeader>,
    /// Keys that verify tokens signed with ECDSA over secp256k1, in SEC1 form.
    pub ecdsa_pub_keys: Vec<Vec<u8>>,
    /// Keys that verify tokens signed with Ed25519.
    pub ed25519_pub_keys: Vec<[u8; 32]>,
    /// Time in milliseconds for which a cache entry lives.
    pub cache_ttl: u64,
    /// Time in milliseconds between two looks at an entry that is awaited.
    pub poll_interval: u64,
    /// Largest number of bytes of a response body that is cached.
    pub max_response_bytes: usize,
}

/// The text of the header `name`: that of its first value, or `or` where the
/// header is missing or its first value is no text.
pub open spec fn header_or(headers: Seq<(Seq<char>, Seq<u8>)>, name: Seq<char>, or: Seq<char>) -> Seq<
    char,
> {
    match first_of(headers, name) {
        Some(value) => match header_text(value) {
            Some(text) => text,
            None => or,
        },
        None => or,
    }
}

/// The text of the header `key`, or `or` where there is none.
pub fn extract_header(headers: &[RawHeader], key: &str, or: String) -> (r: String)
    ensures
        r@ == header_or(raw_views(headers@), key@, or@),
{
    let ghost all = raw_views(headers@);
    let mut i: usize = 0;
    while i < headers.len()
        invariant
            i <= headers.len(),
            all == raw_views(headers@),
            forall|j: int| 0 <= j < i ==> (#[trigger] all[j]).0 != key@,
        decreases headers.len() - i,
    {
        assert(all[i as int] == (headers@[i as int].0@, headers@[i as int].1@));
        if str_eq(headers[i].0.as_str(), key) {
            proof {
                lemma_first_of_skip(all, key@, i as int);
                assert(all.skip(i as int).first() == all[i as int]);
            }
            return match header_value_text(headers[i].1.as_slice()) {
                Some(text) => text,
                None => or,
            };
        }
        i += 1;
    }
    proof {
        lemma_first_of_skip(all, key@, i as int);
        assert(all.skip(i as int).len() == 0);
    }
    or
}

/// Whether a header travels no further than the proxy.
pub open spec fn is_hop_header(name: Seq<char>) -> bool {
    ||| name == "host"@
    ||| name == "forwarded"@
    ||| name == "proxy-authorization"@
    ||| name == "x-forwarded-for"@
    ||| name == "x-forwarded-host"@
    ||| name == "x-forwarded-proto"@
}

/// Whether a header goes on to the upstream.
pub open spec fn goes_upstream() -> spec_fn((Seq<char>, Seq<u8>)) -> bool {
    |h: (Seq<char>, Seq<u8>)| !is_hop_header(h.0)
}

/// The value with which a header goes on: the value that a header variable gives
/// for its text, or the value itself.
pub open spec fn substituted(vars: Seq<(Seq<char>, Seq<u8>)>, value: Seq<u8>) -> Seq<u8> {
    match header_text(value) {
        Some(text) => match first_of(vars, text) {
            Some(replacement) => replacement,
            None => value,
        },
        None => value,
    }
}

/// The headers that go on to the upstream: those that travel further, each with
/// its value substituted.
pub open spec fn altered(vars: Seq<(Seq<char>, Seq<u8>)>, headers: Seq<(Seq<char>, Seq<u8>)>) -> Seq<
    (Seq<char>, Seq<u8>),
> {
    headers.filter(goes_upstream()).map_values(
        |h: (Seq<char>, Seq<u8>)| (h.0, substituted(vars, h.1)),
    )
}

/// The position of the first pair with this name.
fn find_var(vars: &Vec<RawHeader>, name: &str) -> (r: Option<usize>)
    ensures
        match first_of(raw_views(vars@), name@) {
            Some(value) => r matches Some(i) && i < vars.len() && vars[i as int].1@ == value,
            None => r is None,
        },
{
    let ghost all = raw_views(vars@);
    let mut i: usize = 0;
    while i < vars.len()
        invariant
            i <= vars.len(),
            all == raw_views(vars@),
            forall|j: int| 0 <= j < i ==> (#[trigger] all[j]).0 != name@,
        decreases vars.len() - i,
    {
        assert(all[i as int] == (vars@[i as int].0@, vars@[i as int].1@));
        if str_eq(vars[i].0.as_str(), name) {
            proof {
                lemma_first_of_skip(all, name@, i as int);
                assert(all.skip(i as int).first() == all[i as int]);
            }
            return Some(i);
        }
        i += 1;
    }
    proof {
        lemma_first_of_skip(all, name@, i as int);
        assert(all.skip(i as int).len() == 0);
    }
    None
}

/// Whether a header travels no further than the proxy.
pub fn is_hop(name: &str) -> (r: bool)
    ensures
        r == is_hop_header(name@),
{
    str_eq(name, "host") || str_eq(name, "forwarded") || str_eq(name, "proxy-authorization")
        || str_eq(name, "x-forwarded-for") || str_eq(name, "x-forwarded-host") || str_eq(
        name,
        "x-forwarded-proto",
    )
}

impl AppState {
    /// Rewrites the headers of an inbound request into those of the upstream
    /// request: `host`, `forwarded`, `proxy-authorization`, `x-forwarded-for`,
    /// `x-forwarded-host` and `x-forwarded-proto` are removed, and a value whose
    /// text names a header variable is replaced by the variable's value.
    pub fn alter_headers(&self, headers: &mut Vec<RawHeader>)
        ensures
            raw_views(final(headers)@) == altered(
                raw_views(self.header_vars@),
                raw_views(old(headers)@),
            ),
    {
        let ghost vars = raw_views(self.header_vars@);
        let ghost all = raw_views(headers@);
        let ghost keep = goes_upstream();
        let ghost subst = |h: (Seq<char>, Seq<u8>)| (h.0, substituted(vars, h.1));
        let mut out: Vec<RawHeader> = Vec::new();
        let mut i: usize = 0;
        assert(raw_views(out@) =~= all.take(0).filter(keep).map_values(subst)) by {
            assert(all.take(0) =~= Seq::<(Seq<char>, Seq<u8>)>::empty());
            all.take(0).lemma_filter_len(keep);
        }
        while i < headers.len()
            invariant
                i <= headers.len(),
                vars == raw_views(self.header_vars@),
                all == raw_views(headers@),
                keep == goes_upstream(),
                subst == (|h: (Seq<char>, Seq<u8>)| (h.0, substituted(vars, h.1))),
                raw_views(out@) == all.take(i as int).filter(keep).map_values(subst),
            decreases headers.len() - i,
        {
            let name = headers[i].0.as_str();
            proof {
                assert(all[i as int] == (headers@[i as int].0@, headers@[i as int].1@));
                assert(all.take(i + 1) =~= all.take(i as int).push(all[i as int]));
                all.take(i as int).lemma_filter_push(all[i as int], keep);
            }
            if !is_hop(name) {
                let value = match header_value_text(headers[i].1.as_slice()) {
                    Some(text) => match find_var(&self.header_vars, text.as_str()) {
                        Some(at) => copy_bytes(self.header_vars[at].1.as_slice()),
                        None => copy_bytes(headers[i].1.as_slice()),
                    },
                    None => copy_bytes(headers[i].1.as_slice()),
                };
                let ghost before = raw_views(out@);
                let ghost kept = all.take(i as int).filter(keep);
                out.push((headers[i].0.clone(), value));
                assert(raw_views(out@) =~= before.push((name@, value@)));
                assert(kept.push(all[i as int]).map_values(subst) =~= kept.map_values(subst).push(
                    subst(all[i as int]),
                ));
            }
            i += 1;
        }
        assert(all.take(headers.len() as int) =~= all);
        *headers = out;
    }
}

/// Why a caller was not authenticated.
#[derive(Debug)]
pub enum AuthError {
    /// The header does not begin with `Bearer `.
    Header,
    /// What follows `Bearer ` is not base64url; the text says why.
    Encoding(String),
    /// The token was not accepted.
    Token(TokenError),
    /// No verifying key is configured.
    Unconfigured,
}

/// The mathematical value of an [`AuthError`].
pub enum AuthErrorView {
    Header,
    Encoding(Seq<char>),
    Token(TokenError),
    Unconfigured,
}

impl View for AuthError {
    type V = AuthErrorView;

    open spec fn view(&self) -> AuthErrorView {
        match self {
            AuthError::Header => AuthErrorView::Header,
            AuthError::Encoding(why) => AuthErrorView::Encoding(why@),
            AuthError::Token(e) => AuthErrorView::Token(*e),
            AuthError::Unconfigured => AuthErrorView::Unconfigured,
        }
    }
}

/// The text of a [`TokenError`].
pub open spec fn token_error_text(e: TokenError) -> Seq<char> {
    match e {
        TokenError::Decode => "failed to decode CBOR data"@,
        TokenError::Expired => "token expired"@,
        TokenError::Ed25519Signature => "failed to parse Ed25519 signature"@,
        TokenError::Ed25519Verify => "failed to verify Ed25519 signature"@,
        TokenError::Secp256k1Signature => "failed to parse Secp256k1 signature"@,
        TokenError::Secp256k1Verify => "failed to verify ECDSA/Secp256k1 signature"@,
    }
}

/// The text of an [`AuthError`].
pub open spec fn auth_error_text(e: AuthErrorView) -> Seq<char> {
    match e {
        AuthErrorView::Header => "invalid proxy-authorization header"@,
        AuthErrorView::Encoding(why) => why,
        AuthErrorView::Token(t) => "proxy authentication verify failed: "@ + token_error_text(t),
        AuthErrorView::Unconfigured => "proxy authentication verify failed"@,
    }
}

/// The status with which a caller that is not authenticated is answered: 400
/// where a token was presented that is malformed (the header does not begin with
/// `Bearer `, or what follows is not base64url or not the binary form of a token),
/// else 407: no token was presented, or the token is expired or not accepted.
pub open spec fn auth_error_status(e: AuthErrorView, presented: bool) -> u16 {
    match e {
        AuthErrorView::Header => if presented {
            400
        } else {
            407
        },
        AuthErrorView::Encoding(_) => 400,
        AuthErrorView::Token(TokenError::Decode) => 400,
        _ => 407,
    }
}

impl AuthError {
    /// The status with which the caller is answered; see [`auth_error_status`].
    pub fn status(&self, presented: bool) -> (s: u16)
        ensures
            s == auth_error_status(self@, presented),
    {
        match self {
            AuthError::Header => if presented {
                400
            } else {
                407
            },
            AuthError::Encoding(_) => 400,
            AuthError::Token(TokenError::Decode) => 400,
            _ => 407,
        }
    }

    /// The text that describes the error.
    pub fn message(&self) -> (s: String)
        ensures
            s@ == auth_error_text(self@),
    {
        match self {
            AuthError::Header => "invalid proxy-authorization header".to_string(),
            AuthError::Encoding(why) => why.clone(),
            AuthError::Token(t) => {
                let mut s = String::from_str("proxy authentication verify failed: ");
                s.append(t.message().as_str());
                s
            },
            AuthError::Unconfigured => "proxy authentication verify failed".to_string(),
        }
    }
}

/// The subject of the token in a `proxy-authorization` header at time `now`, or
/// why there is none. Keys for ECDSA are tried where there are any, else keys for
/// Ed25519; never both.
pub open spec fn token_subject(
    ecdsa_keys: Seq<Vec<u8>>,
    ed25519_keys: Seq<[u8; 32]>,
    access_token: Seq<char>,
    now: u64,
) -> Result<Seq<char>, AuthErrorView> {
    if !"Bearer "@.is_prefix_of(access_token) {
        Err(AuthErrorView::Header)
    } else {
        match base64url_decoding(access_token.skip(7)) {
            Err(why) => Err(AuthErrorView::Encoding(why)),
            Ok(data) => if ecdsa_keys.len() > 0 {
                match ecdsa_outcome(ecdsa_keys, data, now) {
                    Ok(token) => Ok(token.1),
                    Err(e) => Err(AuthErrorView::Token(e)),
                }
            } else if ed25519_keys.len() > 0 {
                match ed25519_outcome(ed25519_keys, data, now) {
                    Ok(token) => Ok(token.1),
                    Err(e) => Err(AuthErrorView::Token(e)),
                }
            } else {
                Err(AuthErrorView::Unconfigured)
            },
        }
    }
}

/// The view of the result of a verification.
pub open spec fn subject_view(r: Result<String, AuthError>) -> Result<Seq<char>, AuthErrorView> {
    match r {
        Ok(subject) => Ok(subject@),
        Err(e) => Err(e@),
    }
}

impl AppState {
    /// The subject of the token in a `proxy-authorization` header at time `now`;
    /// see [`token_subject`].
    pub fn verify_token_at(&self, access_token: &str, now: u64) -> (r: Result<String, AuthError>)
        ensures
            subject_view(r) == token_subject(
                self.ecdsa_pub_keys@,
                self.ed25519_pub_keys@,
                access_token@,
                now,
            ),
    {
        proof {
            reveal_strlit("Bearer ");
        }
        if !starts_with(access_token, "Bearer ") {
            return Err(AuthError::Header);
        }
        let encoded = skip_chars(access_token, 7);
        let data = match base64url_decode(encoded.as_str()) {
            Ok(data) => data,
            Err(why) => { return Err(AuthError::Encoding(why)); },
        };
        if self.ecdsa_pub_keys.len() > 0 {
            return match ecdsa_verify_at(self.ecdsa_pub_keys.as_slice(), data.as_slice(), now) {
                Ok(token) => Ok(token.1),
                Err(e) => Err(AuthError::Token(e)),
            };
        }
        if self.ed25519_pub_keys.len() > 0 {
            return match ed25519_verify_at(self.ed25519_pub_keys.as_slice(), data.as_slice(), now) {
                Ok(token) => Ok(token.1),
                Err(e) => Err(AuthError::Token(e)),
            };
        }
        Err(AuthError::Unconfigured)
    }

    /// The subject of the token in a `proxy-authorization` header at the time of
    /// the call. Whatever the clock says, the result is what
    /// [`AppState::verify_token_at`] gives for that time.
    pub fn verify_token(&self, access_token: &str) -> (r: Result<String, AuthError>)
        ensures
            exists|now: u64|
                subject_view(r) == #[trigger] token_subject(
                    self.ecdsa_pub_keys@,
                    self.ed25519_pub_keys@,
                    access_token@,
                    now,
                ),
    {
        let now = unix_seconds();
        self.verify_token_at(access_token, now)
    }
}

/// A token that was signed is accepted as a bearer. Where the text after
/// `Bearer ` is read as the binary form of a token, the token has not expired at
/// `now`, and one of the keys that are tried accepts its signature, the subject
/// that comes out is the subject that was signed.
pub proof fn lemma_signed_bearer_gives_the_subject(
    ecdsa_keys: Seq<Vec<u8>>,
    ed25519_keys: Seq<[u8; 32]>,
    text: Seq<char>,
    data: Seq<u8>,
    token: (u64, Seq<char>, Seq<u8>),
    now: u64,
)
    requires
        base64url_decoding(text) == Ok::<Seq<u8>, Seq<char>>(data),
        parsed_token(data) == Some(token),
        !is_expired(token.0, now),
        ecdsa_keys.len() > 0 ==> ecdsa_signature_parses(token.2) && ecdsa_some_key_accepts(
            ecdsa_keys,
            token,
        ),
        ecdsa_keys.len() == 0 ==> token.2.len() == ED25519_SIGNATURE_LENGTH
            && ed25519_some_key_accepts(ed25519_keys, token),
    ensures
        token_subject(ecdsa_keys, ed25519_keys, "Bearer "@ + text, now) == Ok::<
            Seq<char>,
            AuthErrorView,
        >(token.1),
{
    reveal_strlit("Bearer ");
    let header = "Bearer "@ + text;
    assert("Bearer "@.len() == 7);
    assert(header.skip(7) =~= text);
    assert("Bearer "@.is_prefix_of(header)) by {
        assert(header.subrange(0, 7) =~= "Bearer "@);
    }
    if ecdsa_keys.len() == 0 {
        let i = choose|i: int|
            0 <= i < ed25519_keys.len() && ed25519_accepts(
                (#[trigger] ed25519_keys[i])@,
                claims_bytes(token.0, token.1),
                token.2,
            );
        assert(ed25519_keys.len() > 0);
    }
}

} // verus!
