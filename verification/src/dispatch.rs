//! The dispatch engine: single-flight with replay.
//!
//! The first of several requests with the same idempotency key obtains the cache
//! entry, calls the upstream, stores the response and answers with it; every other
//! request waits for the entry and replays what was stored. The engine itself
//! performs neither cache operations nor HTTP calls: it is a machine from a state
//! and an event to the next state and the action to perform, and whoever drives it
//! performs the action and hands back what came of it.

use vstd::prelude::*;
use vstd::string::*;
use crate::cache::{
    body_after, body_fault_text, parsed_response, raw_views, response_bytes, with_headers_from,
    BodyFault, CodecError, RawHeader, ResponseData, ResponseView,
};
use crate::handler::{
    altered, auth_error_status, auth_error_text, extract_header, header_or, token_subject,
    AppState,
};
use crate::memory::{
    deleted, expiry, lemma_single_winner, obtain_results, obtained, visible, CacheModel,
};
use crate::text::{
    find_pair, first_of, has_entry, list_entries, list_has, lower, pair_views, skip_chars,
    starts_with,
};

verus! {

/// Largest number of characters of the caller's part of an idempotency key.
pub const MAX_IDEMPOTENCY_KEY_LENGTH: usize = 256;

/// Largest number of bytes of a request body that is passed on.
pub const MAX_REQUEST_BODY_BYTES: usize = 2_097_152;

/// Largest number of bytes of a response body that is cached, unless configured otherwise.
pub const DEFAULT_MAX_RESPONSE_BYTES: usize = 2_097_152;

/// Time in milliseconds for which a cache entry lives, unless configured otherwise.
pub const DEFAULT_CACHE_TTL_MS: u64 = 60_000;

/// Time in milliseconds between two looks at an awaited entry, unless configured otherwise.
pub const DEFAULT_POLL_INTERVAL_MS: u64 = 100;

/// Shortest time in milliseconds between two looks at an awaited entry.
pub const MIN_POLL_INTERVAL_MS: u64 = 10;

/// An inbound request, without its body.
#[derive(Debug)]
pub struct Inbound {
    pub method: String,
    pub path: String,
    /// The path with the query, where the request has one.
    pub path_and_query: Option<String>,
    pub headers: Vec<RawHeader>,
}

/// The request that goes to the upstream.
#[derive(Debug)]
pub struct UpstreamRequest {
    pub method: String,
    pub url: String,
    pub headers: Vec<RawHeader>,
    pub body: Option<Vec<u8>>,
}

/// The mathematical value of an [`UpstreamRequest`].
pub struct UpstreamRequestView {
    pub method: Seq<char>,
    pub url: Seq<char>,
    pub headers: Seq<(Seq<char>, Seq<u8>)>,
    pub body: Option<Seq<u8>>,
}

impl View for UpstreamRequest {
    type V = UpstreamRequestView;

    open spec fn view(&self) -> UpstreamRequestView {
        UpstreamRequestView {
            method: self.method@,
            url: self.url@,
            headers: raw_views(self.headers@),
            body: match self.body {
                Some(b) => Some(b@),
                None => None,
            },
        }
    }
}

/// What the upstream answered.
#[derive(Debug)]
pub struct UpstreamResponse {
    pub status: u16,
    pub headers: Vec<RawHeader>,
    pub body: Vec<u8>,
}

/// Why a cache operation failed.
#[derive(Debug)]
pub enum CacheError {
    /// There is no entry: it was never obtained, or it has expired or was deleted.
    NotObtained,
    /// The entry did not turn into a response in time.
    Timeout,
    /// The backend failed; the text says how.
    Backend(String),
}

/// The mathematical value of a [`CacheError`].
pub enum CacheErrorView {
    NotObtained,
    Timeout,
    Backend(Seq<char>),
}

impl View for CacheError {
    type V = CacheErrorView;

    open spec fn view(&self) -> CacheErrorView {
        match self {
            CacheError::NotObtained => CacheErrorView::NotObtained,
            CacheError::Timeout => CacheErrorView::Timeout,
            CacheError::Backend(why) => CacheErrorView::Backend(why@),
        }
    }
}

/// The text of a cache error.
pub open spec fn cache_error_text(e: CacheErrorView) -> Seq<char> {
    match e {
        CacheErrorView::NotObtained => "not obtained"@,
        CacheErrorView::Timeout => "polling get cache timeout"@,
        CacheErrorView::Backend(why) => why,
    }
}

/// The status with which a cache error is answered: 504 for a timeout, else 500.
pub open spec fn cache_error_status(e: CacheErrorView) -> u16 {
    match e {
        CacheErrorView::Timeout => 504,
        _ => 500,
    }
}

impl CacheError {
    /// The text that describes the error.
    pub fn message(&self) -> (s: String)
        ensures
            s@ == cache_error_text(self@),
    {
        match self {
            CacheError::NotObtained => "not obtained".to_string(),
            CacheError::Timeout => "polling get cache timeout".to_string(),
            CacheError::Backend(why) => why.clone(),
        }
    }

    /// The status with which the error is answered.
    pub fn status(&self) -> (s: u16)
        ensures
            s == cache_error_status(self@),
    {
        match self {
            CacheError::Timeout => 504,
            _ => 500,
        }
    }
}

/// The answer to the caller.
#[derive(Debug)]
pub enum Reply {
    /// A response of the upstream, fresh or replayed.
    Response(ResponseData),
    /// A refusal or failure of the proxy itself.
    Failure { status: u16, message: String },
    /// The upstream's answer passed on without being cached.
    Mirrored { status: u16, body: Vec<u8> },
}

/// The mathematical value of a [`Reply`].
pub enum ReplyView {
    Response(ResponseView),
    Failure { status: u16, message: Seq<char> },
    Mirrored { status: u16, body: Seq<u8> },
}

impl View for Reply {
    type V = ReplyView;

    open spec fn view(&self) -> ReplyView {
        match self {
            Reply::Response(r) => ReplyView::Response(r@),
            Reply::Failure { status, message } => ReplyView::Failure {
                status: *status,
                message: message@,
            },
            Reply::Mirrored { status, body } => ReplyView::Mirrored { status: *status, body: body@ },
        }
    }
}

/// What came of the last action.
#[derive(Debug)]
pub enum Event {
    /// A request arrived at the time `now`, in seconds since the epoch.
    Request { inbound: Inbound, now: u64 },
    /// `obtain` returned.
    Obtained(Result<bool, CacheError>),
    /// `poll_get` returned.
    Polled(Result<Vec<u8>, CacheError>),
    /// The body of the request was read, or could not be read.
    Body(Result<Vec<u8>, String>),
    /// The upstream answered, or the call failed.
    Upstream(Result<UpstreamResponse, String>),
    /// `set` returned.
    Stored(Result<bool, CacheError>),
    /// `delete` returned.
    Deleted,
}

/// What to do next.
#[derive(Debug)]
pub enum Action {
    Obtain { key: String, ttl_ms: u64 },
    PollGet { key: String, poll_interval_ms: u64, max_polls: u64 },
    ReadBody { limit: usize },
    Execute(UpstreamRequest),
    Store { key: String, value: Vec<u8>, ttl_ms: u64 },
    Delete { key: String },
    Reply(Reply),
}

/// The mathematical value of an [`Action`].
pub enum ActionView {
    Obtain { key: Seq<char>, ttl_ms: u64 },
    PollGet { key: Seq<char>, poll_interval_ms: u64, max_polls: u64 },
    ReadBody { limit: usize },
    Execute(UpstreamRequestView),
    Store { key: Seq<char>, value: Seq<u8>, ttl_ms: u64 },
    Delete { key: Seq<char> },
    Reply(ReplyView),
}

impl View for Action {
    type V = ActionView;

    open spec fn view(&self) -> ActionView {
        match self {
            Action::Obtain { key, ttl_ms } => ActionView::Obtain { key: key@, ttl_ms: *ttl_ms },
            Action::PollGet { key, poll_interval_ms, max_polls } => ActionView::PollGet {
                key: key@,
                poll_interval_ms: *poll_interval_ms,
                max_polls: *max_polls,
            },
            Action::ReadBody { limit } => ActionView::ReadBody { limit: *limit },
            Action::Execute(request) => ActionView::Execute(request@),
            Action::Store { key, value, ttl_ms } => ActionView::Store {
                key: key@,
                value: value@,
                ttl_ms: *ttl_ms,
            },
            Action::Delete { key } => ActionView::Delete { key: key@ },
            Action::Reply(reply) => ActionView::Reply(reply@),
        }
    }
}

/// What a request in flight has settled: its cache key, the request for the
/// upstream, and the two filters for the response.
#[derive(Debug)]
pub struct Plan {
    pub key: String,
    pub request: UpstreamRequest,
    pub json_mask: String,
    pub response_headers: String,
}

/// The mathematical value of a [`Plan`].
pub struct PlanView {
    pub key: Seq<char>,
    pub request: UpstreamRequestView,
    pub json_mask: Seq<char>,
    pub response_headers: Seq<char>,
}

impl View for Plan {
    type V = PlanView;

    open spec fn view(&self) -> PlanView {
        PlanView {
            key: self.key@,
            request: self.request@,
            json_mask: self.json_mask@,
            response_headers: self.response_headers@,
        }
    }
}

/// The state of a request in flight.
#[derive(Debug)]
pub enum Flight {
    /// Nothing has happened yet.
    Arrived,
    /// `obtain` is under way.
    Obtaining(Plan),
    /// Another request holds the entry; `poll_get` is under way.
    Polling,
    /// This request holds the entry; the body of the request is being read.
    ReadingBody(Plan),
    /// This request holds the entry; the upstream call is under way.
    Executing(Plan),
    /// This request holds the entry; `set` is under way with the response.
    Storing(Plan, ResponseData),
    /// This request gives up the entry; `delete` is under way, the answer follows.
    Cleaning(Reply),
    /// The caller has been answered.
    Done,
}

/// The mathematical value of a [`Flight`].
pub enum FlightView {
    Arrived,
    Obtaining(PlanView),
    Polling,
    ReadingBody(PlanView),
    Executing(PlanView),
    Storing(PlanView, ResponseView),
    Cleaning(ReplyView),
    Done,
}

impl View for Flight {
    type V = FlightView;

    open spec fn view(&self) -> FlightView {
        match self {
            Flight::Arrived => FlightView::Arrived,
            Flight::Obtaining(p) => FlightView::Obtaining(p@),
            Flight::Polling => FlightView::Polling,
            Flight::ReadingBody(p) => FlightView::ReadingBody(p@),
            Flight::Executing(p) => FlightView::Executing(p@),
            Flight::Storing(p, r) => FlightView::Storing(p@, r@),
            Flight::Cleaning(r) => FlightView::Cleaning(r@),
            Flight::Done => FlightView::Done,
        }
    }
}

/// What `reqwest::Url::parse` reads from `url`: the scheme and the normal form of
/// the URL, or the text of the error with which it refuses the input.
pub uninterp spec fn url_parsing(url: Seq<char>) -> Result<(Seq<char>, Seq<char>), Seq<char>>;

/// Whether a method only reads: `GET`, `HEAD`, `OPTIONS`, `TRACE` and `QUERY` do,
/// in exactly this spelling.
pub open spec fn method_is_safe(method: Seq<char>) -> bool {
    method == "GET"@ || method == "HEAD"@ || method == "OPTIONS"@ || method == "TRACE"@ || method
        == "QUERY"@
}

/// `reqwest::Url::parse`, then `Url::scheme` and `Url::as_str`: the scheme and the
/// normal form of the URL, or the text of the parse error.
#[verifier::external_body]
fn parse_url(url: &str) -> (r: Result<(String, String), String>)
    ensures
        match url_parsing(url@) {
            Ok(parts) => r matches Ok(p) && p.0@ == parts.0 && p.1@ == parts.1,
            Err(why) => r matches Err(e) && e@ == why,
        },
{
    match reqwest::Url::parse(url) {
        Ok(parsed) => Ok((parsed.scheme().to_string(), parsed.as_str().to_string())),
        Err(err) => Err(err.to_string()),
    }
}

/// `http::Method::is_safe` of the method that `http::Method::from_bytes` reads
/// from the name, `false` where the name is no method: `from_bytes` knows the
/// standard methods by their exact names, and `is_safe` holds of `GET`, `HEAD`,
/// `OPTIONS`, `TRACE` and `QUERY` among them and of no other method.
#[verifier::external_body]
fn is_safe_method(method: &str) -> (r: bool)
    ensures
        r == method_is_safe(method@),
{
    match http::Method::from_bytes(method.as_bytes()) {
        Ok(method) => method.is_safe(),
        Err(_) => false,
    }
}

/// A refusal: the status and the text with which the caller is answered.
pub struct Refusal {
    pub status: u16,
    pub message: Seq<char>,
}

/// The mathematical value of what the proxy is configured with.
pub struct AppView {
    pub agents: Seq<Seq<char>>,
    pub url_vars: Seq<(Seq<char>, Seq<char>)>,
    pub header_vars: Seq<(Seq<char>, Seq<u8>)>,
    pub ecdsa_pub_keys: Seq<Vec<u8>>,
    pub ed25519_pub_keys: Seq<[u8; 32]>,
    pub cache_ttl: u64,
    pub poll_interval: u64,
    pub max_response_bytes: usize,
}

impl View for AppState {
    type V = AppView;

    open spec fn view(&self) -> AppView {
        AppView {
            agents: self.agents.deep_view(),
            url_vars: pair_views(self.url_vars@),
            header_vars: raw_views(self.header_vars@),
            ecdsa_pub_keys: self.ecdsa_pub_keys@,
            ed25519_pub_keys: self.ed25519_pub_keys@,
            cache_ttl: self.cache_ttl,
            poll_interval: self.poll_interval,
            max_response_bytes: self.max_response_bytes,
        }
    }
}

/// The mathematical value of an [`Inbound`].
pub struct InboundView {
    pub method: Seq<char>,
    pub path: Seq<char>,
    pub path_and_query: Option<Seq<char>>,
    pub headers: Seq<(Seq<char>, Seq<u8>)>,
}

impl View for Inbound {
    type V = InboundView;

    open spec fn view(&self) -> InboundView {
        InboundView {
            method: self.method@,
            path: self.path@,
            path_and_query: match self.path_and_query {
                Some(q) => Some(q@),
                None => None,
            },
            headers: raw_views(self.headers@),
        }
    }
}

/// Whether callers must present a token.
pub open spec fn requires_token(app: AppView) -> bool {
    app.ecdsa_pub_keys.len() > 0 || app.ed25519_pub_keys.len() > 0
}

/// The subject of a request, or the refusal of a caller that is not authenticated.
pub open spec fn caller(app: AppView, inbound: InboundView, now: u64) -> Result<Seq<char>, Refusal> {
    if requires_token(app) {
        let token = header_or(inbound.headers, "proxy-authorization"@, Seq::empty());
        match token_subject(app.ecdsa_pub_keys, app.ed25519_pub_keys, token, now) {
            Ok(subject) => Ok(subject),
            Err(e) => Err(
                Refusal {
                    status: auth_error_status(e, token.len() > 0),
                    message: auth_error_text(e),
                },
            ),
        }
    } else {
        Ok("ANON"@)
    }
}

/// The URL before it is parsed: a symbolic path (`/URL_...`) stands for the URL
/// that is configured under its name, any other path is asked of the host named
/// in `x-forwarded-host`, over HTTPS.
pub open spec fn candidate_url(app: AppView, inbound: InboundView) -> Result<Seq<char>, Refusal> {
    if "/URL_"@.is_prefix_of(inbound.path) {
        let url = match first_of(app.url_vars, inbound.path.skip(1)) {
            Some(url) => url,
            None => Seq::empty(),
        };
        if "http"@.is_prefix_of(url) {
            Ok(url)
        } else {
            Err(Refusal { status: 400, message: "invalid url: "@ + url })
        }
    } else {
        let host = header_or(inbound.headers, "x-forwarded-host"@, Seq::empty());
        if host.len() == 0 {
            Err(Refusal { status: 400, message: "missing header: x-forwarded-host"@ })
        } else {
            Ok(
                "https://"@ + host + (match inbound.path_and_query {
                    Some(q) => q,
                    None => inbound.path,
                }),
            )
        }
    }
}

/// The URL of the upstream in its normal form: the candidate must be read as a
/// URL, and its scheme must be `https`.
pub open spec fn target_url(app: AppView, inbound: InboundView) -> Result<Seq<char>, Refusal> {
    match candidate_url(app, inbound) {
        Err(refusal) => Err(refusal),
        Ok(url) => match url_parsing(url) {
            Err(why) => Err(Refusal { status: 400, message: why }),
            Ok(parts) => if parts.0 == "https"@ {
                Ok(parts.1)
            } else {
                Err(Refusal { status: 400, message: "invalid url: "@ + url })
            },
        },
    }
}

/// The plan for a request, or the refusal with which it is answered at once.
///
/// In this order: the caller is authenticated where keys are configured (407, or
/// 400 for a malformed token), its subject must be allowed where an allow-list is
/// configured (403), the URL of the upstream must resolve (400), and the request
/// must carry an idempotency key of at most 256 characters (400). The cache key is
/// made of the subject, the method and the idempotency key, joined by colons.
pub open spec fn planned(app: AppView, inbound: InboundView, now: u64) -> Result<
    PlanView,
    Refusal,
> {
    match caller(app, inbound, now) {
        Err(refusal) => Err(refusal),
        Ok(subject) => if app.agents.len() > 0 && !has_entry(app.agents, subject) {
            Err(Refusal { status: 403, message: "agent "@ + subject + " is not allowed"@ })
        } else {
            match target_url(app, inbound) {
                Err(refusal) => Err(refusal),
                Ok(url) => {
                    let given = header_or(inbound.headers, "idempotency-key"@, Seq::empty());
                    if given.len() == 0 {
                        Err(Refusal { status: 400, message: "missing header: idempotency-key"@ })
                    } else if given.len() > MAX_IDEMPOTENCY_KEY_LENGTH {
                        Err(Refusal { status: 400, message: "invalid header: idempotency-key"@ })
                    } else {
                        Ok(
                            PlanView {
                                key: subject + ":"@ + inbound.method + ":"@ + given,
                                request: UpstreamRequestView {
                                    method: inbound.method,
                                    url,
                                    headers: altered(app.header_vars, inbound.headers),
                                    body: None,
                                },
                                json_mask: header_or(inbound.headers, "x-json-mask"@, Seq::empty()),
                                response_headers: header_or(
                                    inbound.headers,
                                    "response-headers"@,
                                    Seq::empty(),
                                ),
                            },
                        )
                    }
                },
            }
        },
    }
}

/// A failure of the proxy as an answer.
fn failure(status: u16, message: String) -> (r: Reply)
    ensures
        r@ == (ReplyView::Failure { status, message: message@ }),
{
    Reply::Failure { status, message }
}

/// The subject of a request, or the answer that refuses it.
fn identify(app: &AppState, inbound: &Inbound, now: u64) -> (r: Result<String, Reply>)
    ensures
        match caller(app@, inbound@, now) {
            Ok(subject) => r matches Ok(s) && s@ == subject,
            Err(refusal) => r matches Err(reply) && reply@ == (ReplyView::Failure {
                status: refusal.status,
                message: refusal.message,
            }),
        },
{
    if app.ecdsa_pub_keys.len() > 0 || app.ed25519_pub_keys.len() > 0 {
        let token = extract_header(inbound.headers.as_slice(), "proxy-authorization", String::new());
        let presented = token.as_str().unicode_len() > 0;
        match app.verify_token_at(token.as_str(), now) {
            Ok(subject) => Ok(subject),
            Err(e) => Err(failure(e.status(presented), e.message())),
        }
    } else {
        Ok("ANON".to_string())
    }
}

/// The URL of the upstream, or the answer that refuses the request.
fn resolve(app: &AppState, inbound: &Inbound) -> (r: Result<String, Reply>)
    ensures
        match target_url(app@, inbound@) {
            Ok(url) => r matches Ok(u) && u@ == url,
            Err(refusal) => r matches Err(reply) && reply@ == (ReplyView::Failure {
                status: refusal.status,
                message: refusal.message,
            }),
        },
{
    let url = if starts_with(inbound.path.as_str(), "/URL_") {
        proof {
            reveal_strlit("/URL_");
        }
        let name = skip_chars(inbound.path.as_str(), 1);
        let url = match find_pair(&app.url_vars, name.as_str()) {
            Some(at) => app.url_vars[at].1.clone(),
            None => String::new(),
        };
        if !starts_with(url.as_str(), "http") {
            let mut message = String::from_str("invalid url: ");
            message.append(url.as_str());
            return Err(failure(400, message));
        }
        url
    } else {
        let host = extract_header(inbound.headers.as_slice(), "x-forwarded-host", String::new());
        if host.as_str().unicode_len() == 0 {
            return Err(failure(400, "missing header: x-forwarded-host".to_string()));
        }
        let mut url = String::from_str("https://");
        url.append(host.as_str());
        match &inbound.path_and_query {
            Some(q) => url.append(q.as_str()),
            None => url.append(inbound.path.as_str()),
        }
        url
    };
    match parse_url(url.as_str()) {
        Err(why) => Err(failure(400, why)),
        Ok((scheme, normal)) => {
            if crate::text::str_eq(scheme.as_str(), "https") {
                Ok(normal)
            } else {
                let mut message = String::from_str("invalid url: ");
                message.append(url.as_str());
                Err(failure(400, message))
            }
        },
    }
}

/// The plan for a request, or the answer that refuses it; see [`planned`].
pub fn plan_for(app: &AppState, inbound: Inbound, now: u64) -> (r: Result<Plan, Reply>)
    ensures
        match planned(app@, inbound@, now) {
            Ok(plan) => r matches Ok(p) && p@ == plan,
            Err(refusal) => r matches Err(reply) && reply@ == (ReplyView::Failure {
                status: refusal.status,
                message: refusal.message,
            }),
        },
{
    let subject = match identify(app, &inbound, now) {
        Ok(subject) => subject,
        Err(reply) => { return Err(reply); },
    };
    assert(app.agents.deep_view().len() == app.agents.len());
    if app.agents.len() > 0 && !list_has(&app.agents, subject.as_str()) {
        let mut message = String::from_str("agent ");
        message.append(subject.as_str());
        message.append(" is not allowed");
        return Err(failure(403, message));
    }
    let url = match resolve(app, &inbound) {
        Ok(url) => url,
        Err(reply) => { return Err(reply); },
    };
    let given = extract_header(inbound.headers.as_slice(), "idempotency-key", String::new());
    let length = given.as_str().unicode_len();
    if length == 0 {
        return Err(failure(400, "missing header: idempotency-key".to_string()));
    }
    if length > MAX_IDEMPOTENCY_KEY_LENGTH {
        return Err(failure(400, "invalid header: idempotency-key".to_string()));
    }
    let mut key = subject;
    key.append(":");
    key.append(inbound.method.as_str());
    key.append(":");
    key.append(given.as_str());
    let json_mask = extract_header(inbound.headers.as_slice(), "x-json-mask", String::new());
    let response_headers = extract_header(
        inbound.headers.as_slice(),
        "response-headers",
        String::new(),
    );
    let mut headers = inbound.headers;
    app.alter_headers(&mut headers);
    Ok(
        Plan {
            key,
            request: UpstreamRequest { method: inbound.method, url, headers, body: None },
            json_mask,
            response_headers,
        },
    )
}

/// The mathematical value of an [`UpstreamResponse`].
pub struct UpstreamResponseView {
    pub status: u16,
    pub headers: Seq<(Seq<char>, Seq<u8>)>,
    pub body: Seq<u8>,
}

impl View for UpstreamResponse {
    type V = UpstreamResponseView;

    open spec fn view(&self) -> UpstreamResponseView {
        UpstreamResponseView {
            status: self.status,
            headers: raw_views(self.headers@),
            body: self.body@,
        }
    }
}

/// The mathematical value of an [`Event`].
pub enum EventView {
    Request { inbound: InboundView, now: u64 },
    Obtained(Result<bool, CacheErrorView>),
    Polled(Result<Seq<u8>, CacheErrorView>),
    Body(Result<Seq<u8>, Seq<char>>),
    Upstream(Result<UpstreamResponseView, Seq<char>>),
    Stored(Result<bool, CacheErrorView>),
    Deleted,
}

impl View for Event {
    type V = EventView;

    open spec fn view(&self) -> EventView {
        match self {
            Event::Request { inbound, now } => EventView::Request { inbound: inbound@, now: *now },
            Event::Obtained(r) => EventView::Obtained(
                match r {
                    Ok(won) => Ok(*won),
                    Err(e) => Err(e@),
                },
            ),
            Event::Polled(r) => EventView::Polled(
                match r {
                    Ok(bytes) => Ok(bytes@),
                    Err(e) => Err(e@),
                },
            ),
            Event::Body(r) => EventView::Body(
                match r {
                    Ok(bytes) => Ok(bytes@),
                    Err(why) => Err(why@),
                },
            ),
            Event::Upstream(r) => EventView::Upstream(
                match r {
                    Ok(res) => Ok(res@),
                    Err(why) => Err(why@),
                },
            ),
            Event::Stored(r) => EventView::Stored(
                match r {
                    Ok(done) => Ok(*done),
                    Err(e) => Err(e@),
                },
            ),
            Event::Deleted => EventView::Deleted,
        }
    }
}

/// Whether an answer of the upstream is cached: its status is from 200 to 500.
pub open spec fn is_cacheable(status: u16) -> bool {
    200 <= status && status <= 500
}

/// The time between two looks at an awaited entry: the configured one, at least 10 ms.
pub open spec fn poll_interval(app: AppView) -> u64 {
    if app.poll_interval < MIN_POLL_INTERVAL_MS {
        MIN_POLL_INTERVAL_MS
    } else {
        app.poll_interval
    }
}

/// The response that is cached for an answer of the upstream: its status, its
/// headers under the plan's allow-list, its body under the plan's mask.
pub open spec fn cached_response(plan: PlanView, res: UpstreamResponseView) -> Result<
    ResponseView,
    BodyFault,
> {
    let fresh = ResponseView {
        status: res.status,
        headers: Seq::empty(),
        body: Seq::empty(),
        mime: "text/plain"@,
    };
    let with_headers = with_headers_from(
        fresh,
        res.headers,
        list_entries(lower(plan.response_headers)),
    );
    match body_after(with_headers, res.body, plan.json_mask) {
        Ok(body) => Ok(ResponseView { body, ..with_headers }),
        Err(fault) => Err(fault),
    }
}

/// The step that gives up the entry: `delete`, then the answer.
pub open spec fn give_up(key: Seq<char>, reply: ReplyView) -> (FlightView, ActionView) {
    (FlightView::Cleaning(reply), ActionView::Delete { key })
}

/// The step that ends a request with a failure of the proxy.
pub open spec fn fail(status: u16, message: Seq<char>) -> (FlightView, ActionView) {
    (FlightView::Done, ActionView::Reply(ReplyView::Failure { status, message }))
}

/// The next state of a request in flight and the action to perform, for every
/// state and event.
///
/// A request is planned and asks for the entry. The winner reads the body of the
/// request where the method is not safe, calls the upstream, and stores an answer
/// with a status from 200 to 500 whose body is not larger than configured; once it
/// is stored the winner answers with it.
/// Whatever else happens to the winner, it deletes the entry and then answers:
/// with the failure, or with the upstream's own answer where that is not cached.
/// A loser polls and answers with the stored response.
pub open spec fn next(app: AppView, flight: FlightView, event: EventView) -> (
    FlightView,
    ActionView,
) {
    match flight {
        FlightView::Arrived => match event {
            EventView::Request { inbound, now } => match planned(app, inbound, now) {
                Ok(plan) => (
                    FlightView::Obtaining(plan),
                    ActionView::Obtain { key: plan.key, ttl_ms: app.cache_ttl },
                ),
                Err(refusal) => fail(refusal.status, refusal.message),
            },
            _ => fail(500, "unexpected event"@),
        },
        FlightView::Obtaining(plan) => match event {
            EventView::Obtained(Ok(true)) => if method_is_safe(plan.request.method) {
                (FlightView::Executing(plan), ActionView::Execute(plan.request))
            } else {
                (
                    FlightView::ReadingBody(plan),
                    ActionView::ReadBody { limit: MAX_REQUEST_BODY_BYTES },
                )
            },
            EventView::Obtained(Ok(false)) => (
                FlightView::Polling,
                ActionView::PollGet {
                    key: plan.key,
                    poll_interval_ms: poll_interval(app),
                    max_polls: app.cache_ttl / poll_interval(app),
                },
            ),
            EventView::Obtained(Err(e)) => fail(500, cache_error_text(e)),
            _ => fail(500, "unexpected event"@),
        },
        FlightView::Polling => match event {
            EventView::Polled(Ok(bytes)) => match parsed_response(bytes) {
                Some(response) => (
                    FlightView::Done,
                    ActionView::Reply(ReplyView::Response(response)),
                ),
                None => fail(500, "failed to decode response data"@),
            },
            EventView::Polled(Err(e)) => fail(cache_error_status(e), cache_error_text(e)),
            _ => fail(500, "unexpected event"@),
        },
        FlightView::ReadingBody(plan) => match event {
            EventView::Body(Ok(body)) => {
                let request = UpstreamRequestView { body: Some(body), ..plan.request };
                (
                    FlightView::Executing(PlanView { request, ..plan }),
                    ActionView::Execute(request),
                )
            },
            EventView::Body(Err(why)) => give_up(
                plan.key,
                ReplyView::Failure { status: 400, message: why },
            ),
            _ => give_up(
                plan.key,
                ReplyView::Failure { status: 500, message: "unexpected event"@ },
            ),
        },
        FlightView::Executing(plan) => match event {
            EventView::Upstream(Ok(res)) => if !is_cacheable(res.status) {
                give_up(plan.key, ReplyView::Mirrored { status: res.status, body: res.body })
            } else if res.body.len() > app.max_response_bytes {
                give_up(
                    plan.key,
                    ReplyView::Failure { status: 500, message: "response body too large"@ },
                )
            } else {
                match cached_response(plan, res) {
                    Ok(response) => (
                        FlightView::Storing(plan, response),
                        ActionView::Store {
                            key: plan.key,
                            value: response_bytes(response),
                            ttl_ms: app.cache_ttl,
                        },
                    ),
                    Err(fault) => give_up(
                        plan.key,
                        ReplyView::Failure { status: 500, message: body_fault_text(fault) },
                    ),
                }
            },
            EventView::Upstream(Err(why)) => give_up(
                plan.key,
                ReplyView::Failure { status: 500, message: why },
            ),
            _ => give_up(
                plan.key,
                ReplyView::Failure { status: 500, message: "unexpected event"@ },
            ),
        },
        FlightView::Storing(plan, response) => match event {
            EventView::Stored(Ok(true)) => (
                FlightView::Done,
                ActionView::Reply(ReplyView::Response(response)),
            ),
            EventView::Stored(Ok(false)) => give_up(
                plan.key,
                ReplyView::Failure { status: 500, message: "not obtained"@ },
            ),
            EventView::Stored(Err(e)) => give_up(
                plan.key,
                ReplyView::Failure { status: 500, message: cache_error_text(e) },
            ),
            _ => give_up(
                plan.key,
                ReplyView::Failure { status: 500, message: "unexpected event"@ },
            ),
        },
        FlightView::Cleaning(reply) => (FlightView::Done, ActionView::Reply(reply)),
        FlightView::Done => fail(500, "unexpected event"@),
    }
}

/// The step that ends a request with a failure of the proxy.
fn finish(status: u16, message: String) -> (r: (Flight, Action))
    ensures
        (r.0@, r.1@) == fail(status, message@),
{
    (Flight::Done, Action::Reply(Reply::Failure { status, message }))
}

/// The step that gives up the entry with a failure of the proxy.
fn abandon(key: String, status: u16, message: String) -> (r: (Flight, Action))
    ensures
        (r.0@, r.1@) == give_up(key@, ReplyView::Failure { status, message: message@ }),
{
    (Flight::Cleaning(Reply::Failure { status, message }), Action::Delete { key })
}

/// A copy of a list of arriving headers.
fn clone_raw(headers: &Vec<RawHeader>) -> (r: Vec<RawHeader>)
    ensures
        raw_views(r@) == raw_views(headers@),
{
    let mut out: Vec<RawHeader> = Vec::new();
    let mut i: usize = 0;
    while i < headers.len()
        invariant
            i <= headers.len(),
            raw_views(out@) == raw_views(headers@.take(i as int)),
        decreases headers.len() - i,
    {
        let ghost before = raw_views(out@);
        let name = headers[i].0.clone();
        let value = crate::text::copy_bytes(headers[i].1.as_slice());
        out.push((name, value));
        assert(raw_views(out@) =~= before.push((name@, value@)));
        assert(raw_views(headers@.take(i + 1)) =~= raw_views(headers@.take(i as int)).push(
            (headers@[i as int].0@, headers@[i as int].1@),
        ));
        i += 1;
    }
    assert(headers@.take(headers.len() as int) =~= headers@);
    out
}

impl Clone for UpstreamRequest {
    fn clone(&self) -> (r: Self)
        ensures
            r@ == self@,
    {
        UpstreamRequest {
            method: self.method.clone(),
            url: self.url.clone(),
            headers: clone_raw(&self.headers),
            body: match &self.body {
                Some(b) => Some(crate::text::copy_bytes(b.as_slice())),
                None => None,
            },
        }
    }
}

/// The response that is cached for an answer of the upstream.
fn build_response(plan: &Plan, res: UpstreamResponse) -> (r: Result<ResponseData, CodecError>)
    ensures
        match cached_response(plan@, res@) {
            Ok(response) => r matches Ok(rd) && rd@ == response,
            Err(fault) => r matches Err(e) && e.message_spec() == body_fault_text(fault),
        },
{
    let mut rd = ResponseData::new(res.status);
    rd.with_headers(res.headers.as_slice(), plan.response_headers.as_str());
    match rd.with_body(res.body.as_slice(), plan.json_mask.as_str()) {
        Ok(()) => Ok(rd),
        Err(e) => Err(e),
    }
}

/// The step of the winner once the upstream has answered.
fn on_upstream(app: &AppState, plan: Plan, res: UpstreamResponse) -> (r: (Flight, Action))
    ensures
        (r.0@, r.1@) == next(
            app@,
            FlightView::Executing(plan@),
            EventView::Upstream(Ok(res@)),
        ),
        r.1 matches Action::Store { value, .. } ==> value@.len() > 1 && (r.0 matches Flight::Storing(
            _,
            response,
        ) && parsed_response(value@) == Some(response@)),
{
    if !(200 <= res.status && res.status <= 500) {
        let key = plan.key;
        return (
            Flight::Cleaning(Reply::Mirrored { status: res.status, body: res.body }),
            Action::Delete { key },
        );
    }
    if res.body.len() > app.max_response_bytes {
        return abandon(plan.key, 500, "response body too large".to_string());
    }
    match build_response(&plan, res) {
        Ok(response) => {
            let value = response.encode();
            let key = plan.key.clone();
            (
                Flight::Storing(plan, response),
                Action::Store { key, value, ttl_ms: app.cache_ttl },
            )
        },
        Err(e) => abandon(plan.key, 500, e.message()),
    }
}

/// One step of a request in flight: the next state and the action to perform; see
/// [`next`]. What the winner stores is longer than one byte and is read back as
/// the response with which the winner answers.
pub fn proxy(app: &AppState, flight: Flight, event: Event) -> (r: (Flight, Action))
    ensures
        (r.0@, r.1@) == next(app@, flight@, event@),
        r.1 matches Action::Store { value, .. } ==> value@.len() > 1 && (r.0 matches Flight::Storing(
            _,
            response,
        ) && parsed_response(value@) == Some(response@)),
{
    match flight {
        Flight::Arrived => match event {
            Event::Request { inbound, now } => match plan_for(app, inbound, now) {
                Ok(plan) => {
                    let key = plan.key.clone();
                    (Flight::Obtaining(plan), Action::Obtain { key, ttl_ms: app.cache_ttl })
                },
                Err(reply) => (Flight::Done, Action::Reply(reply)),
            },
            _ => finish(500, "unexpected event".to_string()),
        },
        Flight::Obtaining(plan) => match event {
            Event::Obtained(Ok(true)) => {
                if is_safe_method(plan.request.method.as_str()) {
                    let request = plan.request.clone();
                    (Flight::Executing(plan), Action::Execute(request))
                } else {
                    (Flight::ReadingBody(plan), Action::ReadBody { limit: MAX_REQUEST_BODY_BYTES })
                }
            },
            Event::Obtained(Ok(false)) => {
                let interval: u64 = if app.poll_interval < MIN_POLL_INTERVAL_MS {
                    MIN_POLL_INTERVAL_MS
                } else {
                    app.poll_interval
                };
                (
                    Flight::Polling,
                    Action::PollGet {
                        key: plan.key,
                        poll_interval_ms: interval,
                        max_polls: app.cache_ttl / interval,
                    },
                )
            },
            Event::Obtained(Err(e)) => finish(500, e.message()),
            _ => finish(500, "unexpected event".to_string()),
        },
        Flight::Polling => match event {
            Event::Polled(Ok(bytes)) => match ResponseData::from_bytes(bytes.as_slice()) {
                Ok(response) => (Flight::Done, Action::Reply(Reply::Response(response))),
                Err(e) => finish(500, e.message()),
            },
            Event::Polled(Err(e)) => finish(e.status(), e.message()),
            _ => finish(500, "unexpected event".to_string()),
        },
        Flight::ReadingBody(plan) => match event {
            Event::Body(Ok(body)) => {
                let mut plan = plan;
                plan.request.body = Some(body);
                let request = plan.request.clone();
                (Flight::Executing(plan), Action::Execute(request))
            },
            Event::Body(Err(why)) => abandon(plan.key, 400, why),
            _ => abandon(plan.key, 500, "unexpected event".to_string()),
        },
        Flight::Executing(plan) => match event {
            Event::Upstream(Ok(res)) => on_upstream(app, plan, res),
            Event::Upstream(Err(why)) => abandon(plan.key, 500, why),
            _ => abandon(plan.key, 500, "unexpected event".to_string()),
        },
        Flight::Storing(plan, response) => match event {
            Event::Stored(Ok(true)) => (Flight::Done, Action::Reply(Reply::Response(response))),
            Event::Stored(Ok(false)) => abandon(plan.key, 500, "not obtained".to_string()),
            Event::Stored(Err(e)) => abandon(plan.key, 500, e.message()),
            _ => abandon(plan.key, 500, "unexpected event".to_string()),
        },
        Flight::Cleaning(reply) => (Flight::Done, Action::Reply(reply)),
        Flight::Done => finish(500, "unexpected event".to_string()),
    }
}

/// Whether a request in this state holds the cache entry of its key: it is the
/// winner, and has neither stored a response nor given the entry up yet.
pub open spec fn holds_entry(flight: FlightView) -> bool {
    flight is ReadingBody || flight is Executing || flight is Storing
}

/// The cache key of a request that holds its entry.
pub open spec fn held_key(flight: FlightView) -> Seq<char> {
    match flight {
        FlightView::ReadingBody(plan) => plan.key,
        FlightView::Executing(plan) => plan.key,
        FlightView::Storing(plan, _) => plan.key,
        _ => Seq::empty(),
    }
}

/// Only the winner calls the upstream: a request comes to hold the entry only
/// when `obtain` has returned `true` to it, and the upstream is called only by a
/// request that holds the entry after the step.
pub proof fn lemma_only_the_winner_calls_upstream(app: AppView, flight: FlightView, event: EventView)
    ensures
        holds_entry(next(app, flight, event).0) && !holds_entry(flight) ==> flight is Obtaining
            && event == EventView::Obtained(Ok(true)),
        next(app, flight, event).1 is Execute ==> next(app, flight, event).0 is Executing,
        next(app, flight, event).1 is Store ==> next(app, flight, event).0 is Storing,
{
}

/// The winner never keeps the entry through a failure: from a state that holds the
/// entry, a step leads to another such state, or to the answer with the stored
/// response after `set` has returned `true`, or to `delete` of the request's own
/// key, after which the request answers and is done.
pub proof fn lemma_winner_gives_up_entry(app: AppView, flight: FlightView, event: EventView)
    requires
        holds_entry(flight),
    ensures
        ({
            let (after, action) = next(app, flight, event);
            ||| holds_entry(after) && held_key(after) == held_key(flight)
            ||| (flight matches FlightView::Storing(_, response) && event == EventView::Stored(
                Ok(true),
            ) && after is Done && action == ActionView::Reply(ReplyView::Response(response)))
            ||| (after matches FlightView::Cleaning(reply) && action == (ActionView::Delete {
                key: held_key(flight),
            }) && forall|e: EventView| #[trigger]
                next(app, after, e) == (FlightView::Done, ActionView::Reply(reply)))
        }),
{
}

/// A failed upstream call clears the entry: whether the call itself fails or the
/// upstream answers with a status outside 200 to 500, the winner deletes its key.
pub proof fn lemma_upstream_failure_deletes(
    app: AppView,
    plan: PlanView,
    outcome: Result<UpstreamResponseView, Seq<char>>,
)
    requires
        outcome matches Ok(res) ==> !is_cacheable(res.status),
    ensures
        next(app, FlightView::Executing(plan), EventView::Upstream(outcome)).1 == (
        ActionView::Delete { key: plan.key }),
        outcome matches Ok(res) ==> next(
            app,
            FlightView::Executing(plan),
            EventView::Upstream(outcome),
        ).0 == FlightView::Cleaning(ReplyView::Mirrored { status: res.status, body: res.body }),
{
}

/// A loser answers with what the winner answers: where the stored bytes are read
/// back as the winner's response, the request that polls them answers with that
/// response, as the winner does once `set` has returned `true`.
pub proof fn lemma_replay_is_the_stored_response(
    app: AppView,
    plan: PlanView,
    response: ResponseView,
    stored: Seq<u8>,
)
    requires
        parsed_response(stored) == Some(response),
    ensures
        next(app, FlightView::Polling, EventView::Polled(Ok(stored))).1 == ActionView::Reply(
            ReplyView::Response(response),
        ),
        next(app, FlightView::Storing(plan, response), EventView::Stored(Ok(true))).1
            == ActionView::Reply(ReplyView::Response(response)),
{
}

/// A loser whose entry has disappeared, or has not turned into a response in
/// time, answers with a failure and is done: 504 for the timeout, else 500.
pub proof fn lemma_failed_poll_is_answered(app: AppView, error: CacheErrorView)
    ensures
        next(app, FlightView::Polling, EventView::Polled(Err(error))).0 is Done,
        next(app, FlightView::Polling, EventView::Polled(Err(error))).1 == ActionView::Reply(
            ReplyView::Failure {
                status: if error is Timeout {
                    504
                } else {
                    500
                },
                message: cache_error_text(error),
            },
        ),
{
}

/// Single flight: of several requests with one cache key that ask for the entry
/// while none is visible, all before the entry of the first expires, the first
/// comes to hold the entry, and with it the right to call the upstream, and every
/// other request polls.
pub proof fn lemma_single_flight(
    app: AppView,
    cache: CacheModel,
    plans: Seq<PlanView>,
    times: Seq<u64>,
)
    requires
        plans.len() == times.len(),
        times.len() >= 1,
        forall|i: int| 0 <= i < plans.len() ==> (#[trigger] plans[i]).key == plans[0].key,
        !visible(cache, plans[0].key, times[0]),
        forall|i: int| 0 <= i < times.len() ==> #[trigger] times[i] < expiry(times[0], app.cache_ttl),
    ensures
        ({
            let won = obtain_results(cache, plans[0].key, app.cache_ttl, times);
            &&& won.len() == plans.len()
            &&& holds_entry(
                next(app, FlightView::Obtaining(plans[0]), EventView::Obtained(Ok(won[0]))).0,
            )
            &&& forall|i: int|
                1 <= i < plans.len() ==> next(
                    app,
                    FlightView::Obtaining(#[trigger] plans[i]),
                    EventView::Obtained(Ok(won[i])),
                ).0 is Polling
        }),
{
    lemma_single_winner(cache, plans[0].key, app.cache_ttl, times);
    let won = obtain_results(cache, plans[0].key, app.cache_ttl, times);
    assert forall|i: int| 1 <= i < plans.len() implies next(
        app,
        FlightView::Obtaining(#[trigger] plans[i]),
        EventView::Obtained(Ok(won[i])),
    ).0 is Polling by {
        assert(!won[i]);
    }
}

/// Safety under failure: where the upstream call of the winner fails, the winner
/// deletes the entry of its key, and once that is done the next request with the
/// same key wins, whenever it comes.
pub proof fn lemma_failure_frees_the_key(
    app: AppView,
    cache: CacheModel,
    plan: PlanView,
    outcome: Result<UpstreamResponseView, Seq<char>>,
    retry: PlanView,
    now: u64,
)
    requires
        outcome matches Ok(res) ==> !is_cacheable(res.status),
        retry.key == plan.key,
    ensures
        next(app, FlightView::Executing(plan), EventView::Upstream(outcome)).1 == (
        ActionView::Delete { key: plan.key }),
        obtained(deleted(cache, plan.key), retry.key, app.cache_ttl, now).1,
        holds_entry(next(app, FlightView::Obtaining(retry), EventView::Obtained(Ok(true))).0),
{
}

} // verus!
