//! A downstream proxy ("agent") and the requests that are sent through it.

use vstd::prelude::*;
use vstd::string::*;
use crate::text::{copy_bytes, starts_with, str_eq};

verus! {

/// A header of an outgoing request or of its response.
#[derive(Debug)]
pub struct HttpHeader {
    pub name: String,
    pub value: String,
}

/// The mathematical value of a header.
pub struct HttpHeaderView {
    pub name: Seq<char>,
    pub value: Seq<char>,
}

impl View for HttpHeader {
    type V = HttpHeaderView;

    open spec fn view(&self) -> HttpHeaderView {
        HttpHeaderView { name: self.name@, value: self.value@ }
    }
}

impl Clone for HttpHeader {
    fn clone(&self) -> (r: Self)
        ensures
            r@ == self@,
    {
        HttpHeader { name: self.name.clone(), value: self.value.clone() }
    }
}

/// The values of a list of headers.
pub open spec fn header_views(headers: Seq<HttpHeader>) -> Seq<HttpHeaderView> {
    headers.map_values(|h: HttpHeader| h@)
}

/// The method of an outgoing request.
#[derive(Clone, Copy, Debug, PartialEq, Eq, Structural)]
pub enum HttpMethod {
    GET,
    POST,
    HEAD,
}

/// An outgoing request.
#[derive(Debug)]
pub struct HttpRequest {
    pub url: String,
    pub max_response_bytes: Option<u64>,
    pub method: HttpMethod,
    pub headers: Vec<HttpHeader>,
    pub body: Option<Vec<u8>>,
    /// Name of the query method that normalises the response, if any.
    pub transform: Option<String>,
}

/// The mathematical value of an outgoing request.
pub struct HttpRequestView {
    pub url: Seq<char>,
    pub max_response_bytes: Option<u64>,
    pub method: HttpMethod,
    pub headers: Seq<HttpHeaderView>,
    pub body: Option<Seq<u8>>,
    pub transform: Option<Seq<char>>,
}

impl View for HttpRequest {
    type V = HttpRequestView;

    open spec fn view(&self) -> HttpRequestView {
        HttpRequestView {
            url: self.url@,
            max_response_bytes: self.max_response_bytes,
            method: self.method,
            headers: header_views(self.headers@),
            body: match self.body {
                Some(b) => Some(b@),
                None => None,
            },
            transform: match self.transform {
                Some(t) => Some(t@),
                None => None,
            },
        }
    }
}

/// A copy of a list of headers.
pub fn clone_headers(headers: &Vec<HttpHeader>) -> (r: Vec<HttpHeader>)
    ensures
        header_views(r@) == header_views(headers@),
{
    let mut out: Vec<HttpHeader> = Vec::new();
    let mut i: usize = 0;
    while i < headers.len()
        invariant
            i <= headers.len(),
            header_views(out@) == header_views(headers@.take(i as int)),
        decreases headers.len() - i,
    {
        let ghost before = header_views(out@);
        let h = headers[i].clone();
        assert(h@ == headers@[i as int]@);
        out.push(h);
        assert(header_views(out@) =~= before.push(h@));
        assert(header_views(headers@.take(i + 1)) =~= header_views(headers@.take(i as int)).push(
            headers@[i as int]@,
        ));
        i += 1;
    }
    assert(headers@.take(headers.len() as int) =~= headers@);
    out
}

impl Clone for HttpRequest {
    fn clone(&self) -> (r: Self)
        ensures
            r@ == self@,
    {
        HttpRequest {
            url: self.url.clone(),
            max_response_bytes: self.max_response_bytes,
            method: self.method,
            headers: clone_headers(&self.headers),
            body: match &self.body {
                Some(b) => Some(copy_bytes(b.as_slice())),
                None => None,
            },
            transform: match &self.transform {
                Some(t) => Some(t.clone()),
                None => None,
            },
        }
    }
}

/// The response to an outgoing request.
#[derive(Debug)]
pub struct HttpResponse {
    pub status: u64,
    pub headers: Vec<HttpHeader>,
    pub body: Vec<u8>,
}

/// The mathematical value of a response.
pub struct HttpResponseView {
    pub status: u64,
    pub headers: Seq<HttpHeaderView>,
    pub body: Seq<u8>,
}

impl View for HttpResponse {
    type V = HttpResponseView;

    open spec fn view(&self) -> HttpResponseView {
        HttpResponseView {
            status: self.status,
            headers: header_views(self.headers@),
            body: self.body@,
        }
    }
}

impl Clone for HttpResponse {
    fn clone(&self) -> (r: Self)
        ensures
            r@ == self@,
    {
        HttpResponse {
            status: self.status,
            headers: clone_headers(&self.headers),
            body: copy_bytes(self.body.as_slice()),
        }
    }
}

/// Largest status with which a response counts as an answer of the upstream.
pub const MAX_ANSWER_STATUS: u64 = 500;

/// A downstream proxy. Its name is both the prefix that separates its idempotency
/// keys from those of other agents and the subject of its bearer token.
#[derive(Debug)]
pub struct Agent {
    pub name: String,
    pub endpoint: String,
    pub max_cycles: u64,
    pub proxy_token: Option<String>,
}

/// The mathematical value of an agent.
pub struct AgentView {
    pub name: Seq<char>,
    pub endpoint: Seq<char>,
    pub max_cycles: u64,
    pub proxy_token: Option<Seq<char>>,
}

impl View for Agent {
    type V = AgentView;

    open spec fn view(&self) -> AgentView {
        AgentView {
            name: self.name@,
            endpoint: self.endpoint@,
            max_cycles: self.max_cycles,
            proxy_token: match self.proxy_token {
                Some(t) => Some(t@),
                None => None,
            },
        }
    }
}

impl Clone for Agent {
    fn clone(&self) -> (r: Self)
        ensures
            r@ == self@,
    {
        Agent {
            name: self.name.clone(),
            endpoint: self.endpoint.clone(),
            max_cycles: self.max_cycles,
            proxy_token: match &self.proxy_token {
                Some(t) => Some(t.clone()),
                None => None,
            },
        }
    }
}

/// The values of a list of agents.
pub open spec fn agent_views(agents: Seq<Agent>) -> Seq<AgentView> {
    agents.map_values(|a: Agent| a@)
}

/// Why a request cannot be sent through an agent.
#[derive(Debug)]
pub enum RequestError {
    /// The request carries no `idempotency-key` header.
    MissingIdempotencyKey,
    /// The URL of the request is not a URI; the text says why.
    InvalidUrl(String),
    /// The URL of the request names no host.
    EmptyHost,
}

/// The mathematical value of a [`RequestError`].
pub enum RequestErrorView {
    MissingIdempotencyKey,
    InvalidUrl(Seq<char>),
    EmptyHost,
}

impl View for RequestError {
    type V = RequestErrorView;

    open spec fn view(&self) -> RequestErrorView {
        match self {
            RequestError::MissingIdempotencyKey => RequestErrorView::MissingIdempotencyKey,
            RequestError::InvalidUrl(why) => RequestErrorView::InvalidUrl(why@),
            RequestError::EmptyHost => RequestErrorView::EmptyHost,
        }
    }
}

/// The host and the path with query of a URI.
pub struct UriParts {
    pub host: Option<Seq<char>>,
    pub path_and_query: Option<Seq<char>>,
}

/// What `http::Uri` reads from `url`: its host and its path with query, or the text
/// of the error with which it refuses the URL.
pub uninterp spec fn uri_parsing(url: Seq<char>) -> Result<UriParts, Seq<char>>;

/// `str::parse::<http::Uri>`, then `Uri::host` and `Uri::path_and_query`: the parts
/// of the URI, or the text of the parse error.
#[verifier::external_body]
fn parse_uri(url: &str) -> (r: Result<(Option<String>, Option<String>), String>)
    ensures
        match uri_parsing(url@) {
            Ok(parts) => r matches Ok(p) && parts.host == (match p.0 {
                Some(h) => Some(h@),
                None => None,
            }) && parts.path_and_query == (match p.1 {
                Some(q) => Some(q@),
                None => None,
            }),
            Err(why) => r matches Err(e) && e@ == why,
        },
{
    match url.parse::<http::Uri>() {
        Ok(uri) => Ok(
            (
                uri.host().map(|h| h.to_string()),
                uri.path_and_query().map(|p| p.as_str().to_string()),
            ),
        ),
        Err(err) => Err(err.to_string()),
    }
}

/// Whether one of the headers has exactly this name.
pub open spec fn has_header(headers: Seq<HttpHeaderView>, name: Seq<char>) -> bool {
    exists|i: int| 0 <= i < headers.len() && (#[trigger] headers[i]).name == name
}

/// The request as an agent sends it, or the reason why it cannot be sent.
///
/// A symbolic URL (`URL_...`) is appended to the agent's endpoint. Any other URL
/// must be a URI with a host: the host travels in `x-forwarded-host`, the path and
/// query are appended to the endpoint. A `response-headers: date` header is added
/// unless the request has one, and the agent's token, if it has one, travels in
/// `proxy-authorization`.
pub open spec fn built_request(agent: AgentView, req: HttpRequestView) -> Result<
    HttpRequestView,
    RequestErrorView,
> {
    if !has_header(req.headers, "idempotency-key"@) {
        Err(RequestErrorView::MissingIdempotencyKey)
    } else {
        match routed(agent, req) {
            Err(e) => Err(e),
            Ok(routed) => {
                let with_filter = if has_header(routed.headers, "response-headers"@) {
                    routed.headers
                } else {
                    routed.headers.push(
                        HttpHeaderView { name: "response-headers"@, value: "date"@ },
                    )
                };
                let with_token = match agent.proxy_token {
                    Some(token) => with_filter.push(
                        HttpHeaderView { name: "proxy-authorization"@, value: "Bearer "@ + token },
                    ),
                    None => with_filter,
                };
                Ok(
                    HttpRequestView {
                        headers: with_token,
                        transform: Some("inner_transform_response"@),
                        ..routed
                    },
                )
            },
        }
    }
}

/// The first step of [`built_request`]: the URL rewritten to go through the agent.
pub open spec fn routed(agent: AgentView, req: HttpRequestView) -> Result<
    HttpRequestView,
    RequestErrorView,
> {
    if "URL_"@.is_prefix_of(req.url) {
        Ok(HttpRequestView { url: agent.endpoint + "/"@ + req.url, ..req })
    } else {
        match uri_parsing(req.url) {
            Err(why) => Err(RequestErrorView::InvalidUrl(why)),
            Ok(parts) => match parts.host {
                None => Err(RequestErrorView::EmptyHost),
                Some(host) => Ok(
                    HttpRequestView {
                        url: agent.endpoint + (match parts.path_and_query {
                            Some(q) => q,
                            None => "/"@,
                        }),
                        headers: req.headers.push(
                            HttpHeaderView { name: "x-forwarded-host"@, value: host },
                        ),
                        ..req
                    },
                ),
            },
        }
    }
}

/// Whether one of the headers has exactly this name.
pub fn find_header(headers: &Vec<HttpHeader>, name: &str) -> (r: bool)
    ensures
        r == has_header(header_views(headers@), name@),
{
    let mut i: usize = 0;
    while i < headers.len()
        invariant
            i <= headers.len(),
            forall|j: int| 0 <= j < i ==> (#[trigger] header_views(headers@)[j]).name != name@,
        decreases headers.len() - i,
    {
        assert(header_views(headers@)[i as int] == headers[i as int]@);
        if str_eq(headers[i].name.as_str(), name) {
            return true;
        }
        i += 1;
    }
    false
}

/// The text that describes an error for a request to `url`.
pub open spec fn error_text(error: RequestErrorView, url: Seq<char>) -> Seq<char> {
    match error {
        RequestErrorView::MissingIdempotencyKey => "idempotency-key header is missing"@,
        RequestErrorView::InvalidUrl(why) => "parse url "@ + url + " error: "@ + why,
        RequestErrorView::EmptyHost => "url host is empty: "@ + url,
    }
}

impl RequestError {
    /// The text that describes the error for a request to `url`.
    pub fn message(&self, url: &str) -> (s: String)
        ensures
            s@ == error_text(self@, url@),
    {
        match self {
            RequestError::MissingIdempotencyKey => "idempotency-key header is missing".to_string(),
            RequestError::InvalidUrl(why) => {
                let mut s = String::from_str("parse url ");
                s.append(url);
                s.append(" error: ");
                s.append(why.as_str());
                s
            },
            RequestError::EmptyHost => {
                let mut s = String::from_str("url host is empty: ");
                s.append(url);
                s
            },
        }
    }
}

impl Agent {
    /// Rewrites `req` so that it goes through this agent; see [`built_request`].
    /// A request that cannot be sent is left as it was.
    pub fn build_request(&self, req: &mut HttpRequest) -> (r: Result<(), RequestError>)
        ensures
            match built_request(self@, old(req)@) {
                Ok(built) => r is Ok && final(req)@ == built,
                Err(e) => r matches Err(err) && err@ == e && final(req)@ == old(req)@,
            },
    {
        if !find_header(&req.headers, "idempotency-key") {
            return Err(RequestError::MissingIdempotencyKey);
        }
        let ghost before = req@;
        if starts_with(req.url.as_str(), "URL_") {
            let mut url = self.endpoint.clone();
            url.append("/");
            url.append(req.url.as_str());
            req.url = url;
        } else {
            let (host, path_and_query) = match parse_uri(req.url.as_str()) {
                Ok(parts) => parts,
                Err(why) => { return Err(RequestError::InvalidUrl(why)); },
            };
            let host = match host {
                Some(host) => host,
                None => { return Err(RequestError::EmptyHost); },
            };
            let ghost headers = header_views(req.headers@);
            req.headers.push(HttpHeader { name: "x-forwarded-host".to_string(), value: host });
            assert(header_views(req.headers@) =~= headers.push(
                HttpHeaderView { name: "x-forwarded-host"@, value: host@ },
            ));
            let mut url = self.endpoint.clone();
            match path_and_query {
                Some(q) => url.append(q.as_str()),
                None => url.append("/"),
            }
            req.url = url;
        }
        assert(Ok::<HttpRequestView, RequestErrorView>(req@) == routed(self@, before));
        if !find_header(&req.headers, "response-headers") {
            let ghost headers = header_views(req.headers@);
            req.headers.push(
                HttpHeader { name: "response-headers".to_string(), value: "date".to_string() },
            );
            assert(header_views(req.headers@) =~= headers.push(
                HttpHeaderView { name: "response-headers"@, value: "date"@ },
            ));
        }
        match &self.proxy_token {
            Some(token) => {
                let ghost headers = header_views(req.headers@);
                let mut value = String::from_str("Bearer ");
                value.append(token.as_str());
                req.headers.push(HttpHeader { name: "proxy-authorization".to_string(), value });
                assert(header_views(req.headers@) =~= headers.push(
                    HttpHeaderView { name: "proxy-authorization"@, value: "Bearer "@ + token@ },
                ));
            },
            None => {},
        }
        req.transform = Some("inner_transform_response".to_string());
        Ok(())
    }

    /// The answer to a caller whose request cannot be sent: status 400 with the
    /// error's text as the body.
    pub fn refusal(error: &RequestError, url: &str) -> (r: HttpResponse)
        ensures
            r@.status == 400,
            r@.headers.len() == 0,
            r@.body == vstd::utf8::encode_utf8(error_text(error@, url@)),
    {
        let text = error.message(url);
        let r = HttpResponse {
            status: 400,
            headers: Vec::new(),
            body: text.as_str().as_bytes_vec(),
        };
        assert(header_views(r.headers@) =~= Seq::<HttpHeaderView>::empty());
        r
    }
}

/// Whether a response counts as an answer of the upstream: its status is at most 500.
pub open spec fn is_answer(response: HttpResponseView) -> bool {
    response.status <= MAX_ANSWER_STATUS
}

/// Sorts the response of an agent: an answer is `Ok`, anything else `Err`.
pub fn settle(response: HttpResponse) -> (r: Result<HttpResponse, HttpResponse>)
    ensures
        is_answer(response@) ==> (r matches Ok(res) && res@ == response@),
        !is_answer(response@) ==> (r matches Err(res) && res@ == response@),
{
    if response.status <= MAX_ANSWER_STATUS {
        Ok(response)
    } else {
        Err(response)
    }
}

/// The response that stands for a call that could not be made: status 503 with the
/// given text as the body.
pub fn unavailable(text: &str) -> (r: HttpResponse)
    ensures
        r@.status == 503,
        r@.headers.len() == 0,
        r@.body == vstd::utf8::encode_utf8(text@),
{
    let r = HttpResponse { status: 503, headers: Vec::new(), body: text.as_bytes_vec() };
    assert(header_views(r.headers@) =~= Seq::<HttpHeaderView>::empty());
    r
}

/// The response without its headers, which may differ from one replica to the next.
pub fn inner_transform_response(response: HttpResponse) -> (r: HttpResponse)
    ensures
        r@.status == response@.status,
        r@.body == response@.body,
        r@.headers.len() == 0,
{
    let r = HttpResponse { status: response.status, headers: Vec::new(), body: response.body };
    assert(header_views(r.headers@) =~= Seq::<HttpHeaderView>::empty());
    r
}

} // verus!
