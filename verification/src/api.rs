//! Replicated dispatch: one request sent through several agents, and their
//! answers reconciled into one.
//!
//! Three strategies are offered. *Any, in sequence* asks the agents in their fixed
//! order until one answers. *Any, in parallel* asks all at once and takes the
//! first answer. *All, in parallel* asks all at once and demands that all answer
//! alike. Each call is paid for in cycles, in phases: the ingress message, the
//! requests that go out, the response that comes back. Like the dispatch engine
//! this is a machine from a state and an event to the next state and an action;
//! whoever drives it accepts the cycles and makes the calls.

use vstd::prelude::*;
use vstd::string::*;
use crate::agent::{
    agent_views, built_request, error_text, header_views, Agent, AgentView, HttpHeader,
    HttpHeaderView, HttpRequest, HttpRequestView, HttpResponse, HttpResponseView,
};
use crate::cycles::{at_most, Calculator};
use crate::text::{bytes_eq, str_eq};

verus! {

/// Bytes of a response that are paid for where the request names no limit.
pub const DEFAULT_MAX_RESPONSE_BYTES: u64 = 10_240;

/// How the agents are asked.
#[derive(Clone, Copy, Debug, PartialEq, Eq, Structural)]
pub enum Strategy {
    /// One after the other, until one answers.
    AnySequential,
    /// All at once; the first answer counts.
    AnyParallel,
    /// All at once; all must answer alike.
    AllParallelConsistent,
}

/// The values of a list of responses.
pub open spec fn response_views(list: Seq<HttpResponse>) -> Seq<HttpResponseView> {
    list.map_values(|r: HttpResponse| r@)
}

/// The bytes that `ciborium::into_writer` writes for a list of responses, each as
/// the `HttpResponse` of `ic_cdk` with the same status, headers and body.
pub uninterp spec fn responses_encoding(list: Seq<HttpResponseView>) -> Seq<u8>;

/// `ciborium::into_writer` on the list of `ic_cdk` responses with the same
/// statuses, headers and bodies.
#[verifier::external_body]
fn encode_responses(list: &Vec<HttpResponse>) -> (out: Vec<u8>)
    ensures
        out@ == responses_encoding(response_views(list@)),
{
    let list: Vec<ic_cdk::api::management_canister::http_request::HttpResponse> = list.iter().map(
        |r| ic_cdk::api::management_canister::http_request::HttpResponse {
            status: r.status.into(),
            headers: r.headers.iter().map(
                |h| ic_cdk::api::management_canister::http_request::HttpHeader {
                    name: h.name.clone(),
                    value: h.value.clone(),
                },
            ).collect(),
            body: r.body.clone(),
        },
    ).collect();
    let mut out = Vec::new();
    ciborium::into_writer(&list, &mut out).expect("a vector takes every write");
    out
}

/// A response of the service itself: a status and a text, no headers.
pub open spec fn notice(status: u64, text: Seq<char>) -> HttpResponseView {
    HttpResponseView { status, headers: Seq::empty(), body: vstd::utf8::encode_utf8(text) }
}

/// A response of the service itself.
pub fn make_notice(status: u64, text: &str) -> (r: HttpResponse)
    ensures
        r@ == notice(status, text@),
{
    let r = HttpResponse { status, headers: Vec::new(), body: text.as_bytes_vec() };
    assert(header_views(r.headers@) =~= Seq::<HttpHeaderView>::empty());
    r
}

/// Whether two lists of headers are the same.
fn same_headers(a: &Vec<HttpHeader>, b: &Vec<HttpHeader>) -> (r: bool)
    ensures
        r == (header_views(a@) == header_views(b@)),
{
    if a.len() != b.len() {
        assert(header_views(a@).len() != header_views(b@).len());
        return false;
    }
    let mut i: usize = 0;
    while i < a.len()
        invariant
            a.len() == b.len(),
            i <= a.len(),
            forall|j: int| 0 <= j < i ==> header_views(a@)[j] == header_views(b@)[j],
        decreases a.len() - i,
    {
        if !str_eq(a[i].name.as_str(), b[i].name.as_str()) || !str_eq(
            a[i].value.as_str(),
            b[i].value.as_str(),
        ) {
            assert(header_views(a@)[i as int] != header_views(b@)[i as int]);
            return false;
        }
        i += 1;
    }
    assert(header_views(a@) =~= header_views(b@));
    true
}

/// Whether two responses are the same in status, headers and body.
pub fn same_response(a: &HttpResponse, b: &HttpResponse) -> (r: bool)
    ensures
        r == (a@ == b@),
{
    a.status == b.status && same_headers(&a.headers, &b.headers) && bytes_eq(
        a.body.as_slice(),
        b.body.as_slice(),
    )
}

/// The responses that differ from `base`, each once, in the order in which they
/// first occur.
pub open spec fn divergent(results: Seq<HttpResponseView>, base: HttpResponseView) -> Seq<
    HttpResponseView,
>
    decreases results.len(),
{
    if results.len() == 0 {
        Seq::empty()
    } else {
        let before = divergent(results.drop_last(), base);
        if results.last() == base || before.contains(results.last()) {
            before
        } else {
            before.push(results.last())
        }
    }
}

/// The one answer for the answers of all agents: their common response where all
/// are alike; else a response with status 500 whose body is the binary form of
/// the list of the distinct responses, the first agent's last.
pub open spec fn reconciled(results: Seq<HttpResponseView>) -> HttpResponseView {
    if results.len() == 0 {
        notice(503, "no agents available"@)
    } else {
        let others = divergent(results, results[0]);
        if others.len() == 0 {
            results[0]
        } else {
            HttpResponseView {
                status: 500,
                headers: Seq::empty(),
                body: responses_encoding(others.push(results[0])),
            }
        }
    }
}

/// Whether a list holds a response with this value.
fn holds(list: &Vec<HttpResponse>, item: &HttpResponse) -> (r: bool)
    ensures
        r == response_views(list@).contains(item@),
{
    let mut i: usize = 0;
    while i < list.len()
        invariant
            i <= list.len(),
            forall|j: int| 0 <= j < i ==> response_views(list@)[j] != item@,
        decreases list.len() - i,
    {
        if same_response(&list[i], item) {
            assert(response_views(list@)[i as int] == item@);
            return true;
        }
        i += 1;
    }
    false
}

/// The one answer for the answers of all agents; see [`reconciled`].
pub fn reconcile(results: Vec<HttpResponse>) -> (r: HttpResponse)
    ensures
        r@ == reconciled(response_views(results@)),
{
    if results.len() == 0 {
        return make_notice(503, "no agents available");
    }
    let ghost all = response_views(results@);
    let base = results[0].clone();
    let mut others: Vec<HttpResponse> = Vec::new();
    let mut i: usize = 0;
    assert(response_views(others@) =~= divergent(all.take(0), base@));
    while i < results.len()
        invariant
            i <= results.len(),
            all == response_views(results@),
            base@ == all[0],
            response_views(others@) == divergent(all.take(i as int), base@),
        decreases results.len() - i,
    {
        proof {
            assert(all.take(i + 1).drop_last() =~= all.take(i as int));
            assert(all.take(i + 1).last() == results@[i as int]@);
        }
        if !same_response(&results[i], &base) && !holds(&others, &results[i]) {
            let ghost before = response_views(others@);
            let item = results[i].clone();
            others.push(item);
            assert(response_views(others@) =~= before.push(results@[i as int]@));
        }
        i += 1;
    }
    assert(all.take(results.len() as int) =~= all);
    if others.len() == 0 {
        return base;
    }
    let ghost before = response_views(others@);
    others.push(base);
    assert(response_views(others@) =~= before.push(all[0]));
    let r = HttpResponse { status: 500, headers: Vec::new(), body: encode_responses(&others) };
    assert(header_views(r.headers@) =~= Seq::<HttpHeaderView>::empty());
    r
}

/// A response is listed as divergent exactly if it occurs among the results and
/// differs from the base.
proof fn lemma_divergent_contains(
    results: Seq<HttpResponseView>,
    base: HttpResponseView,
    r: HttpResponseView,
)
    ensures
        divergent(results, base).contains(r) <==> (results.contains(r) && r != base),
    decreases results.len(),
{
    let d = divergent(results, base);
    if results.len() > 0 {
        let head = results.drop_last();
        let before = divergent(head, base);
        let x = results.last();
        lemma_divergent_contains(head, base, r);
        if d.contains(r) {
            let at = choose|at: int| 0 <= at < d.len() && d[at] == r;
            if at < before.len() {
                assert(before[at] == r);
                assert(before.contains(r));
                assert(head.contains(r));
                let j = choose|j: int| 0 <= j < head.len() && head[j] == r;
                assert(results[j] == r);
                assert(results.contains(r));
            } else {
                assert(r == x);
                assert(results[results.len() - 1] == r);
                assert(results.contains(r));
            }
        }
        if results.contains(r) && r != base {
            let j = choose|j: int| 0 <= j < results.len() && results[j] == r;
            if j < head.len() {
                assert(head[j] == r);
                assert(head.contains(r));
                assert(before.contains(r));
                let at = choose|at: int| 0 <= at < before.len() && before[at] == r;
                assert(d[at] == r);
                assert(d.contains(r));
            } else {
                assert(r == x);
                if before.contains(x) {
                    let at = choose|at: int| 0 <= at < before.len() && before[at] == x;
                    assert(d[at] == r);
                } else {
                    assert(d[d.len() - 1] == x);
                }
                assert(d.contains(r));
            }
        }
    } else {
        if results.contains(r) {
            let j = choose|j: int| 0 <= j < results.len() && results[j] == r;
        }
        if d.contains(r) {
            let j = choose|j: int| 0 <= j < d.len() && d[j] == r;
        }
    }
}

/// No response is listed twice as divergent.
proof fn lemma_divergent_distinct(results: Seq<HttpResponseView>, base: HttpResponseView)
    ensures
        divergent(results, base).no_duplicates(),
    decreases results.len(),
{
    let d = divergent(results, base);
    if results.len() > 0 {
        let head = results.drop_last();
        let before = divergent(head, base);
        let x = results.last();
        lemma_divergent_distinct(head, base);
        if !(x == base || before.contains(x)) {
            assert forall|a: int, b: int| 0 <= a < b < d.len() implies d[a] != d[b] by {
                if b == d.len() - 1 {
                    assert(before[a] == d[a]);
                    assert(before.contains(d[a]));
                } else {
                    assert(before[a] != before[b]);
                }
            }
        }
    }
}

/// Agents that answer alike get their common answer; agents that do not get a
/// response with status 500 whose body is the binary form of a list of at least
/// two responses, no two of them equal: the first agent's, and every response
/// that differs from it.
pub proof fn lemma_reconciled(results: Seq<HttpResponseView>)
    requires
        results.len() >= 1,
    ensures
        (forall|i: int| 0 <= i < results.len() ==> #[trigger] results[i] == results[0])
            ==> reconciled(results) == results[0],
        (exists|i: int| 0 <= i < results.len() && #[trigger] results[i] != results[0]) ==> {
            let listed = divergent(results, results[0]).push(results[0]);
            &&& reconciled(results).status == 500
            &&& reconciled(results).body == responses_encoding(listed)
            &&& listed.len() >= 2
            &&& listed.no_duplicates()
            &&& forall|r: HttpResponseView| #[trigger] listed.contains(r) <==> results.contains(r)
        },
{
    let base = results[0];
    let d = divergent(results, base);
    lemma_divergent_distinct(results, base);
    if forall|i: int| 0 <= i < results.len() ==> #[trigger] results[i] == results[0] {
        if d.len() > 0 {
            assert(d.contains(d[0]));
            lemma_divergent_contains(results, base, d[0]);
            let j = choose|j: int| 0 <= j < results.len() && results[j] == d[0];
            assert(results[j] == base);
        }
    }
    if exists|i: int| 0 <= i < results.len() && #[trigger] results[i] != results[0] {
        let i = choose|i: int| 0 <= i < results.len() && #[trigger] results[i] != results[0];
        assert(results.contains(results[i]));
        lemma_divergent_contains(results, base, results[i]);
        assert(d.contains(results[i]));
        let listed = d.push(base);
        assert(d.len() >= 1);
        assert(listed.no_duplicates()) by {
            assert forall|a: int, b: int| 0 <= a < b < listed.len() implies listed[a]
                != listed[b] by {
                if b == listed.len() - 1 {
                    assert(d.contains(d[a]));
                    lemma_divergent_contains(results, base, d[a]);
                } else {
                    assert(d[a] != d[b]);
                }
            }
        }
        assert forall|r: HttpResponseView| #[trigger] listed.contains(r) <==> results.contains(
            r,
        ) by {
            lemma_divergent_contains(results, base, r);
            if listed.contains(r) {
                let at = choose|at: int| 0 <= at < listed.len() && listed[at] == r;
                if at < d.len() {
                    assert(d[at] == r);
                    assert(d.contains(r));
                } else {
                    assert(results[0] == r);
                    assert(results.contains(r));
                }
            }
            if results.contains(r) {
                if r == base {
                    assert(listed[listed.len() - 1] == r);
                } else {
                    assert(d.contains(r));
                    let at = choose|at: int| 0 <= at < d.len() && d[at] == r;
                    assert(listed[at] == r);
                }
                assert(listed.contains(r));
            }
        }
    }
}

/// `n`, or the largest `usize` where `n` exceeds it.
pub open spec fn clamp_usize(n: nat) -> usize {
    at_most(n, usize::MAX as nat) as usize
}

/// `n`, or the largest 128-bit integer where `n` exceeds it.
pub open spec fn clamp_u128(n: nat) -> u128 {
    at_most(n, u128::MAX as nat) as u128
}

/// The bytes of a response that a request is charged for in advance: its own
/// limit, or 10 KiB where it names none.
pub open spec fn expected_response_bytes(req: HttpRequestView) -> nat {
    match req.max_response_bytes {
        Some(n) => n as nat,
        None => DEFAULT_MAX_RESPONSE_BYTES as nat,
    }
}

/// The price of a request sent through `fan_out` agents, in advance: the ingress
/// message of `ingress_bytes` bytes, the requests, and the responses at their
/// expected size.
pub open spec fn quoted_cost(
    calc: Calculator,
    ingress_bytes: usize,
    req: HttpRequestView,
    fan_out: usize,
) -> nat {
    calc.spec_ingress_cost(ingress_bytes as nat) + calc.spec_http_outcall_request_cost(
        clamp_usize(calc.spec_request_bytes(req)) as nat,
        fan_out as nat,
    ) + calc.spec_http_outcall_response_cost(
        clamp_usize(expected_response_bytes(req)) as nat,
        fan_out as nat,
    )
}

/// The price of a request sent through `fan_out` agents, in advance.
pub fn parallel_call_cost(calc: &Calculator, ingress_bytes: usize, req: &HttpRequest, fan_out: usize) -> (cost:
    u128)
    ensures
        cost == clamp_u128(quoted_cost(*calc, ingress_bytes, req@, fan_out)),
{
    let expected: u64 = match req.max_response_bytes {
        Some(n) => n,
        None => DEFAULT_MAX_RESPONSE_BYTES,
    };
    let expected: usize = if expected > usize::MAX as u64 {
        usize::MAX
    } else {
        expected as usize
    };
    let ingress = calc.ingress_cost(ingress_bytes);
    let request = calc.http_outcall_request_cost(calc.count_request_bytes(req), fan_out);
    let response = calc.http_outcall_response_cost(expected, fan_out);
    ingress.saturating_add(request).saturating_add(response)
}

/// The price of a request sent through one agent, in advance.
pub fn proxy_http_request_cost(calc: &Calculator, ingress_bytes: usize, req: &HttpRequest) -> (cost:
    u128)
    ensures
        cost == clamp_u128(quoted_cost(*calc, ingress_bytes, req@, 1)),
{
    parallel_call_cost(calc, ingress_bytes, req, 1)
}

/// What a relayed request has settled.
#[derive(Debug)]
pub struct Job {
    pub calculator: Calculator,
    pub agents: Vec<Agent>,
    pub request: HttpRequest,
    /// The bytes that the request is charged for.
    pub request_bytes: usize,
}

/// The mathematical value of a [`Job`].
pub struct JobView {
    pub calculator: Calculator,
    pub agents: Seq<AgentView>,
    pub request: HttpRequestView,
    pub request_bytes: usize,
}

impl View for Job {
    type V = JobView;

    open spec fn view(&self) -> JobView {
        JobView {
            calculator: self.calculator,
            agents: agent_views(self.agents@),
            request: self.request@,
            request_bytes: self.request_bytes,
        }
    }
}

/// The state of a relayed request.
#[derive(Debug)]
pub enum Relay {
    /// Nothing has happened yet.
    Idle,
    /// The ingress message is being paid for.
    ChargingIngress { job: Job, asked: u128 },
    /// The request to the agent at `index`, or to all agents, is being paid for.
    ChargingRequest { job: Job, index: usize, asked: u128 },
    /// The agent at `index` is being called.
    Calling { job: Job, index: usize },
    /// All agents are being called.
    CallingAll { job: Job },
    /// The response is being paid for; the answer follows.
    ChargingResponse { answer: HttpResponse },
    /// The caller has been answered.
    Done,
}

/// The mathematical value of a [`Relay`].
pub enum RelayView {
    Idle,
    ChargingIngress { job: JobView, asked: u128 },
    ChargingRequest { job: JobView, index: usize, asked: u128 },
    Calling { job: JobView, index: usize },
    CallingAll { job: JobView },
    ChargingResponse { answer: HttpResponseView },
    Done,
}

impl View for Relay {
    type V = RelayView;

    open spec fn view(&self) -> RelayView {
        match self {
            Relay::Idle => RelayView::Idle,
            Relay::ChargingIngress { job, asked } => RelayView::ChargingIngress {
                job: job@,
                asked: *asked,
            },
            Relay::ChargingRequest { job, index, asked } => RelayView::ChargingRequest {
                job: job@,
                index: *index,
                asked: *asked,
            },
            Relay::Calling { job, index } => RelayView::Calling { job: job@, index: *index },
            Relay::CallingAll { job } => RelayView::CallingAll { job: job@ },
            Relay::ChargingResponse { answer } => RelayView::ChargingResponse { answer: answer@ },
            Relay::Done => RelayView::Done,
        }
    }
}

/// What came of the last action of a relayed request.
#[derive(Debug)]
pub enum RelayEvent {
    /// A request arrived. `allowed` says whether its caller may use the service,
    /// `ingress_bytes` is the size of the message that carried it.
    Begin {
        allowed: bool,
        calculator: Calculator,
        agents: Vec<Agent>,
        ingress_bytes: usize,
        request: HttpRequest,
    },
    /// Cycles were asked for; this many were received.
    Charged { received: u128 },
    /// The agent that was called, or the first of all agents, answered (`Ok`), or
    /// the call, or the last of all calls, failed (`Err`).
    Answered(Result<HttpResponse, HttpResponse>),
    /// Every call to an agent has ended. The outcomes stand in the order of the
    /// agents: an answer (`Ok`), or the response that tells of the failure (`Err`).
    AllAnswered(Vec<Result<HttpResponse, HttpResponse>>),
}

/// The values of a list of outcomes.
pub open spec fn outcome_views(list: Seq<Result<HttpResponse, HttpResponse>>) -> Seq<
    Result<HttpResponseView, HttpResponseView>,
> {
    list.map_values(
        |o: Result<HttpResponse, HttpResponse>|
            match o {
                Ok(res) => Ok(res@),
                Err(res) => Err(res@),
            },
    )
}

/// The response of each outcome: the answer, or the response that tells of the
/// failure.
pub open spec fn outcome_responses(
    outcomes: Seq<Result<HttpResponseView, HttpResponseView>>,
) -> Seq<HttpResponseView> {
    outcomes.map_values(
        |o: Result<HttpResponseView, HttpResponseView>|
            match o {
                Ok(res) => res,
                Err(res) => res,
            },
    )
}

/// The mathematical value of a [`RelayEvent`].
pub enum RelayEventView {
    Begin {
        allowed: bool,
        calculator: Calculator,
        agents: Seq<AgentView>,
        ingress_bytes: usize,
        request: HttpRequestView,
    },
    Charged { received: u128 },
    Answered(Result<HttpResponseView, HttpResponseView>),
    AllAnswered(Seq<Result<HttpResponseView, HttpResponseView>>),
}

impl View for RelayEvent {
    type V = RelayEventView;

    open spec fn view(&self) -> RelayEventView {
        match self {
            RelayEvent::Begin { allowed, calculator, agents, ingress_bytes, request } => {
                RelayEventView::Begin {
                    allowed: *allowed,
                    calculator: *calculator,
                    agents: agent_views(agents@),
                    ingress_bytes: *ingress_bytes,
                    request: request@,
                }
            },
            RelayEvent::Charged { received } => RelayEventView::Charged { received: *received },
            RelayEvent::Answered(r) => RelayEventView::Answered(
                match r {
                    Ok(res) => Ok(res@),
                    Err(res) => Err(res@),
                },
            ),
            RelayEvent::AllAnswered(list) => RelayEventView::AllAnswered(outcome_views(list@)),
        }
    }
}

/// A request as it goes to one agent: ready to be sent, or answered at once where
/// it cannot be sent.
pub type Prepared = Result<HttpRequest, HttpResponse>;

/// The values of a list of prepared requests.
pub open spec fn prepared_views(list: Seq<Prepared>) -> Seq<Result<HttpRequestView, HttpResponseView>> {
    list.map_values(
        |p: Prepared|
            match p {
                Ok(req) => Ok(req@),
                Err(res) => Err(res@),
            },
    )
}

/// What to do next for a relayed request.
#[derive(Debug)]
pub enum RelayAction {
    /// Accept this many cycles from the caller, and report how many were received.
    Charge { cycles: u128, required: bool },
    /// Send the request through the agent at this position.
    Call { agent: usize, request: HttpRequest },
    /// Send each request through the agent at its position, all at once.
    CallEach { requests: Vec<Prepared> },
    /// Answer the caller.
    Finish(HttpResponse),
}

/// The mathematical value of a [`RelayAction`].
pub enum RelayActionView {
    Charge { cycles: u128, required: bool },
    Call { agent: usize, request: HttpRequestView },
    CallEach { requests: Seq<Result<HttpRequestView, HttpResponseView>> },
    Finish(HttpResponseView),
}

impl View for RelayAction {
    type V = RelayActionView;

    open spec fn view(&self) -> RelayActionView {
        match self {
            RelayAction::Charge { cycles, required } => RelayActionView::Charge {
                cycles: *cycles,
                required: *required,
            },
            RelayAction::Call { agent, request } => RelayActionView::Call {
                agent: *agent,
                request: request@,
            },
            RelayAction::CallEach { requests } => RelayActionView::CallEach {
                requests: prepared_views(requests@),
            },
            RelayAction::Finish(res) => RelayActionView::Finish(res@),
        }
    }
}

/// The step that ends a relayed request.
pub open spec fn finished(answer: HttpResponseView) -> (RelayView, RelayActionView) {
    (RelayView::Done, RelayActionView::Finish(answer))
}

/// The request as it goes to one agent.
pub open spec fn prepared(agent: AgentView, request: HttpRequestView) -> Result<
    HttpRequestView,
    HttpResponseView,
> {
    match built_request(agent, request) {
        Ok(built) => Ok(built),
        Err(e) => Err(notice(400, error_text(e, request.url))),
    }
}

/// The step that pays for the request to the agent at `index`.
pub open spec fn charge_request(job: JobView, index: usize) -> (RelayView, RelayActionView) {
    let asked = clamp_u128(
        job.calculator.spec_http_outcall_request_cost(job.request_bytes as nat, 1),
    );
    (
        RelayView::ChargingRequest { job, index, asked },
        RelayActionView::Charge { cycles: asked, required: true },
    )
}

/// The step that pays for a response that came back through `fan_out` agents and
/// then answers with `answer`.
pub open spec fn charge_response(
    job: JobView,
    paid_for: HttpResponseView,
    answer: HttpResponseView,
    fan_out: usize,
) -> (RelayView, RelayActionView) {
    (
        RelayView::ChargingResponse { answer },
        RelayActionView::Charge {
            cycles: clamp_u128(
                job.calculator.spec_http_outcall_response_cost(
                    clamp_usize(job.calculator.spec_response_bytes(paid_for)) as nat,
                    fan_out as nat,
                ),
            ),
            required: false,
        },
    )
}

/// The next state of a relayed request and the action to perform, for every
/// strategy, state and event.
///
/// A caller that is not allowed is answered 403, a service without agents 503,
/// and a caller that does not pay what is required 503, before anything is sent.
/// In sequence, the request to each agent is paid for and sent in turn; the first
/// answer is paid for and returned, and where no agent answers the last failure is
/// returned. In parallel, the ingress message and all requests are paid for at
/// once and all agents are called; then either the first answer is paid for and
/// returned, or, once every call has ended, the responses of all outcomes, those
/// of failed calls among them, are reconciled. What is charged for a response is
/// never required.
pub open spec fn relay_next(strategy: Strategy, relay: RelayView, event: RelayEventView) -> (
    RelayView,
    RelayActionView,
) {
    match (relay, event) {
        (
            RelayView::Idle,
            RelayEventView::Begin { allowed, calculator, agents, ingress_bytes, request },
        ) => {
            if !allowed {
                finished(notice(403, "caller is not allowed"@))
            } else if agents.len() == 0 {
                finished(notice(503, "no agents available"@))
            } else {
                let job = JobView {
                    calculator,
                    agents,
                    request,
                    request_bytes: clamp_usize(calculator.spec_request_bytes(request)),
                };
                let ingress = clamp_u128(calculator.spec_ingress_cost(ingress_bytes as nat));
                if strategy == Strategy::AnySequential {
                    (
                        RelayView::ChargingIngress { job, asked: ingress },
                        RelayActionView::Charge { cycles: ingress, required: true },
                    )
                } else {
                    let asked = clamp_u128(
                        (ingress + clamp_u128(
                            calculator.spec_http_outcall_request_cost(
                                job.request_bytes as nat,
                                agents.len(),
                            ),
                        )) as nat,
                    );
                    (
                        RelayView::ChargingRequest { job, index: 0, asked },
                        RelayActionView::Charge { cycles: asked, required: true },
                    )
                }
            }
        },
        (RelayView::ChargingIngress { job, asked }, RelayEventView::Charged { received }) => {
            if received < asked {
                finished(notice(503, "insufficient cycles"@))
            } else {
                charge_request(job, 0)
            }
        },
        (
            RelayView::ChargingRequest { job, index, asked },
            RelayEventView::Charged { received },
        ) => {
            if received < asked {
                finished(notice(503, "insufficient cycles"@))
            } else if strategy == Strategy::AnySequential {
                if index < job.agents.len() {
                    match prepared(job.agents[index as int], job.request) {
                        Ok(request) => (
                            RelayView::Calling { job, index },
                            RelayActionView::Call { agent: index, request },
                        ),
                        Err(refusal) => charge_response(job, refusal, refusal, 1),
                    }
                } else {
                    finished(notice(500, "unexpected event"@))
                }
            } else {
                (
                    RelayView::CallingAll { job },
                    RelayActionView::CallEach {
                        requests: job.agents.map_values(
                            |agent: AgentView| prepared(agent, job.request),
                        ),
                    },
                )
            }
        },
        (RelayView::Calling { job, index }, RelayEventView::Answered(Ok(answer))) => {
            charge_response(job, answer, answer, 1)
        },
        (RelayView::Calling { job, index }, RelayEventView::Answered(Err(failure))) => {
            if index + 1 < job.agents.len() {
                charge_request(job, (index + 1) as usize)
            } else {
                finished(failure)
            }
        },
        (RelayView::CallingAll { job }, RelayEventView::Answered(Ok(answer))) => {
            if strategy == Strategy::AnyParallel {
                charge_response(job, answer, answer, job.agents.len() as usize)
            } else {
                finished(notice(500, "unexpected event"@))
            }
        },
        (RelayView::CallingAll { job }, RelayEventView::Answered(Err(failure))) => {
            if strategy == Strategy::AnyParallel {
                finished(failure)
            } else {
                finished(notice(500, "unexpected event"@))
            }
        },
        (RelayView::CallingAll { job }, RelayEventView::AllAnswered(outcomes)) => {
            if strategy == Strategy::AllParallelConsistent {
                let answers = outcome_responses(outcomes);
                let base = if answers.len() > 0 {
                    answers[0]
                } else {
                    notice(503, "no agents available"@)
                };
                charge_response(job, base, reconciled(answers), job.agents.len() as usize)
            } else {
                finished(notice(500, "unexpected event"@))
            }
        },
        (RelayView::ChargingResponse { answer }, RelayEventView::Charged { received }) => finished(
            answer,
        ),
        _ => finished(notice(500, "unexpected event"@)),
    }
}

/// The step that ends a relayed request with a response of the service itself.
fn finish_with(status: u64, text: &str) -> (r: (Relay, RelayAction))
    ensures
        (r.0@, r.1@) == finished(notice(status, text@)),
{
    (Relay::Done, RelayAction::Finish(make_notice(status, text)))
}

/// The step that pays for the request to the agent at `index`.
fn ask_for_request(job: Job, index: usize) -> (r: (Relay, RelayAction))
    ensures
        (r.0@, r.1@) == charge_request(job@, index),
{
    let asked = job.calculator.http_outcall_request_cost(job.request_bytes, 1);
    (Relay::ChargingRequest { job, index, asked }, RelayAction::Charge { cycles: asked, required: true })
}

/// The step that pays for a response and then answers.
fn ask_for_response(job: &Job, paid_for: &HttpResponse, answer: HttpResponse, fan_out: usize) -> (r: (
    Relay,
    RelayAction,
))
    ensures
        (r.0@, r.1@) == charge_response(job@, paid_for@, answer@, fan_out),
{
    let bytes = job.calculator.count_response_bytes(paid_for);
    let cycles = job.calculator.http_outcall_response_cost(bytes, fan_out);
    (Relay::ChargingResponse { answer }, RelayAction::Charge { cycles, required: false })
}

/// The request as it goes to one agent.
fn prepare(agent: &Agent, request: &HttpRequest) -> (r: Prepared)
    ensures
        match prepared(agent@, request@) {
            Ok(built) => r matches Ok(req) && req@ == built,
            Err(refusal) => r matches Err(res) && res@ == refusal,
        },
{
    let mut req = request.clone();
    match agent.build_request(&mut req) {
        Ok(()) => Ok(req),
        Err(e) => {
            let res = Agent::refusal(&e, request.url.as_str());
            assert(res@ =~= notice(400, error_text(e@, request@.url))) by {
                assert(res@.headers =~= Seq::<HttpHeaderView>::empty());
            }
            Err(res)
        },
    }
}

/// The requests as they go to all agents.
fn prepare_each(job: &Job) -> (r: Vec<Prepared>)
    ensures
        prepared_views(r@) == job@.agents.map_values(
            |agent: AgentView| prepared(agent, job@.request),
        ),
{
    let ghost target = job@.agents.map_values(|agent: AgentView| prepared(agent, job@.request));
    let mut out: Vec<Prepared> = Vec::new();
    let mut i: usize = 0;
    while i < job.agents.len()
        invariant
            i <= job.agents.len(),
            target == job@.agents.map_values(|agent: AgentView| prepared(agent, job@.request)),
            prepared_views(out@) == target.take(i as int),
        decreases job.agents.len() - i,
    {
        let ghost before = prepared_views(out@);
        let p = prepare(&job.agents[i], &job.request);
        assert(job@.agents[i as int] == job.agents@[i as int]@);
        out.push(p);
        proof {
            assert(prepared_views(out@) =~= before.push(target[i as int]));
            assert(target.take(i + 1) =~= target.take(i as int).push(target[i as int]));
        }
        i += 1;
    }
    assert(target.take(job.agents.len() as int) =~= target);
    out
}

/// The first step of a relayed request.
fn relay_begin(
    strategy: Strategy,
    allowed: bool,
    calculator: Calculator,
    agents: Vec<Agent>,
    ingress_bytes: usize,
    request: HttpRequest,
) -> (r: (Relay, RelayAction))
    ensures
        (r.0@, r.1@) == relay_next(
            strategy,
            RelayView::Idle,
            RelayEventView::Begin {
                allowed,
                calculator,
                agents: agent_views(agents@),
                ingress_bytes,
                request: request@,
            },
        ),
{
    if !allowed {
        return finish_with(403, "caller is not allowed");
    }
    if agents.len() == 0 {
        return finish_with(503, "no agents available");
    }
    let request_bytes = calculator.count_request_bytes(&request);
    let ingress = calculator.ingress_cost(ingress_bytes);
    let fan_out = agents.len();
    let job = Job { calculator, agents, request, request_bytes };
    match strategy {
        Strategy::AnySequential => (
            Relay::ChargingIngress { job, asked: ingress },
            RelayAction::Charge { cycles: ingress, required: true },
        ),
        _ => {
            let asked = ingress.saturating_add(
                calculator.http_outcall_request_cost(request_bytes, fan_out),
            );
            (
                Relay::ChargingRequest { job, index: 0, asked },
                RelayAction::Charge { cycles: asked, required: true },
            )
        },
    }
}

/// The step after the request has been paid for.
fn relay_send(strategy: Strategy, job: Job, index: usize, asked: u128, received: u128) -> (r: (
    Relay,
    RelayAction,
))
    ensures
        (r.0@, r.1@) == relay_next(
            strategy,
            RelayView::ChargingRequest { job: job@, index, asked },
            RelayEventView::Charged { received },
        ),
{
    if received < asked {
        return finish_with(503, "insufficient cycles");
    }
    match strategy {
        Strategy::AnySequential => {
            if index >= job.agents.len() {
                return finish_with(500, "unexpected event");
            }
            assert(job@.agents[index as int] == job.agents@[index as int]@);
            match prepare(&job.agents[index], &job.request) {
                Ok(request) => (
                    Relay::Calling { job, index },
                    RelayAction::Call { agent: index, request },
                ),
                Err(refusal) => {
                    let answer = refusal.clone();
                    ask_for_response(&job, &refusal, answer, 1)
                },
            }
        },
        _ => {
            let requests = prepare_each(&job);
            (Relay::CallingAll { job }, RelayAction::CallEach { requests })
        },
    }
}

/// The step after one agent, or the first of all, has answered or failed.
fn relay_answered(strategy: Strategy, state: Relay, outcome: Result<HttpResponse, HttpResponse>) -> (r: (
    Relay,
    RelayAction,
))
    ensures
        (r.0@, r.1@) == relay_next(
            strategy,
            state@,
            RelayEventView::Answered(
                match outcome {
                    Ok(res) => Ok(res@),
                    Err(res) => Err(res@),
                },
            ),
        ),
{
    match (state, outcome) {
        (Relay::Calling { job, index }, Ok(answer)) => {
            let paid_for = answer.clone();
            ask_for_response(&job, &paid_for, answer, 1)
        },
        (Relay::Calling { job, index }, Err(failure)) => {
            assert(job@.agents.len() == job.agents.len());
            if index < usize::MAX && index + 1 < job.agents.len() {
                ask_for_request(job, index + 1)
            } else {
                (Relay::Done, RelayAction::Finish(failure))
            }
        },
        (Relay::CallingAll { job }, Ok(answer)) => {
            match strategy {
                Strategy::AnyParallel => {
                    let paid_for = answer.clone();
                    let fan_out = job.agents.len();
                    ask_for_response(&job, &paid_for, answer, fan_out)
                },
                _ => finish_with(500, "unexpected event"),
            }
        },
        (Relay::CallingAll { job }, Err(failure)) => {
            match strategy {
                Strategy::AnyParallel => (Relay::Done, RelayAction::Finish(failure)),
                _ => finish_with(500, "unexpected event"),
            }
        },
        _ => finish_with(500, "unexpected event"),
    }
}

/// The response of each outcome.
fn responses_of(outcomes: Vec<Result<HttpResponse, HttpResponse>>) -> (r: Vec<HttpResponse>)
    ensures
        response_views(r@) == outcome_responses(outcome_views(outcomes@)),
{
    let ghost all = outcome_responses(outcome_views(outcomes@));
    let mut r: Vec<HttpResponse> = Vec::new();
    let mut i: usize = 0;
    while i < outcomes.len()
        invariant
            i <= outcomes.len(),
            all == outcome_responses(outcome_views(outcomes@)),
            response_views(r@) == all.take(i as int),
        decreases outcomes.len() - i,
    {
        let res = match &outcomes[i] {
            Ok(res) => res.clone(),
            Err(res) => res.clone(),
        };
        let ghost before = response_views(r@);
        r.push(res);
        assert(response_views(r@) =~= before.push(all[i as int]));
        assert(all.take(i + 1) =~= all.take(i as int).push(all[i as int]));
        i += 1;
    }
    assert(all.take(outcomes.len() as int) =~= all);
    r
}

/// The step after every call to an agent has ended.
fn relay_all_answered(
    strategy: Strategy,
    state: Relay,
    outcomes: Vec<Result<HttpResponse, HttpResponse>>,
) -> (r: (Relay, RelayAction))
    ensures
        (r.0@, r.1@) == relay_next(
            strategy,
            state@,
            RelayEventView::AllAnswered(outcome_views(outcomes@)),
        ),
{
    match state {
        Relay::CallingAll { job } => {
            match strategy {
                Strategy::AllParallelConsistent => {
                    let answers = responses_of(outcomes);
                    let base = if answers.len() > 0 {
                        answers[0].clone()
                    } else {
                        make_notice(503, "no agents available")
                    };
                    let fan_out = job.agents.len();
                    let answer = reconcile(answers);
                    ask_for_response(&job, &base, answer, fan_out)
                },
                _ => finish_with(500, "unexpected event"),
            }
        },
        _ => finish_with(500, "unexpected event"),
    }
}

/// The step after cycles have been asked for.
fn relay_charged(strategy: Strategy, state: Relay, received: u128) -> (r: (Relay, RelayAction))
    ensures
        (r.0@, r.1@) == relay_next(strategy, state@, RelayEventView::Charged { received }),
{
    match state {
        Relay::ChargingIngress { job, asked } => {
            if received < asked {
                finish_with(503, "insufficient cycles")
            } else {
                ask_for_request(job, 0)
            }
        },
        Relay::ChargingRequest { job, index, asked } => relay_send(
            strategy,
            job,
            index,
            asked,
            received,
        ),
        Relay::ChargingResponse { answer } => (Relay::Done, RelayAction::Finish(answer)),
        _ => finish_with(500, "unexpected event"),
    }
}

/// One step of a relayed request under a strategy; see [`relay_next`].
pub fn relay(strategy: Strategy, state: Relay, event: RelayEvent) -> (r: (Relay, RelayAction))
    ensures
        (r.0@, r.1@) == relay_next(strategy, state@, event@),
{
    match event {
        RelayEvent::Begin { allowed, calculator, agents, ingress_bytes, request } => {
            match state {
                Relay::Idle => relay_begin(
                    strategy,
                    allowed,
                    calculator,
                    agents,
                    ingress_bytes,
                    request,
                ),
                _ => finish_with(500, "unexpected event"),
            }
        },
        RelayEvent::Charged { received } => relay_charged(strategy, state, received),
        RelayEvent::Answered(outcome) => relay_answered(strategy, state, outcome),
        RelayEvent::AllAnswered(outcome) => relay_all_answered(strategy, state, outcome),
    }
}

/// One step of a request that is relayed through the agents in sequence, until one
/// answers with a status of at most 500.
pub fn proxy_http_request(state: Relay, event: RelayEvent) -> (r: (Relay, RelayAction))
    ensures
        (r.0@, r.1@) == relay_next(Strategy::AnySequential, state@, event@),
{
    relay(Strategy::AnySequential, state, event)
}

/// One step of a request that is relayed through all agents at once and answered
/// with what they all answer, or with the list of what they answer where they differ.
pub fn parallel_call_all_ok(state: Relay, event: RelayEvent) -> (r: (Relay, RelayAction))
    ensures
        (r.0@, r.1@) == relay_next(Strategy::AllParallelConsistent, state@, event@),
{
    relay(Strategy::AllParallelConsistent, state, event)
}

/// One step of a request that is relayed through all agents at once and answered
/// with the first answer with a status of at most 500.
pub fn parallel_call_any_ok(state: Relay, event: RelayEvent) -> (r: (Relay, RelayAction))
    ensures
        (r.0@, r.1@) == relay_next(Strategy::AnyParallel, state@, event@),
{
    relay(Strategy::AnyParallel, state, event)
}

/// Nothing is sent that has not been paid for: agents are called only as the step
/// after the cycles for the requests were asked for and received in full.
pub proof fn lemma_calls_are_paid_for(strategy: Strategy, relay: RelayView, event: RelayEventView)
    ensures
        relay_next(strategy, relay, event).1 is Call || relay_next(strategy, relay, event).1
            is CallEach ==> (relay matches RelayView::ChargingRequest { asked, .. }
            && event matches RelayEventView::Charged { received } && received >= asked),
{
}

/// What asking in sequence comes to, from the agent at `index` on: the first
/// answer, or the last failure where no agent answers.
pub open spec fn first_answer(
    outcomes: Seq<Result<HttpResponseView, HttpResponseView>>,
    index: int,
) -> HttpResponseView
    decreases outcomes.len() - index,
{
    if index < 0 || index >= outcomes.len() {
        notice(500, "unexpected event"@)
    } else {
        match outcomes[index] {
            Ok(answer) => answer,
            Err(failure) => if index + 1 < outcomes.len() {
                first_answer(outcomes, index + 1)
            } else {
                failure
            },
        }
    }
}

/// The answer of a request that is relayed in sequence from the agent at `index`
/// on, where every charge is paid in full and the call through the agent at
/// position `i` comes to `outcomes[i]`.
pub open spec fn sequential_run(
    job: JobView,
    index: int,
    outcomes: Seq<Result<HttpResponseView, HttpResponseView>>,
) -> HttpResponseView
    decreases job.agents.len() - index,
{
    let (charging, charge) = charge_request(job, index as usize);
    let paid = RelayEventView::Charged { received: charge->Charge_cycles };
    let (calling, call) = relay_next(Strategy::AnySequential, charging, paid);
    if call is Call {
        let (after, action) = relay_next(
            Strategy::AnySequential,
            calling,
            RelayEventView::Answered(outcomes[index]),
        );
        match action {
            RelayActionView::Finish(answer) => answer,
            _ => if after is ChargingResponse {
                relay_next(Strategy::AnySequential, after, paid).1->Finish_0
            } else if 0 <= index && index + 1 < job.agents.len() {
                sequential_run(job, index + 1, outcomes)
            } else {
                notice(500, "unexpected event"@)
            },
        }
    } else if calling is ChargingResponse {
        relay_next(Strategy::AnySequential, calling, paid).1->Finish_0
    } else {
        call->Finish_0
    }
}

/// In sequence the first answer counts: where every request can be sent, the
/// request is answered with the first answer of an agent, in the order of the
/// agents, and with the failure of the last agent where none answers.
pub proof fn lemma_sequential_first_answer(
    job: JobView,
    index: usize,
    outcomes: Seq<Result<HttpResponseView, HttpResponseView>>,
)
    requires
        index < job.agents.len() <= usize::MAX,
        outcomes.len() == job.agents.len(),
        forall|i: int|
            index <= i < job.agents.len() ==> prepared(#[trigger] job.agents[i], job.request) is Ok,
    ensures
        sequential_run(job, index as int, outcomes) == first_answer(outcomes, index as int),
    decreases job.agents.len() - index,
{
    assert(prepared(job.agents[index as int], job.request) is Ok);
    if outcomes[index as int] is Err && index + 1 < job.agents.len() {
        lemma_sequential_first_answer(job, (index + 1) as usize, outcomes);
    }
}

} // verus!
