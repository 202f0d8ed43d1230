use idempotent_proxy::agent::{Agent, HttpHeader, HttpMethod, HttpRequest, HttpResponse};
use idempotent_proxy::api::{
    make_notice, parallel_call_all_ok, parallel_call_any_ok, proxy_http_request, reconcile,
    same_response, Relay, RelayAction, RelayEvent,
};
use idempotent_proxy::cycles::Calculator;

fn agent(name: &str) -> Agent {
    Agent {
        name: name.to_string(),
        endpoint: format!("https://{}.proxy.example", name),
        max_cycles: 1_000_000,
        proxy_token: Some(format!("token-{}", name)),
    }
}

fn request(url: &str) -> HttpRequest {
    HttpRequest {
        url: url.to_string(),
        max_response_bytes: Some(1000),
        method: HttpMethod::POST,
        headers: vec![HttpHeader { name: "idempotency-key".to_string(), value: "k1".to_string() }],
        body: Some(b"{}".to_vec()),
        transform: None,
    }
}

fn answer(status: u64, body: &str) -> HttpResponse {
    HttpResponse { status, headers: vec![], body: body.as_bytes().to_vec() }
}

fn begin(allowed: bool, agents: Vec<Agent>, subnet_size: u64) -> RelayEvent {
    RelayEvent::Begin {
        allowed,
        calculator: Calculator { subnet_size, service_fee: 50 },
        agents,
        ingress_bytes: 100,
        request: request("https://eth.example/rpc?x=1"),
    }
}

fn decode(body: &[u8]) -> Vec<(u64, Vec<u8>)> {
    let list: Vec<ic_cdk::api::management_canister::http_request::HttpResponse> =
        ciborium::from_reader(body).unwrap();
    list.into_iter().map(|r| (u64::try_from(r.status.0).unwrap(), r.body)).collect()
}

#[test]
fn equal_answers_are_forwarded() {
    let r = reconcile(vec![answer(200, r#"{"a":1}"#), answer(200, r#"{"a":1}"#), answer(200, r#"{"a":1}"#)]);
    assert!(same_response(&r, &answer(200, r#"{"a":1}"#)));
    let r = reconcile(vec![answer(404, "no")]);
    assert!(same_response(&r, &answer(404, "no")));
    let r = reconcile(vec![]);
    assert!(same_response(&r, &make_notice(503, "no agents available")));
    assert_eq!(r.body, b"no agents available");
}

#[test]
fn divergent_answers_are_listed_once_each_with_the_first_agents_last() {
    let one = answer(200, r#"{"a":1}"#);
    let two = answer(200, r#"{"a":2}"#);
    // the odd one is the first agent's
    let r = reconcile(vec![one.clone(), two.clone(), two.clone()]);
    assert_eq!(r.status, 500);
    assert!(r.headers.is_empty());
    assert_eq!(decode(&r.body), vec![(200, two.body.clone()), (200, one.body.clone())]);
    // the odd one is another agent's
    let r = reconcile(vec![two.clone(), one.clone(), two.clone()]);
    assert_eq!(r.status, 500);
    let mut listed = decode(&r.body);
    assert_eq!(listed.len(), 2);
    assert_eq!(listed.last().unwrap(), &(200, two.body.clone()));
    listed.sort();
    assert_eq!(listed, vec![(200, one.body.clone()), (200, two.body.clone())]);
    // answers that differ in status or headers only
    let mut with_header = one.clone();
    with_header.headers.push(HttpHeader { name: "date".to_string(), value: "x".to_string() });
    assert!(!same_response(&one, &with_header));
    let r = reconcile(vec![one.clone(), with_header, answer(201, r#"{"a":1}"#)]);
    assert_eq!(decode(&r.body).len(), 3);
}

/// Drives a relayed request to its answer; every charge is paid in full. Where
/// all agents are called at once, the first outcome is handed back.
fn drive(
    step: fn(Relay, RelayEvent) -> (Relay, RelayAction),
    first: RelayEvent,
    outcomes: &mut Vec<Result<HttpResponse, HttpResponse>>,
    log: &mut Vec<String>,
) -> HttpResponse {
    drive_with(false, step, first, outcomes, log)
}

/// Drives a request that awaits all agents to its answer: every outcome is
/// handed back.
fn drive_all(
    first: RelayEvent,
    outcomes: &mut Vec<Result<HttpResponse, HttpResponse>>,
    log: &mut Vec<String>,
) -> HttpResponse {
    drive_with(true, parallel_call_all_ok, first, outcomes, log)
}

fn drive_with(
    await_all: bool,
    step: fn(Relay, RelayEvent) -> (Relay, RelayAction),
    first: RelayEvent,
    outcomes: &mut Vec<Result<HttpResponse, HttpResponse>>,
    log: &mut Vec<String>,
) -> HttpResponse {
    let mut state = Relay::Idle;
    let mut event = first;
    loop {
        let (next, action) = step(state, event);
        state = next;
        event = match action {
            RelayAction::Finish(res) => {
                assert!(matches!(state, Relay::Done));
                return res;
            }
            RelayAction::Charge { cycles, required } => {
                log.push(format!("charge {} {}", cycles, required));
                RelayEvent::Charged { received: cycles }
            }
            RelayAction::Call { agent, request } => {
                log.push(format!("call {} {}", agent, request.url));
                RelayEvent::Answered(outcomes.remove(0))
            }
            RelayAction::CallEach { requests } => {
                log.push(format!("call each {}", requests.len()));
                if await_all {
                    RelayEvent::AllAnswered(outcomes.drain(..).collect())
                } else {
                    RelayEvent::Answered(outcomes.remove(0))
                }
            }
        };
    }
}

#[test]
fn in_sequence_the_first_answer_counts() {
    let calc = Calculator { subnet_size: 13, service_fee: 50 };
    let mut outcomes = vec![Err(answer(502, "bad gateway")), Ok(answer(404, "none")), Ok(answer(200, "late"))];
    let mut log = vec![];
    let res = drive(proxy_http_request, begin(true, vec![agent("a"), agent("b"), agent("c")], 13), &mut outcomes, &mut log);
    assert!(same_response(&res, &answer(404, "none")));
    assert_eq!(outcomes.len(), 1);
    let bytes = calc.count_request_bytes(&request("https://eth.example/rpc?x=1"));
    assert_eq!(
        log,
        vec![
            format!("charge {} true", calc.ingress_cost(100)),
            format!("charge {} true", calc.http_outcall_request_cost(bytes, 1)),
            "call 0 https://a.proxy.example/rpc?x=1".to_string(),
            format!("charge {} true", calc.http_outcall_request_cost(bytes, 1)),
            "call 1 https://b.proxy.example/rpc?x=1".to_string(),
            format!("charge {} false", calc.http_outcall_response_cost(4 + 4, 1)),
        ]
    );
}

#[test]
fn in_sequence_the_last_failure_is_returned_where_none_answers() {
    let mut outcomes = vec![Err(answer(502, "one")), Err(answer(503, "two"))];
    let res = drive(proxy_http_request, begin(true, vec![agent("a"), agent("b")], 0), &mut outcomes, &mut vec![]);
    assert!(same_response(&res, &answer(503, "two")));
}

#[test]
fn callers_and_agents_are_checked_first() {
    let (state, action) = proxy_http_request(Relay::Idle, begin(false, vec![agent("a")], 13));
    assert!(matches!(state, Relay::Done));
    assert!(matches!(action, RelayAction::Finish(r) if r.status == 403 && r.body == b"caller is not allowed"));
    let (_, action) = parallel_call_all_ok(Relay::Idle, begin(true, vec![], 13));
    assert!(matches!(action, RelayAction::Finish(r) if r.status == 503 && r.body == b"no agents available"));
    let (_, action) = parallel_call_any_ok(Relay::Idle, RelayEvent::Charged { received: 1 });
    assert!(matches!(action, RelayAction::Finish(r) if r.status == 500 && r.body == b"unexpected event"));
}

#[test]
fn a_caller_that_does_not_pay_is_answered_503_before_anything_is_sent() {
    let (state, action) = proxy_http_request(Relay::Idle, begin(true, vec![agent("a")], 13));
    let asked = match action {
        RelayAction::Charge { cycles, required: true } => cycles,
        _ => panic!("the ingress message is charged"),
    };
    let (state, action) = proxy_http_request(state, RelayEvent::Charged { received: asked - 1 });
    assert!(matches!(state, Relay::Done));
    assert!(matches!(action, RelayAction::Finish(r) if r.status == 503 && r.body == b"insufficient cycles"));

    let (state, action) = parallel_call_any_ok(Relay::Idle, begin(true, vec![agent("a"), agent("b")], 13));
    let calc = Calculator { subnet_size: 13, service_fee: 50 };
    let bytes = calc.count_request_bytes(&request("https://eth.example/rpc?x=1"));
    let asked = calc.ingress_cost(100) + calc.http_outcall_request_cost(bytes, 2);
    assert!(matches!(action, RelayAction::Charge { cycles, required: true } if cycles == asked));
    let (_, action) = parallel_call_any_ok(state, RelayEvent::Charged { received: 0 });
    assert!(matches!(action, RelayAction::Finish(r) if r.status == 503));
}

#[test]
fn in_parallel_all_agents_are_called_at_once() {
    let mut outcomes = vec![Ok(answer(200, "first"))];
    let mut log = vec![];
    let res = drive(parallel_call_any_ok, begin(true, vec![agent("a"), agent("b")], 0), &mut outcomes, &mut log);
    assert!(same_response(&res, &answer(200, "first")));
    assert_eq!(log, vec!["charge 0 true", "call each 2", "charge 0 false"]);

    let mut outcomes = vec![Err(answer(503, "all failed"))];
    let res = drive(parallel_call_any_ok, begin(true, vec![agent("a"), agent("b")], 0), &mut outcomes, &mut vec![]);
    assert!(same_response(&res, &answer(503, "all failed")));

    let same = answer(200, r#"{"a":1}"#);
    let mut outcomes = vec![Ok(same.clone()), Ok(same.clone()), Ok(same.clone())];
    let res = drive_all(begin(true, vec![agent("a"), agent("b"), agent("c")], 0), &mut outcomes, &mut vec![]);
    assert!(same_response(&res, &same));

    let mut outcomes = vec![Ok(answer(200, r#"{"a":1}"#)), Ok(answer(200, r#"{"a":2}"#)), Ok(answer(200, r#"{"a":2}"#))];
    let res = drive_all(begin(true, vec![agent("a"), agent("b"), agent("c")], 0), &mut outcomes, &mut vec![]);
    assert_eq!(res.status, 500);
    assert_eq!(decode(&res.body).len(), 2);
}

#[test]
fn each_agent_gets_its_own_request() {
    let (state, _) = parallel_call_all_ok(Relay::Idle, begin(true, vec![agent("a"), agent("b")], 0));
    let (state, action) = parallel_call_all_ok(state, RelayEvent::Charged { received: 0 });
    assert!(matches!(state, Relay::CallingAll { .. }));
    match action {
        RelayAction::CallEach { requests } => {
            let urls: Vec<String> = requests.iter().map(|r| r.as_ref().unwrap().url.clone()).collect();
            assert_eq!(urls, vec!["https://a.proxy.example/rpc?x=1", "https://b.proxy.example/rpc?x=1"]);
            let token = &requests[1].as_ref().unwrap().headers.last().unwrap().value;
            assert_eq!(token, "Bearer token-b");
        }
        _ => panic!("all agents are called"),
    }
    // a single outcome is no event for a strategy that awaits them all
    let (_, action) = parallel_call_all_ok(state, RelayEvent::Answered(Err(answer(502, "x"))));
    assert!(matches!(action, RelayAction::Finish(r) if r.status == 500 && r.body == b"unexpected event"));
}

#[test]
fn awaiting_all_agents_sees_every_outcome() {
    // one agent fails, the others agree: the failure is one of the responses compared
    let mut outcomes =
        vec![Ok(answer(200, "ok")), Err(answer(502, "bad gateway")), Ok(answer(200, "ok"))];
    let mut log = vec![];
    let res = drive_all(begin(true, vec![agent("a"), agent("b"), agent("c")], 0), &mut outcomes, &mut log);
    assert_eq!(res.status, 500);
    assert_eq!(
        decode(&res.body),
        vec![(502, b"bad gateway".to_vec()), (200, b"ok".to_vec())]
    );
    assert!(log.iter().any(|l| l == "call each 3"));
    assert!(outcomes.is_empty());

    // all agents fail alike: their common response is the answer
    let mut outcomes = vec![Err(answer(502, "down")), Err(answer(502, "down"))];
    let res = drive_all(begin(true, vec![agent("a"), agent("b")], 0), &mut outcomes, &mut vec![]);
    assert!(same_response(&res, &answer(502, "down")));

    // the first agent fails, the second answers: both are listed, the first agent's last
    let mut outcomes = vec![Err(answer(503, "late")), Ok(answer(200, "ok"))];
    let res = drive_all(begin(true, vec![agent("a"), agent("b")], 0), &mut outcomes, &mut vec![]);
    assert_eq!(res.status, 500);
    assert_eq!(decode(&res.body), vec![(200, b"ok".to_vec()), (503, b"late".to_vec())]);
}

#[test]
fn a_request_that_cannot_be_sent_is_answered_400_at_once() {
    let mut event = begin(true, vec![agent("a")], 0);
    if let RelayEvent::Begin { request, .. } = &mut event {
        request.headers.clear();
    }
    let mut log = vec![];
    let res = drive(proxy_http_request, event, &mut vec![], &mut log);
    assert_eq!(res.status, 400);
    assert_eq!(res.body, b"idempotency-key header is missing");
    assert!(log.iter().all(|l| !l.starts_with("call")));
}
