use idempotent_proxy::cache::ResponseData;
use idempotent_proxy::dispatch::{
    plan_for, proxy, Action, CacheError, Event, Flight, Inbound, Reply, UpstreamRequest,
    UpstreamResponse, MAX_REQUEST_BODY_BYTES,
};
use idempotent_proxy::handler::AppState;
use idempotent_proxy::memory::{poll_step, MemoryCacher, PollStep};

fn app() -> AppState {
    AppState {
        agents: vec![],
        url_vars: vec![("URL_HTTPBIN".to_string(), "https://httpbin.org/get?api-key=abc123".to_string())],
        header_vars: vec![("HEADER_TOKEN".to_string(), b"Bearer secret".to_vec())],
        ecdsa_pub_keys: vec![],
        ed25519_pub_keys: vec![],
        cache_ttl: 10_000,
        poll_interval: 100,
        max_response_bytes: 2_097_152,
    }
}

fn post(path: &str, headers: &[(&str, &str)]) -> Inbound {
    Inbound {
        method: "POST".to_string(),
        path: path.to_string(),
        path_and_query: Some(path.to_string()),
        headers: headers.iter().map(|h| (h.0.to_string(), h.1.as_bytes().to_vec())).collect(),
    }
}

fn json_answer(status: u16, body: &str) -> Result<UpstreamResponse, String> {
    Ok(UpstreamResponse {
        status,
        headers: vec![
            ("content-type".to_string(), b"application/json".to_vec()),
            ("date".to_string(), b"now".to_vec()),
        ],
        body: body.as_bytes().to_vec(),
    })
}

/// Drives one request to its answer. The upstream answers are taken in turn.
fn drive(
    app: &AppState,
    cache: &mut MemoryCacher,
    upstream: &mut Vec<Result<UpstreamResponse, String>>,
    calls: &mut Vec<UpstreamRequest>,
    inbound: Inbound,
    now_ms: u64,
) -> Reply {
    let mut state = Flight::Arrived;
    let mut event = Event::Request { inbound, now: now_ms / 1000 };
    loop {
        let (next, action) = proxy(app, state, event);
        state = next;
        event = match action {
            Action::Reply(reply) => {
                assert!(matches!(state, Flight::Done));
                return reply;
            }
            Action::Obtain { key, ttl_ms } => Event::Obtained(Ok(cache.obtain_at(&key, ttl_ms, now_ms))),
            Action::PollGet { key, max_polls, .. } => {
                let mut counter = max_polls;
                Event::Polled(loop {
                    match poll_step(cache.get_at(&key, now_ms), counter) {
                        PollStep::Ready(v) => break Ok(v),
                        PollStep::NotObtained => break Err(CacheError::NotObtained),
                        PollStep::Timeout => break Err(CacheError::Timeout),
                        PollStep::Wait { remaining } => counter = remaining,
                    }
                })
            }
            Action::ReadBody { limit } => {
                assert_eq!(limit, MAX_REQUEST_BODY_BYTES);
                Event::Body(Ok(b"request body".to_vec()))
            }
            Action::Execute(request) => {
                calls.push(request);
                Event::Upstream(upstream.remove(0))
            }
            Action::Store { key, value, ttl_ms } => Event::Stored(cache.set_at(&key, value, ttl_ms, now_ms)),
            Action::Delete { key } => {
                cache.del(&key);
                Event::Deleted
            }
        };
    }
}

fn body_of(reply: &Reply) -> (u16, Vec<u8>) {
    match reply {
        Reply::Response(rd) => (rd.status, rd.body.clone()),
        Reply::Failure { status, message } => (*status, message.as_bytes().to_vec()),
        Reply::Mirrored { status, body } => (*status, body.clone()),
    }
}

#[test]
fn two_requests_with_one_key_call_the_upstream_once() {
    let app = app();
    let mut cache = MemoryCacher::new();
    let mut upstream = vec![json_answer(200, r#"{"a":1,"b":2}"#)];
    let mut calls = vec![];
    let headers = [("idempotency-key", "k1"), ("x-forwarded-host", "api.example.com")];

    // both requests ask for the entry before the upstream has answered
    let (a, act_a) = proxy(&app, Flight::Arrived, Event::Request { inbound: post("/foo", &headers), now: 1 });
    let (b, act_b) = proxy(&app, Flight::Arrived, Event::Request { inbound: post("/foo", &headers), now: 1 });
    let key = match (&act_a, &act_b) {
        (Action::Obtain { key: ka, ttl_ms }, Action::Obtain { key: kb, .. }) => {
            assert_eq!(ka, kb);
            assert_eq!(ka, "ANON:POST:k1");
            assert_eq!(*ttl_ms, 10_000);
            ka.clone()
        }
        _ => panic!("both requests ask for the entry"),
    };
    let won_a = cache.obtain_at(&key, 10_000, 1000);
    let won_b = cache.obtain_at(&key, 10_000, 1000);
    assert!(won_a && !won_b);

    let (b, act_b) = proxy(&app, b, Event::Obtained(Ok(won_b)));
    assert!(matches!(b, Flight::Polling));
    assert!(matches!(&act_b, Action::PollGet { key: k, poll_interval_ms: 100, max_polls: 100 } if *k == key));
    // the loser sees the lock and waits
    assert!(matches!(poll_step(cache.get_at(&key, 1001), 100), PollStep::Wait { remaining: 99 }));

    let (a, act) = proxy(&app, a, Event::Obtained(Ok(won_a)));
    assert!(matches!(act, Action::ReadBody { .. }));
    let (a, act) = proxy(&app, a, Event::Body(Ok(b"payload".to_vec())));
    match act {
        Action::Execute(request) => {
            assert_eq!(request.url, "https://api.example.com/foo");
            assert_eq!(request.method, "POST");
            assert_eq!(request.body, Some(b"payload".to_vec()));
            assert_eq!(request.headers, vec![("idempotency-key".to_string(), b"k1".to_vec())]);
            calls.push(request);
        }
        _ => panic!("the winner calls the upstream"),
    }
    let (a, act) = proxy(&app, a, Event::Upstream(upstream.remove(0)));
    let stored = match act {
        Action::Store { key: k, value, ttl_ms } => {
            assert_eq!(k, key);
            assert!(value.len() > 1);
            assert!(matches!(cache.set_at(&k, value.clone(), ttl_ms, 1500), Ok(true)));
            value
        }
        _ => panic!("the winner stores the response"),
    };
    let (a, act) = proxy(&app, a, Event::Stored(Ok(true)));
    assert!(matches!(a, Flight::Done));
    let first = match act {
        Action::Reply(reply) => reply,
        _ => panic!("the winner answers"),
    };

    let polled = match poll_step(cache.get_at(&key, 1600), 99) {
        PollStep::Ready(v) => v,
        _ => panic!("the response is there"),
    };
    assert_eq!(polled, stored);
    let (b, act) = proxy(&app, b, Event::Polled(Ok(polled)));
    assert!(matches!(b, Flight::Done));
    let second = match act {
        Action::Reply(reply) => reply,
        _ => panic!("the loser answers"),
    };

    assert_eq!(calls.len(), 1);
    assert_eq!(body_of(&first), (200, br#"{"a":1,"b":2}"#.to_vec()));
    assert_eq!(body_of(&second), body_of(&first));
    match (first, second) {
        (Reply::Response(x), Reply::Response(y)) => {
            assert_eq!(x, y);
            assert_eq!(x.mime, "application/json");
            assert_eq!(x.headers, vec![("date".to_string(), "now".to_string())]);
        }
        _ => panic!("both answers are responses"),
    }
}

#[test]
fn a_mask_shrinks_the_response_for_both_callers() {
    let app = app();
    let mut cache = MemoryCacher::new();
    let mut upstream = vec![json_answer(200, r#"{"a":1,"b":2}"#)];
    let mut calls = vec![];
    let headers = [
        ("idempotency-key", "k1"),
        ("x-forwarded-host", "api.example.com"),
        ("x-json-mask", "a"),
        ("response-headers", "content-type"),
    ];
    let first = drive(&app, &mut cache, &mut upstream, &mut calls, post("/foo", &headers), 1000);
    let second = drive(&app, &mut cache, &mut upstream, &mut calls, post("/foo", &headers), 1001);
    assert_eq!(calls.len(), 1);
    assert_eq!(body_of(&first), (200, br#"{"a":1}"#.to_vec()));
    assert_eq!(body_of(&second), (200, br#"{"a":1}"#.to_vec()));
    match second {
        Reply::Response(rd) => assert!(rd.headers.is_empty()),
        _ => panic!("a replay"),
    }
}

#[test]
fn a_request_without_idempotency_key_is_refused() {
    let app = app();
    let mut cache = MemoryCacher::new();
    let mut calls = vec![];
    let reply = drive(&app, &mut cache, &mut vec![], &mut calls, post("/foo", &[("x-forwarded-host", "api.example.com")]), 0);
    assert_eq!(body_of(&reply), (400, b"missing header: idempotency-key".to_vec()));
    assert!(calls.is_empty());
    assert!(cache.is_empty());

    let long = "k".repeat(257);
    let reply = drive(
        &app,
        &mut cache,
        &mut vec![],
        &mut calls,
        post("/foo", &[("x-forwarded-host", "api.example.com"), ("idempotency-key", &long)]),
        0,
    );
    assert_eq!(body_of(&reply), (400, b"invalid header: idempotency-key".to_vec()));
    let fits = "k".repeat(256);
    assert!(plan_for(
        &app,
        post("/foo", &[("x-forwarded-host", "api.example.com"), ("idempotency-key", &fits)]),
        0
    )
    .is_ok());
}

#[test]
fn urls_are_resolved_or_refused() {
    let app = app();
    let key = ("idempotency-key", "k");
    let plan = plan_for(&app, post("/URL_HTTPBIN", &[key]), 0).unwrap();
    assert_eq!(plan.request.url, "https://httpbin.org/get?api-key=abc123");
    assert_eq!(plan.key, "ANON:POST:k");

    let mut inbound = post("/v1/items", &[key, ("x-forwarded-host", "api.example.com")]);
    inbound.path_and_query = Some("/v1/items?page=2".to_string());
    assert_eq!(plan_for(&app, inbound, 0).unwrap().request.url, "https://api.example.com/v1/items?page=2");
    let mut inbound = post("/v1/items", &[key, ("x-forwarded-host", "api.example.com")]);
    inbound.path_and_query = None;
    assert_eq!(plan_for(&app, inbound, 0).unwrap().request.url, "https://api.example.com/v1/items");

    // the URL is taken in its normal form
    let plan = plan_for(&app, post("/a/../b", &[key, ("x-forwarded-host", "API.Example.com:443")]), 0).unwrap();
    assert_eq!(plan.request.url, "https://api.example.com/b");

    let refused = |inbound: Inbound| match plan_for(&app, inbound, 0) {
        Err(Reply::Failure { status, message }) => (status, message),
        _ => panic!("a refusal"),
    };
    assert_eq!(refused(post("/URL_MISSING", &[key])), (400, "invalid url: ".to_string()));
    assert_eq!(refused(post("/foo", &[key])), (400, "missing header: x-forwarded-host".to_string()));
    let (status, message) = refused(post("/foo", &[key, ("x-forwarded-host", "exa mple.com")]));
    assert_eq!(status, 400);
    assert!(!message.is_empty());

    let mut plain = self::app();
    plain.url_vars = vec![
        ("URL_PLAIN".to_string(), "http://example.com/".to_string()),
        ("URL_FTP".to_string(), "ftp://example.com/".to_string()),
    ];
    match plan_for(&plain, post("/URL_PLAIN", &[key]), 0) {
        Err(Reply::Failure { status, message }) => {
            assert_eq!((status, message.as_str()), (400, "invalid url: http://example.com/"))
        }
        _ => panic!("only HTTPS is accepted"),
    }
    match plan_for(&plain, post("/URL_FTP", &[key]), 0) {
        Err(Reply::Failure { status, message }) => {
            assert_eq!((status, message.as_str()), (400, "invalid url: ftp://example.com/"))
        }
        _ => panic!("only HTTPS is accepted"),
    }
}

#[test]
fn headers_are_rewritten_for_the_upstream() {
    let app = app();
    let inbound = post(
        "/foo",
        &[
            ("host", "proxy.local"),
            ("forwarded", "for=1.2.3.4"),
            ("authorization", "HEADER_TOKEN"),
            ("x-forwarded-for", "1.2.3.4"),
            ("x-forwarded-host", "api.example.com"),
            ("x-forwarded-proto", "https"),
            ("proxy-authorization", "Bearer x"),
            ("idempotency-key", "k"),
            ("accept", "HEADER_OTHER"),
        ],
    );
    let plan = plan_for(&app, inbound, 0).unwrap();
    assert_eq!(
        plan.request.headers,
        vec![
            ("authorization".to_string(), b"Bearer secret".to_vec()),
            ("idempotency-key".to_string(), b"k".to_vec()),
            ("accept".to_string(), b"HEADER_OTHER".to_vec()),
        ]
    );
    let mut headers = vec![("host".to_string(), b"h".to_vec()), ("x".to_string(), vec![0xff])];
    app.alter_headers(&mut headers);
    assert_eq!(headers, vec![("x".to_string(), vec![0xff])]);
}

#[test]
fn a_failed_upstream_call_clears_the_entry() {
    let app = app();
    let mut cache = MemoryCacher::new();
    let mut upstream = vec![Err("connection refused".to_string()), json_answer(200, r#"{"ok":true}"#)];
    let mut calls = vec![];
    let headers = [("idempotency-key", "k6"), ("x-forwarded-host", "api.example.com")];
    let first = drive(&app, &mut cache, &mut upstream, &mut calls, post("/pay", &headers), 1000);
    assert_eq!(body_of(&first), (500, b"connection refused".to_vec()));
    assert!(cache.is_empty());
    let second = drive(&app, &mut cache, &mut upstream, &mut calls, post("/pay", &headers), 1001);
    assert_eq!(body_of(&second), (200, br#"{"ok":true}"#.to_vec()));
    assert_eq!(calls.len(), 2);
}

#[test]
fn answers_outside_200_to_500_are_mirrored_and_not_cached() {
    let app = app();
    let headers = [("idempotency-key", "k"), ("x-forwarded-host", "api.example.com")];
    for status in [199u16, 501, 502, 599] {
        let mut cache = MemoryCacher::new();
        let mut upstream = vec![json_answer(status, "down")];
        let reply = drive(&app, &mut cache, &mut upstream, &mut vec![], post("/x", &headers), 0);
        assert!(matches!(&reply, Reply::Mirrored { .. }));
        assert_eq!(body_of(&reply), (status, b"down".to_vec()));
        assert!(cache.is_empty());
    }
    for status in [200u16, 404, 500] {
        let mut cache = MemoryCacher::new();
        let mut upstream = vec![json_answer(status, "{}")];
        let reply = drive(&app, &mut cache, &mut upstream, &mut vec![], post("/x", &headers), 0);
        assert!(matches!(&reply, Reply::Response(rd) if rd.status == status));
        assert_eq!(cache.len(), 1);
        let stored = cache.get_at("ANON:POST:k", 1).unwrap();
        assert_eq!(ResponseData::from_bytes(&stored).unwrap().status, status);
    }
}

#[test]
fn a_body_that_cannot_be_masked_clears_the_entry() {
    let app = app();
    let mut cache = MemoryCacher::new();
    let mut upstream = vec![json_answer(200, "{oops")];
    let headers = [("idempotency-key", "k"), ("x-forwarded-host", "api.example.com"), ("x-json-mask", "a")];
    let reply = drive(&app, &mut cache, &mut upstream, &mut vec![], post("/x", &headers), 0);
    assert_eq!(body_of(&reply).0, 500);
    assert!(cache.is_empty());
}

#[test]
fn a_lost_lock_is_answered_500() {
    let app = app();
    let headers = [("idempotency-key", "k"), ("x-forwarded-host", "api.example.com")];
    let (f, _) = proxy(&app, Flight::Arrived, Event::Request { inbound: post("/x", &headers), now: 0 });
    let (f, _) = proxy(&app, f, Event::Obtained(Ok(true)));
    let (f, _) = proxy(&app, f, Event::Body(Ok(vec![])));
    let (f, act) = proxy(&app, f, Event::Upstream(json_answer(200, "{}")));
    assert!(matches!(act, Action::Store { .. }));
    let (f, act) = proxy(&app, f, Event::Stored(Ok(false)));
    assert!(matches!(&act, Action::Delete { key } if key == "ANON:POST:k"));
    let (f, act) = proxy(&app, f, Event::Deleted);
    assert!(matches!(f, Flight::Done));
    assert!(matches!(act, Action::Reply(Reply::Failure { status: 500, message }) if message == "not obtained"));

    // the same after an error of the backend
    let (f, _) = proxy(&app, Flight::Arrived, Event::Request { inbound: post("/x", &headers), now: 0 });
    let (f, _) = proxy(&app, f, Event::Obtained(Ok(true)));
    let (f, _) = proxy(&app, f, Event::Body(Ok(vec![])));
    let (f, _) = proxy(&app, f, Event::Upstream(json_answer(200, "{}")));
    let (f, act) = proxy(&app, f, Event::Stored(Err(CacheError::Backend("redis gone".to_string()))));
    assert!(matches!(act, Action::Delete { .. }));
    let (_, act) = proxy(&app, f, Event::Deleted);
    assert!(matches!(act, Action::Reply(Reply::Failure { status: 500, message }) if message == "redis gone"));
}

#[test]
fn a_loser_whose_entry_disappears_or_stays_locked_fails() {
    let app = app();
    let headers = [("idempotency-key", "k"), ("x-forwarded-host", "api.example.com")];
    let polling = || {
        let (f, _) = proxy(&app, Flight::Arrived, Event::Request { inbound: post("/x", &headers), now: 0 });
        proxy(&app, f, Event::Obtained(Ok(false))).0
    };
    let (_, act) = proxy(&app, polling(), Event::Polled(Err(CacheError::NotObtained)));
    assert!(matches!(act, Action::Reply(Reply::Failure { status: 500, message }) if message == "not obtained"));
    let (_, act) = proxy(&app, polling(), Event::Polled(Err(CacheError::Timeout)));
    assert!(matches!(act, Action::Reply(Reply::Failure { status: 504, message }) if message == "polling get cache timeout"));
    let (_, act) = proxy(&app, polling(), Event::Polled(Ok(vec![0])));
    assert!(matches!(act, Action::Reply(Reply::Failure { status: 500, message }) if message == "failed to decode response data"));
    let (_, act) = proxy(&app, polling(), Event::Deleted);
    assert!(matches!(act, Action::Reply(Reply::Failure { status: 500, message }) if message == "unexpected event"));
}

#[test]
fn safe_methods_send_no_body_and_short_intervals_are_raised() {
    let mut app = app();
    app.poll_interval = 3;
    app.cache_ttl = 1000;
    let mut inbound = post("/x", &[("idempotency-key", "k"), ("x-forwarded-host", "api.example.com")]);
    inbound.method = "GET".to_string();
    let (f, act) = proxy(&app, Flight::Arrived, Event::Request { inbound, now: 0 });
    assert!(matches!(&act, Action::Obtain { key, .. } if key == "ANON:GET:k"));
    let (f, act) = proxy(&app, f, Event::Obtained(Ok(true)));
    assert!(matches!(f, Flight::Executing(_)));
    assert!(matches!(act, Action::Execute(r) if r.body.is_none() && r.method == "GET"));

    let mut inbound = post("/x", &[("idempotency-key", "k"), ("x-forwarded-host", "api.example.com")]);
    inbound.method = "GET".to_string();
    let (f, _) = proxy(&app, Flight::Arrived, Event::Request { inbound, now: 0 });
    let (_, act) = proxy(&app, f, Event::Obtained(Ok(false)));
    assert!(matches!(act, Action::PollGet { poll_interval_ms: 10, max_polls: 100, .. }));

    let inbound = post("/x", &[("idempotency-key", "k"), ("x-forwarded-host", "api.example.com")]);
    let (f, _) = proxy(&app, Flight::Arrived, Event::Request { inbound, now: 0 });
    let (_, act) = proxy(&app, f, Event::Obtained(Err(CacheError::Backend("no pool".to_string()))));
    assert!(matches!(act, Action::Reply(Reply::Failure { status: 500, message }) if message == "no pool"));

    let inbound = post("/x", &[("idempotency-key", "k"), ("x-forwarded-host", "api.example.com")]);
    let (f, _) = proxy(&app, Flight::Arrived, Event::Request { inbound, now: 0 });
    let (f, _) = proxy(&app, f, Event::Obtained(Ok(true)));
    let (f, act) = proxy(&app, f, Event::Body(Err("length limit exceeded".to_string())));
    assert!(matches!(act, Action::Delete { .. }));
    let (_, act) = proxy(&app, f, Event::Deleted);
    assert!(matches!(act, Action::Reply(Reply::Failure { status: 400, message }) if message == "length limit exceeded"));
}

#[test]
fn a_response_body_larger_than_configured_is_not_cached() {
    let mut app = app();
    app.max_response_bytes = 8;
    let headers = [("idempotency-key", "k"), ("x-forwarded-host", "api.example.com")];
    let mut cache = MemoryCacher::new();
    let mut upstream = vec![json_answer(200, "123456789"), json_answer(200, "12345678")];
    let reply = drive(&app, &mut cache, &mut upstream, &mut vec![], post("/x", &headers), 0);
    assert_eq!(body_of(&reply), (500, b"response body too large".to_vec()));
    assert!(cache.is_empty());
    let reply = drive(&app, &mut cache, &mut upstream, &mut vec![], post("/x", &headers), 0);
    assert_eq!(body_of(&reply), (200, b"12345678".to_vec()));
}

#[test]
fn an_answer_above_500_is_mirrored_whatever_its_size() {
    let mut app = app();
    app.max_response_bytes = 8;
    let headers = [("idempotency-key", "k"), ("x-forwarded-host", "api.example.com")];
    let mut cache = MemoryCacher::new();
    let mut upstream = vec![json_answer(502, "a long text of the gateway")];
    let reply = drive(&app, &mut cache, &mut upstream, &mut vec![], post("/x", &headers), 0);
    assert!(matches!(reply, Reply::Mirrored { .. }));
    assert_eq!(body_of(&reply), (502, b"a long text of the gateway".to_vec()));
    assert!(cache.is_empty());
}

#[test]
fn only_the_methods_that_read_send_no_body() {
    let app = app();
    for (method, safe) in [
        ("GET", true),
        ("HEAD", true),
        ("OPTIONS", true),
        ("TRACE", true),
        ("QUERY", true),
        ("POST", false),
        ("PUT", false),
        ("DELETE", false),
        ("PATCH", false),
        ("get", false),
    ] {
        let mut inbound =
            post("/x", &[("idempotency-key", "k"), ("x-forwarded-host", "api.example.com")]);
        inbound.method = method.to_string();
        let (f, _) = proxy(&app, Flight::Arrived, Event::Request { inbound, now: 0 });
        let (_, act) = proxy(&app, f, Event::Obtained(Ok(true)));
        assert_eq!(matches!(act, Action::Execute(_)), safe, "{method}");
        if !safe {
            assert!(matches!(act, Action::ReadBody { .. }), "{method}");
        }
    }
}
