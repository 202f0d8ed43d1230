use idempotent_proxy::agent::{HttpHeader, HttpMethod, HttpRequest, HttpResponse};
use idempotent_proxy::api::{parallel_call_cost, proxy_http_request_cost};
use idempotent_proxy::cycles::Calculator;

fn header(name: &str, value: &str) -> HttpHeader {
    HttpHeader { name: name.to_string(), value: value.to_string() }
}

fn request() -> HttpRequest {
    HttpRequest {
        url: "https://example.com/é".to_string(),
        max_response_bytes: None,
        method: HttpMethod::POST,
        headers: vec![header("idempotency-key", "k1"), header("a", "")],
        body: Some(vec![1, 2, 3]),
        transform: None,
    }
}

#[test]
fn nothing_is_charged_without_nodes() {
    let calc = Calculator { subnet_size: 0, service_fee: 100 };
    assert_eq!(calc.ingress_cost(1000), 0);
    assert_eq!(calc.http_outcall_request_cost(1000, 3), 0);
    assert_eq!(calc.http_outcall_response_cost(1000, 3), 0);
    assert_eq!(calc.count_request_bytes(&request()), 0);
    assert_eq!(calc.count_response_bytes(&HttpResponse { status: 200, headers: vec![], body: vec![1] }), 0);
}

#[test]
fn prices_follow_their_formulas() {
    let calc = Calculator { subnet_size: 13, service_fee: 100_000_000 };
    assert_eq!(calc.ingress_cost(0), 1_200_000 * 13);
    assert_eq!(calc.ingress_cost(100), (1_200_000 + 2_000 * 100) * 13);
    // 3_000_000 + 60_000 * 13 + 400 * (150 + 1000) + 1_000_000 = 5_240_000 per node
    assert_eq!(calc.http_outcall_request_cost(1000, 1), 100_000_000 + 5_240_000 * 13);
    assert_eq!(calc.http_outcall_request_cost(1000, 3), 100_000_000 + 5_240_000 * 39);
    assert_eq!(calc.http_outcall_request_cost(1000, 0), 100_000_000);
    assert_eq!(calc.http_outcall_response_cost(10_240, 1), 800 * 10_240 * 13);
    assert_eq!(calc.http_outcall_response_cost(10_240, 2), 800 * 10_240 * 26);
    assert_eq!(calc.http_outcall_response_cost(0, 2), 0);
}

#[test]
fn prices_saturate() {
    let calc = Calculator { subnet_size: u64::MAX, service_fee: u64::MAX };
    assert_eq!(calc.ingress_cost(usize::MAX), u128::MAX);
    assert_eq!(calc.http_outcall_request_cost(usize::MAX, usize::MAX), u128::MAX);
    assert_eq!(calc.http_outcall_response_cost(usize::MAX, usize::MAX), u128::MAX);
    let exact = (1_200_000u128 + 2_000 * 5) * u64::MAX as u128;
    assert_eq!(calc.ingress_cost(5), exact);
}

#[test]
fn bytes_are_counted_as_utf8() {
    let calc = Calculator { subnet_size: 1, service_fee: 0 };
    // url 22 bytes, body 3, headers (15 + 2 + 3) + (1 + 0 + 3)
    assert_eq!(calc.count_request_bytes(&request()), 22 + 3 + 20 + 4);
    let mut bare = request();
    bare.body = None;
    bare.headers.clear();
    assert_eq!(calc.count_request_bytes(&bare), 22);
    let res = HttpResponse { status: 200, headers: vec![header("date", "x")], body: vec![0; 10] };
    assert_eq!(calc.count_response_bytes(&res), 4 + 10 + 8);
}

#[test]
fn quotes_add_the_three_phases() {
    let calc = Calculator { subnet_size: 13, service_fee: 7 };
    let req = request();
    let bytes = calc.count_request_bytes(&req);
    assert_eq!(
        proxy_http_request_cost(&calc, 64, &req),
        calc.ingress_cost(64)
            + calc.http_outcall_request_cost(bytes, 1)
            + calc.http_outcall_response_cost(10_240, 1)
    );
    let mut limited = request();
    limited.max_response_bytes = Some(500);
    assert_eq!(
        parallel_call_cost(&calc, 64, &limited, 3),
        calc.ingress_cost(64)
            + calc.http_outcall_request_cost(bytes, 3)
            + calc.http_outcall_response_cost(500, 3)
    );
    let huge = Calculator { subnet_size: u64::MAX, service_fee: 0 };
    assert_eq!(parallel_call_cost(&huge, usize::MAX, &req, usize::MAX), u128::MAX);
}
