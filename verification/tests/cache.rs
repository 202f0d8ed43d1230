use idempotent_proxy::cache::{CodecError, ResponseData};

fn raw(headers: &http::HeaderMap) -> Vec<(String, Vec<u8>)> {
    headers.iter().map(|(k, v)| (k.as_str().to_string(), v.as_bytes().to_vec())).collect()
}

fn upstream_headers(content_type: &str) -> Vec<(String, Vec<u8>)> {
    let mut headers = http::HeaderMap::new();
    headers.insert("Date", "Wed, 22 May 2024 11:11:17 GMT".parse().unwrap());
    headers.insert("Content-Length", "123".parse().unwrap());
    headers.insert("Content-Type", content_type.parse().unwrap());
    raw(&headers)
}

fn hex(data: &[u8]) -> String {
    data.iter().map(|b| format!("{:02x}", b)).collect()
}

#[test]
fn test_response_data() {
    let mut rd = ResponseData::new(200);
    rd.headers.push(("accept".to_string(), "application/json".to_string()));
    rd.body.extend_from_slice(b"Hello, World!");
    let data = rd.to_bytes().unwrap();
    let rd2 = ResponseData::try_from(data.as_slice()).unwrap();
    assert_eq!(rd2, rd);
    println!("rd: {}", hex(&data));

    let mut rd = ResponseData::new(200);
    let headers = upstream_headers("application/json");
    rd.with_headers(&headers, "date, content-type, Content-Length");
    assert_eq!(rd.mime, "application/json");
    assert_eq!(
        rd.headers,
        vec![("date".to_string(), "Wed, 22 May 2024 11:11:17 GMT".to_string())]
    )
}

fn httpbin_json() -> Vec<u8> {
    let mut args = serde_json::Map::new();
    args.insert("api-key".to_string(), serde_json::Value::from("abc123"));
    let mut headers = serde_json::Map::new();
    headers.insert("Accept".to_string(), serde_json::Value::from("*/*"));
    let mut body = serde_json::Map::new();
    body.insert("args".to_string(), serde_json::Value::Object(args));
    body.insert("headers".to_string(), serde_json::Value::Object(headers));
    body.insert("origin".to_string(), serde_json::Value::from("120.204.60.218"));
    body.insert("url".to_string(), serde_json::Value::from("https://httpbin.org/get?api-key=abc123"));
    serde_json::to_vec(&serde_json::Value::Object(body)).unwrap()
}

#[test]
fn test_response_data_in_json() {
    let mut rd = ResponseData::new(200);
    let headers = upstream_headers("application/json");
    rd.with_headers(&headers, "date, content-type, Content-Length");
    assert_eq!(rd.mime, "application/json");

    rd.with_body(httpbin_json().as_slice(), "args,url,Origin").unwrap();
    assert_eq!(
        rd.body.as_slice(),
        r#"{"args":{"api-key":"abc123"},"url":"https://httpbin.org/get?api-key=abc123"}"#.as_bytes()
    );
}

fn text(s: &str) -> ciborium::Value {
    ciborium::Value::Text(s.to_string())
}

#[test]
fn test_response_data_in_cbor() {
    let mut rd = ResponseData::new(200);
    let headers = upstream_headers("application/cbor");
    rd.with_headers(&headers, "date, content-type, Content-Length");
    assert_eq!(rd.mime, "application/cbor");
    let args = ciborium::Value::Map(vec![(text("api-key"), text("abc123"))]);
    let body = ciborium::Value::Map(vec![
        (text("args"), args.clone()),
        (text("headers"), ciborium::Value::Map(vec![(text("Accept"), text("*/*"))])),
        (text("origin"), text("120.204.60.218")),
        (text("url"), text("https://httpbin.org/get?api-key=abc123")),
    ]);
    let mut buf = Vec::new();
    ciborium::into_writer(&body, &mut buf).unwrap();
    rd.with_body(&buf, "args,url,Origin").unwrap();

    let body = ciborium::Value::Map(vec![
        (text("args"), args),
        (text("url"), text("https://httpbin.org/get?api-key=abc123")),
    ]);
    buf.clear();
    ciborium::into_writer(&body, &mut buf).unwrap();
    assert_eq!(rd.body.as_slice(), buf.as_slice());
}

#[test]
fn binary_form_is_a_map_of_four_entries() {
    let mut rd = ResponseData::new(200);
    rd.headers.push(("accept".to_string(), "application/json".to_string()));
    rd.body.extend_from_slice(b"Hello, World!");
    let data = rd.to_bytes().unwrap();
    assert_eq!(
        hex(&data),
        "a46673746174757318c867686561646572738182666163636570747061\
         70706c69636174696f6e2f6a736f6e64626f64794d48656c6c6f2c2057\
         6f726c6421646d696d656a746578742f706c61696e"
    );
    assert!(data.len() > 1);
    let value: ciborium::Value = ciborium::from_reader(data.as_slice()).unwrap();
    let entries = value.into_map().unwrap();
    let keys: Vec<&str> = entries.iter().map(|e| e.0.as_text().unwrap()).collect();
    assert_eq!(keys, vec!["status", "headers", "body", "mime"]);
}

#[test]
fn binary_form_round_trips_and_rejects_other_bytes() {
    let mut rd = ResponseData::default();
    assert_eq!(rd.status, 200);
    assert_eq!(rd.mime, "text/plain");
    rd.status = 404;
    rd.headers.push(("x-a".to_string(), "1".to_string()));
    rd.headers.push(("x-a".to_string(), "2".to_string()));
    rd.mime = "application/json; charset=utf-8".to_string();
    rd.body = vec![0, 255, 10];
    let data = rd.to_bytes().unwrap();
    assert_eq!(ResponseData::from_bytes(&data).unwrap(), rd);
    assert_eq!(rd.clone(), rd);

    for bad in [&b""[..], &[0u8][..], b"junk", &[0xa0][..], &[0x83, 1, 2, 3][..]] {
        let err = ResponseData::try_from(bad).unwrap_err();
        assert!(matches!(err, CodecError::Response));
        assert_eq!(err.message(), "failed to decode response data");
    }
    // a status that is no 16-bit integer
    let mut data = Vec::new();
    let value = ciborium::Value::Map(vec![
        (text("status"), ciborium::Value::Integer(70000.into())),
        (text("headers"), ciborium::Value::Array(vec![])),
        (text("body"), ciborium::Value::Bytes(vec![])),
        (text("mime"), text("text/plain")),
    ]);
    ciborium::into_writer(&value, &mut data).unwrap();
    assert!(ResponseData::from_bytes(&data).is_err());
}

#[test]
fn headers_are_filtered_without_regard_to_case() {
    let headers = vec![
        ("date".to_string(), b"today".to_vec()),
        ("x-request-id".to_string(), b"7".to_vec()),
        ("content-length".to_string(), b"123".to_vec()),
        ("server".to_string(), vec![0xff, 0xfe]),
        ("content-type".to_string(), b"text/html".to_vec()),
        ("etag".to_string(), b"\"a\tb\"".to_vec()),
    ];
    let mut all = ResponseData::new(200);
    all.with_headers(&headers, "");
    assert_eq!(all.mime, "text/html");
    assert_eq!(
        all.headers,
        vec![
            ("date".to_string(), "today".to_string()),
            ("x-request-id".to_string(), "7".to_string()),
            ("etag".to_string(), "\"a\tb\"".to_string()),
        ]
    );
    let mut some = ResponseData::new(200);
    some.with_headers(&headers, "ETag , X-Request-ID");
    assert_eq!(
        some.headers,
        vec![("x-request-id".to_string(), "7".to_string()), ("etag".to_string(), "\"a\tb\"".to_string())]
    );
}

#[test]
fn json_mask_keeps_the_order_of_the_mask() {
    let mut rd = ResponseData::new(200);
    rd.mime = "application/json".to_string();
    rd.with_body(br#"{"a":1,"b":2,"c":[1.5,"x"]}"#, "c, a ,c,zz").unwrap();
    assert_eq!(rd.body, br#"{"c":[1.5,"x"],"a":1}"#);
}

#[test]
fn json_mask_applied_twice_gives_the_same_bytes() {
    let upstream = r#"{ "b" : {"k": [1, 2.50, null]}, "a": "é", "z": true }"#.as_bytes();
    let mut once = ResponseData::new(200);
    once.mime = "application/json".to_string();
    once.with_body(upstream, "a,b,missing").unwrap();
    let mut twice = ResponseData::new(200);
    twice.mime = "application/json".to_string();
    twice.with_body(&once.body, "a,b,missing").unwrap();
    assert_eq!(twice.body, once.body);
    assert_eq!(once.body, r#"{"a":"é","b":{"k":[1,2.5,null]}}"#.as_bytes());
}

#[test]
fn json_mask_on_what_is_no_object() {
    let mut rd = ResponseData::new(200);
    rd.mime = "application/json".to_string();
    rd.with_body(b"[1,2]", "a").unwrap();
    assert_eq!(rd.body, b"{}");

    let mut rd = ResponseData::new(200);
    rd.mime = "application/json".to_string();
    rd.body = b"kept".to_vec();
    let err = rd.with_body(b"{not json", "a").unwrap_err();
    assert!(matches!(err, CodecError::Json(_)));
    assert!(!err.message().is_empty());
    assert_eq!(rd.body, b"kept");
}

#[test]
fn body_is_kept_verbatim_without_mask_or_with_a_late_status() {
    let body = br#"{"a":1,"b":2}"#;
    let mut rd = ResponseData::new(200);
    rd.mime = "application/json".to_string();
    rd.with_body(body, " , ").unwrap();
    assert_eq!(rd.body, body);

    let mut rd = ResponseData::new(300);
    rd.mime = "application/json".to_string();
    rd.with_body(body, "a").unwrap();
    assert_eq!(rd.body, body);

    let mut rd = ResponseData::new(299);
    rd.mime = "application/json".to_string();
    rd.with_body(body, "a").unwrap();
    assert_eq!(rd.body, br#"{"a":1}"#);

    let mut rd = ResponseData::new(200);
    rd.mime = "text/html".to_string();
    rd.body = b"<".to_vec();
    rd.with_body(b"html>", "a").unwrap();
    assert_eq!(rd.body, b"<html>");
}

#[test]
fn cbor_mask_keeps_text_keys_of_the_mask_in_their_order() {
    let body = ciborium::Value::Map(vec![
        (text("b"), ciborium::Value::Float(1.5)),
        (ciborium::Value::Integer(1.into()), text("int key")),
        (text("a"), ciborium::Value::Integer((-7).into())),
        (text("c"), ciborium::Value::Bool(true)),
    ]);
    let mut buf = Vec::new();
    ciborium::into_writer(&body, &mut buf).unwrap();
    let mut rd = ResponseData::new(200);
    rd.mime = "application/cbor".to_string();
    rd.with_body(&buf, "a,b,1").unwrap();
    let expected = ciborium::Value::Map(vec![
        (text("b"), ciborium::Value::Float(1.5)),
        (text("a"), ciborium::Value::Integer((-7).into())),
    ]);
    let mut want = Vec::new();
    ciborium::into_writer(&expected, &mut want).unwrap();
    assert_eq!(rd.body, want);

    // what is no map becomes the empty map; what is no CBOR is an error
    let mut rd = ResponseData::new(200);
    rd.mime = "application/cbor".to_string();
    rd.with_body(&[0x83, 1, 2, 3], "a").unwrap();
    assert_eq!(rd.body, vec![0xa0]);
    let mut rd = ResponseData::new(200);
    rd.mime = "application/cbor".to_string();
    let err = rd.with_body(&[0x83, 1], "a").unwrap_err();
    assert!(matches!(err, CodecError::Cbor));
    assert_eq!(err.message(), "failed to decode CBOR data");
}

#[test]
fn emission_appends_type_and_length() {
    let mut rd = ResponseData::new(201);
    rd.headers.push(("date".to_string(), "today".to_string()));
    rd.headers.push(("content-type".to_string(), "stale".to_string()));
    rd.mime = "application/json".to_string();
    rd.body = vec![b'x'; 1234];
    let (status, headers) = rd.into_response_parts();
    assert_eq!(status, 201);
    assert_eq!(
        headers,
        vec![
            ("date".to_string(), "today".to_string()),
            ("content-type".to_string(), "application/json".to_string()),
            ("content-length".to_string(), "1234".to_string()),
        ]
    );
    let mut odd = ResponseData::new(42);
    odd.body.clear();
    let (status, headers) = odd.into_response_parts();
    assert_eq!(status, 200);
    assert_eq!(headers.last().unwrap().1, "0");
    assert_eq!(ResponseData::new(999).into_response_parts().0, 999);
    assert_eq!(ResponseData::new(1000).into_response_parts().0, 200);
}

#[test]
fn a_cbor_value_that_is_not_read_back_is_a_fault_only_where_it_is_kept() {
    // {"a": tag 3 over a byte string of indefinite length that holds sixteen 0xff}
    let mut body = vec![0xa1, 0x61, b'a', 0xc3, 0x5f, 0x50];
    body.extend([0xffu8; 16]);
    body.push(0xff);
    assert!(ciborium::from_reader::<ciborium::Value, _>(body.as_slice()).is_ok());

    let mut rd = ResponseData::new(200);
    rd.mime = "application/cbor".to_string();
    rd.body = b"kept".to_vec();
    let err = rd.with_body(&body, "a").unwrap_err();
    assert!(matches!(err, CodecError::Cbor));
    assert_eq!(rd.body, b"kept".to_vec());

    // the mask does not name the entry: it is dropped unread
    let mut rd = ResponseData::new(200);
    rd.mime = "application/cbor".to_string();
    rd.with_body(&body, "b").unwrap();
    assert_eq!(rd.body, vec![0xa0]);

    // a value that is read back as another item is written as it was read back
    let body = [0xa1, 0x61, b'a', 0xc2, 0x5f, 0x41, 0x01, 0xff];
    let mut rd = ResponseData::new(200);
    rd.mime = "application/cbor".to_string();
    rd.with_body(&body, "a").unwrap();
    assert_eq!(rd.body, vec![0xa1, 0x61, b'a', 0x01]);
}

#[test]
fn a_stored_response_with_an_unreadable_part_is_refused() {
    // the entry "mime" holds a tagged value that is not read back
    let rd = ResponseData::new(200);
    let good = rd.encode();
    assert!(ResponseData::from_bytes(&good).is_ok());
    let mut bad = vec![0xa1, 0x64, b'm', b'i', b'm', b'e', 0xc3, 0x5f, 0x50];
    bad.extend([0xffu8; 16]);
    bad.push(0xff);
    assert!(matches!(ResponseData::from_bytes(&bad), Err(CodecError::Response)));
}
