use fetch_relay::base64::base64_encode;
use fetch_relay::fetch::{
    build_request, build_response, finish_request, handle_request, parse_method, status_from,
    status_text, FetchError, FetchOptions, FetchRequest, HttpResponse, Method, FETCH_TAG,
};
use fetch_relay::headers::{header_text, HeaderValue};
use fetch_relay::json::Json;

fn response(status: u16, body: &[u8]) -> HttpResponse {
    HttpResponse { status, headers: vec![], body: body.to_vec() }
}

fn text<'a>(json: &'a Json, key: &str) -> Option<&'a str> {
    json.get(key).and_then(|v| v.as_str())
}

fn flag(json: &Json, key: &str) -> Option<bool> {
    json.get(key).and_then(|v| v.as_bool())
}

#[test]
fn base64_vectors() {
    assert_eq!(base64_encode(b""), "");
    assert_eq!(base64_encode(b"f"), "Zg==");
    assert_eq!(base64_encode(b"fo"), "Zm8=");
    assert_eq!(base64_encode(b"foo"), "Zm9v");
    assert_eq!(base64_encode(b"foob"), "Zm9vYg==");
    assert_eq!(base64_encode(b"fooba"), "Zm9vYmE=");
    assert_eq!(base64_encode(b"foobar"), "Zm9vYmFy");
    assert_eq!(base64_encode(&[0xfb, 0xef, 0xff]), "++//");
    assert_eq!(base64_encode(&[0, 0, 0, 255]), "AAAA/w==");
}

#[test]
fn base64_uses_every_symbol() {
    let mut data: Vec<u8> = vec![];
    for i in 0..16u32 {
        let n = ((4 * i) << 18) | ((4 * i + 1) << 12) | ((4 * i + 2) << 6) | (4 * i + 3);
        data.extend_from_slice(&[(n >> 16) as u8, (n >> 8) as u8, n as u8]);
    }
    assert_eq!(base64_encode(&data), "ABCDEFGHIJKLMNOPQRSTUVWXYZabcdefghijklmnopqrstuvwxyz0123456789+/");
}

#[test]
fn methods_by_name() {
    assert!(matches!(parse_method("get"), Method::Get));
    assert!(matches!(parse_method("POST"), Method::Post));
    assert!(matches!(parse_method("Put"), Method::Put));
    assert!(matches!(parse_method("delete"), Method::Delete));
    assert!(matches!(parse_method("HeAd"), Method::Head));
    assert!(matches!(parse_method("patch"), Method::Patch));
    assert!(matches!(parse_method("options"), Method::Options));
    assert!(matches!(parse_method("connect"), Method::Connect));
    assert!(matches!(parse_method("trace"), Method::Trace));
    match parse_method("purge\u{e9}") {
        Method::Other(name) => assert_eq!(name, "PURGE\u{e9}"),
        _ => panic!(),
    }
    match parse_method("") {
        Method::Other(name) => assert_eq!(name, ""),
        _ => panic!(),
    }
}

#[test]
fn status_texts() {
    let known = [
        (200, "OK"),
        (201, "Created"),
        (204, "No Content"),
        (301, "Moved Permanently"),
        (302, "Found"),
        (304, "Not Modified"),
        (400, "Bad Request"),
        (401, "Unauthorized"),
        (403, "Forbidden"),
        (404, "Not Found"),
        (500, "Internal Server Error"),
        (502, "Bad Gateway"),
        (503, "Service Unavailable"),
        (418, ""),
        (0, ""),
    ];
    for (status, expected) in known {
        assert_eq!(status_text(status), expected);
    }
}

#[test]
fn status_is_read_out_of_an_answer() {
    let with = |v: Json| Json::Object(vec![("status".to_string(), v)]);
    assert_eq!(status_from(&with(Json::Integer(404))), 404);
    assert_eq!(status_from(&with(Json::Integer(0x1_0000 + 7))), 7);
    assert_eq!(status_from(&with(Json::Integer(-1))), 0);
    assert_eq!(status_from(&with(Json::Text("200".to_string()))), 0);
    assert_eq!(status_from(&Json::Null), 0);
}

#[test]
fn requests_default_to_get() {
    let plan = handle_request(FetchRequest { id: None, url: "http://a/".to_string(), options: None });
    assert!(plan.id.is_none());
    assert_eq!(plan.method, "GET");
    assert!(!plan.raw);
    assert!(matches!(plan.request.method, Method::Get));
    assert_eq!(plan.request.url, "http://a/");
    assert!(plan.request.headers.is_empty());
    assert!(plan.request.body.is_none());
    let default = FetchOptions::default();
    assert!(default.method.is_none() && default.headers.is_none() && default.body.is_none() && default.raw.is_none());
}

#[test]
fn request_options_are_taken_over() {
    let plan = handle_request(FetchRequest {
        id: Some("7".to_string()),
        url: "http://a/".to_string(),
        options: Some(FetchOptions {
            method: Some("post".to_string()),
            headers: Some(vec![
                ("X-Count".to_string(), HeaderValue::Other(serde_json::Value::from(3))),
                ("bad name".to_string(), HeaderValue::Text("x".to_string())),
                ("Accept".to_string(), HeaderValue::Text("*/*".to_string())),
                ("".to_string(), HeaderValue::Text("x".to_string())),
                ("X-List".to_string(), HeaderValue::Other(serde_json::Value::from(vec!["a", "b"]))),
            ]),
            body: Some("h\u{e9}".to_string()),
            raw: Some(true),
        }),
    });
    assert_eq!(plan.id.as_deref(), Some("7"));
    assert_eq!(plan.method, "POST");
    assert!(plan.raw);
    assert!(matches!(plan.request.method, Method::Post));
    let expected = [("x-count", "3"), ("accept", "*/*"), ("x-list", "[\"a\",\"b\"]")];
    assert_eq!(plan.request.headers.len(), 3);
    for (i, (name, value)) in expected.iter().enumerate() {
        assert_eq!(plan.request.headers[i].0, *name);
        assert_eq!(plan.request.headers[i].1, *value);
    }
    assert_eq!(plan.request.body, Some(vec![0x68, 0xc3, 0xa9]));
}

#[test]
fn header_names_by_character_and_length() {
    for code in 0..=255u8 {
        let c = code as char;
        let allowed = c.is_ascii_alphanumeric() || "!#$%&'*+-.^_`|~".contains(c);
        let request = build_request("GET", "u", Some(vec![(format!("X{}", c), HeaderValue::Text("v".to_string()))]), None);
        if allowed {
            assert_eq!(request.headers[0].0, format!("x{}", c.to_ascii_lowercase()));
        } else {
            assert!(request.headers.is_empty());
        }
    }
    for (len, allowed) in [(1, true), (64, true), (65, true), (65535, true), (65536, false)] {
        let request = build_request("GET", "u", Some(vec![("A".repeat(len), HeaderValue::Text("v".to_string()))]), None);
        assert_eq!(request.headers.len(), if allowed { 1 } else { 0 });
        if allowed {
            assert_eq!(request.headers[0].0, "a".repeat(len));
        }
    }
}

#[test]
fn header_values_are_text_or_nothing() {
    assert_eq!(header_text(&b"text/html; q=1\t~".to_vec()), "text/html; q=1\t~");
    assert_eq!(header_text(&vec![b'a', 0x80]), "");
    assert_eq!(header_text(&vec![b'a', 0x7f]), "");
    assert_eq!(header_text(&vec![b'a', 0x1f]), "");
    assert_eq!(header_text(&vec![]), "");
}

#[test]
fn responses_in_text_and_in_base64() {
    let plain = build_response(&response(200, "h\u{e9}llo".as_bytes()), false);
    assert_eq!(flag(&plain, "ok"), Some(true));
    assert_eq!(plain.get("status").unwrap().as_u64(), Some(200));
    assert_eq!(text(&plain, "statusText"), Some("OK"));
    assert_eq!(text(&plain, "body"), Some("h\u{e9}llo"));
    assert_eq!(flag(&plain, "raw"), Some(false));

    let asked = build_response(&response(200, b"foo"), true);
    assert_eq!(text(&asked, "body"), Some("Zm9v"));
    assert_eq!(flag(&asked, "raw"), Some(true));

    let binary = build_response(&response(200, &[0xff, 0xfe]), false);
    assert_eq!(text(&binary, "body"), Some("//4="));
    assert_eq!(flag(&binary, "raw"), Some(true));
}

#[test]
fn only_the_two_hundreds_are_in_order() {
    for (status, ok) in [(199, false), (200, true), (299, true), (300, false), (404, false)] {
        assert_eq!(flag(&build_response(&response(status, b""), false), "ok"), Some(ok));
    }
}

#[test]
fn response_headers_by_name() {
    let answer = build_response(&HttpResponse {
        status: 200,
        headers: vec![
            ("set-cookie".to_string(), b"a=1".to_vec()),
            ("etag".to_string(), vec![0xff]),
            ("set-cookie".to_string(), b"b=2".to_vec()),
        ],
        body: vec![],
    }, false);
    let headers = answer.get("headers").unwrap();
    assert_eq!(text(headers, "set-cookie"), Some("b=2"));
    assert_eq!(text(headers, "etag"), Some(""));
    assert!(headers.get("missing").is_none());
    assert!(matches!(headers, Json::Object(entries) if entries.len() == 2));
}

#[test]
fn a_response_is_answered_and_noted() {
    let result = finish_request(Some("id-1".to_string()), false, Ok(response(404, b"gone")));
    assert!(result.success);
    assert_eq!(result.note, "HTTP 404");
    assert_eq!(result.message.tag, FETCH_TAG);
    assert_eq!(result.message.tag, "fetch");
    assert_eq!(text(&result.message.body, "id"), Some("id-1"));
    let resp = result.message.body.get("resp").unwrap();
    assert_eq!(flag(resp, "ok"), Some(false));
    assert_eq!(text(resp, "body"), Some("gone"));
    assert_eq!(status_from(resp), 404);
    assert_eq!(finish_request(None, false, Ok(response(0, b""))).note, "HTTP 0");
    assert_eq!(finish_request(None, false, Ok(response(65535, b""))).note, "HTTP 65535");
}

#[test]
fn a_failure_is_answered_and_noted() {
    let result = finish_request(None, true, Err(FetchError::Send("no route".to_string())));
    assert!(!result.success);
    assert_eq!(result.note, "send failed: no route");
    assert!(result.message.body.get("id").is_none());
    let resp = result.message.body.get("resp").unwrap();
    assert_eq!(flag(resp, "ok"), Some(false));
    assert_eq!(resp.get("status").unwrap().as_u64(), Some(0));
    assert_eq!(text(resp, "statusText"), Some("send failed: no route"));
    assert_eq!(text(resp, "body"), Some(""));
    assert_eq!(flag(resp, "raw"), Some(false));
    assert!(matches!(resp.get("headers"), Some(Json::Object(entries)) if entries.is_empty()));
    let read = finish_request(None, false, Err(FetchError::ReadBody("cut".to_string())));
    assert_eq!(read.note, "read body failed: cut");
}
