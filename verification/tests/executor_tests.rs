use anything_engine::bundler::{Payload, PayloadField};
use anything_engine::executor::{
    build_http_request, dispatch, parse_method, Dispatch, ExecError, HttpMethod,
};

fn field(key: &str, value: &str, is_text: bool) -> PayloadField {
    PayloadField { key: key.to_string(), value: value.to_string(), is_text }
}

fn http_payload() -> Payload {
    Payload {
        fields: vec![
            field("method", "POST", true),
            field("url", "http://example/hook", true),
            field("body", "hello", true),
            field("headers", "{\"x-a\":\"1\",\"x-b\":\"2\",\"n\":3}", false),
        ],
    }
}

#[test]
fn method_parsing_is_case_insensitive() {
    assert_eq!(parse_method(&"get".to_string()).unwrap(), HttpMethod::Get);
    assert_eq!(parse_method(&"GET".to_string()).unwrap(), HttpMethod::Get);
    assert_eq!(parse_method(&"gEt".to_string()).unwrap(), HttpMethod::Get);
    assert_eq!(parse_method(&"Post".to_string()).unwrap(), HttpMethod::Post);
    assert_eq!(parse_method(&"put".to_string()).unwrap(), HttpMethod::Put);
    assert_eq!(parse_method(&"DELETE".to_string()).unwrap(), HttpMethod::Delete);
}

#[test]
fn unknown_method_is_unsupported() {
    assert_eq!(parse_method(&"PATCH".to_string()).unwrap_err(), ExecError::UnsupportedMethod);
    assert_eq!(parse_method(&"".to_string()).unwrap_err(), ExecError::UnsupportedMethod);
    assert_eq!(parse_method(&"GETX".to_string()).unwrap_err(), ExecError::UnsupportedMethod);
}

#[test]
fn request_carries_url_body_and_string_headers() {
    let req = build_http_request(&http_payload()).unwrap();
    assert_eq!(req.method, HttpMethod::Post);
    assert_eq!(req.url, "http://example/hook");
    assert_eq!(req.body.as_deref(), Some("hello"));
    // the numeric header value carries no header; serde_json sorts object keys
    assert_eq!(req.headers.len(), 2);
    assert!(req.headers.contains(&("x-a".to_string(), "1".to_string())));
    assert!(req.headers.contains(&("x-b".to_string(), "2".to_string())));
}

#[test]
fn missing_url_is_missing_fields() {
    let payload = Payload { fields: vec![field("method", "GET", true)] };
    assert_eq!(build_http_request(&payload).unwrap_err(), ExecError::MissingFields);
}

#[test]
fn non_string_method_is_missing_fields() {
    let payload = Payload {
        fields: vec![field("method", "3", false), field("url", "http://e", true)],
    };
    assert_eq!(build_http_request(&payload).unwrap_err(), ExecError::MissingFields);
}

#[test]
fn unsupported_method_with_url_present() {
    let payload = Payload {
        fields: vec![field("method", "PATCH", true), field("url", "http://e", true)],
    };
    assert_eq!(build_http_request(&payload).unwrap_err(), ExecError::UnsupportedMethod);
}

#[test]
fn string_valued_headers_field_carries_no_headers() {
    let payload = Payload {
        fields: vec![
            field("method", "GET", true),
            field("url", "http://e", true),
            field("headers", "not-an-object", true),
        ],
    };
    let req = build_http_request(&payload).unwrap();
    assert!(req.headers.is_empty());
    assert!(req.body.is_none());
}

#[test]
fn http_plugin_dispatches_a_request() {
    let r = dispatch(&Some("http".to_string()), &http_payload()).unwrap();
    match r {
        Dispatch::Http(req) => assert_eq!(req.url, "http://example/hook"),
        Dispatch::NoOp => panic!("expected an http request"),
    }
}

#[test]
fn http_plugin_propagates_executor_errors() {
    let payload = Payload { fields: vec![] };
    assert_eq!(
        match dispatch(&Some("http".to_string()), &payload) {
            Err(e) => e,
            Ok(_) => panic!("expected an error"),
        },
        ExecError::MissingFields
    );
}

#[test]
fn unknown_plugin_is_a_noop_success() {
    let r = dispatch(&Some("carrier-pigeon".to_string()), &Payload { fields: vec![] }).unwrap();
    assert!(matches!(r, Dispatch::NoOp));
}

#[test]
fn absent_plugin_is_a_noop_success() {
    let r = dispatch(&None, &Payload { fields: vec![] }).unwrap();
    assert!(matches!(r, Dispatch::NoOp));
}
