use actix_lambda::codec::{
    fold_headers, local_url, to_outbound_request, to_response_event, Body, BridgeError,
    InvocationEvent,
};
use actix_lambda::query::decode_query_value;

fn pairs(v: &[(&str, &str)]) -> Vec<(String, String)> {
    v.iter().map(|(k, x)| (k.to_string(), x.to_string())).collect()
}

fn event(path: &str, query: &[(&str, &str)], headers: &[(&str, &str)], body: Body) -> InvocationEvent {
    InvocationEvent {
        method: "GET".to_string(),
        path: path.to_string(),
        query: pairs(query),
        headers: pairs(headers),
        body,
        is_base64_encoded: false,
    }
}

#[test]
fn query_plus_is_space() {
    assert_eq!(decode_query_value("a+b"), Some("a b".to_string()));
}

#[test]
fn query_escaped_space() {
    assert_eq!(decode_query_value("a%20b"), Some("a b".to_string()));
}

#[test]
fn query_reserved_characters() {
    assert_eq!(decode_query_value("x%26y%3D1%2F2%3F"), Some("x&y=1/2?".to_string()));
}

#[test]
fn query_escaped_plus_reads_as_space() {
    assert_eq!(decode_query_value("a%2Bb"), Some("a b".to_string()));
}

#[test]
fn query_lowercase_hex_and_stray_percent() {
    assert_eq!(decode_query_value("%2f%zz%"), Some("/%zz%".to_string()));
}

#[test]
fn query_multibyte_escape() {
    assert_eq!(decode_query_value("%E2%82%AC"), Some("\u{20ac}".to_string()));
}

#[test]
fn query_invalid_utf8_is_none() {
    assert_eq!(decode_query_value("%FF"), None);
}

#[test]
fn query_plain_value_unchanged() {
    assert_eq!(decode_query_value("plain-value_1.~"), Some("plain-value_1.~".to_string()));
}

#[test]
fn local_url_appends_path() {
    assert_eq!(local_url("/a/b?c=d"), "http://127.0.0.1:3457/a/b?c=d".to_string());
}

#[test]
fn outbound_request_copies_and_decodes() {
    let e = event(
        "/search",
        &[("q", "a+b%21"), ("lang", "en")],
        &[("accept", "text/html"), ("x-multi", "1"), ("x-multi", "2")],
        Body::Text("hello".to_string()),
    );
    let r = match to_outbound_request(&e) {
        Ok(r) => r,
        Err(_) => panic!("expected a request"),
    };
    assert_eq!(r.method, "GET");
    assert_eq!(r.url, "http://127.0.0.1:3457/search");
    assert_eq!(r.query, pairs(&[("q", "a b!"), ("lang", "en")]));
    assert_eq!(r.headers, pairs(&[("accept", "text/html"), ("x-multi", "1"), ("x-multi", "2")]));
    assert!(matches!(r.body, Body::Text(ref s) if s == "hello"));
}

#[test]
fn outbound_request_binary_and_empty_bodies() {
    let e = event("/", &[], &[], Body::Binary(vec![0, 255, 7]));
    let r = to_outbound_request(&e).ok().unwrap();
    assert!(matches!(r.body, Body::Binary(ref b) if b == &vec![0u8, 255, 7]));
    let e = event("/", &[], &[], Body::Empty);
    let r = to_outbound_request(&e).ok().unwrap();
    assert!(matches!(r.body, Body::Empty));
}

#[test]
fn outbound_request_empty_path_is_malformed() {
    let e = event("", &[], &[], Body::Empty);
    assert_eq!(to_outbound_request(&e).err(), Some(BridgeError::MalformedEvent));
}

#[test]
fn outbound_request_relative_path_is_malformed() {
    let e = event("index.html", &[], &[], Body::Empty);
    assert_eq!(to_outbound_request(&e).err(), Some(BridgeError::MalformedEvent));
}

#[test]
fn outbound_request_undecodable_query_is_malformed() {
    let e = event("/", &[("k", "%C3")], &[], Body::Empty);
    assert_eq!(to_outbound_request(&e).err(), Some(BridgeError::MalformedEvent));
}

#[test]
fn fold_headers_last_value_wins() {
    let h = pairs(&[("a", "1"), ("b", "2"), ("a", "3"), ("c", "4"), ("b", "5")]);
    assert_eq!(fold_headers(&h), pairs(&[("a", "3"), ("b", "5"), ("c", "4")]));
}

#[test]
fn fold_headers_empty() {
    assert_eq!(fold_headers(&Vec::new()), Vec::<(String, String)>::new());
}

#[test]
fn response_event_copies_status_and_body() {
    let r = to_response_event(404, &pairs(&[("content-type", "text/plain")]), "gone".to_string());
    assert_eq!(r.status_code, 404);
    assert_eq!(r.headers, pairs(&[("content-type", "text/plain")]));
    assert_eq!(r.body, "gone");
    assert!(!r.is_base64_encoded);
}

#[test]
fn redirect_is_not_followed() {
    let r = to_response_event(302, &pairs(&[("Location", "/login"), ("content-length", "0")]), String::new());
    assert_eq!(r.status_code, 302);
    assert!(r.headers.contains(&("Location".to_string(), "/login".to_string())));
    let r = to_response_event(301, &pairs(&[("Location", "https://example.com/")]), String::new());
    assert_eq!(r.status_code, 301);
    assert_eq!(r.headers, pairs(&[("Location", "https://example.com/")]));
}

#[test]
fn round_trip_keeps_status_keys_and_body() {
    let e = event(
        "/echo",
        &[],
        &[("accept", "*/*"), ("x-a", "1"), ("x-a", "2"), ("host", "h")],
        Body::Text("payload".to_string()),
    );
    let req = to_outbound_request(&e).ok().unwrap();
    let text = match &req.body {
        Body::Text(s) => s.clone(),
        _ => String::new(),
    };
    let resp = to_response_event(201, &req.headers, text);
    assert_eq!(resp.status_code, 201);
    let mut keys: Vec<String> = resp.headers.iter().map(|p| p.0.clone()).collect();
    keys.sort();
    assert_eq!(keys, vec!["accept".to_string(), "host".to_string(), "x-a".to_string()]);
    assert_eq!(resp.body, "payload");
}

#[test]
fn concrete_scenario_hello_world() {
    let e = event("/", &[], &[("content-type", "text/plain")], Body::Text("request_body".to_string()));
    let req = to_outbound_request(&e).ok().unwrap();
    assert_eq!(req.url, "http://127.0.0.1:3457/");
    assert_eq!(req.method, "GET");
    let resp = to_response_event(200, &Vec::new(), "Hello world".to_string());
    assert_eq!(resp.status_code, 200);
    assert_eq!(resp.body, "Hello world");
}

#[test]
fn only_connect_errors_are_fatal() {
    assert!(BridgeError::Connect.is_fatal());
    assert!(!BridgeError::MalformedEvent.is_fatal());
    assert!(!BridgeError::Timeout.is_fatal());
    assert!(!BridgeError::UpstreamRead.is_fatal());
}
