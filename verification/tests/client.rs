use wasmedge_hyper_demo::body::{byte_string, collect_body, response_text, BodyCollector, Frame};
use wasmedge_hyper_demo::uri::{
    is_http, parse_target, plan_from_text, port_or_default, socket_address, HttpVerb, PlanError,
};
use wasmedge_hyper_demo::TokioIo;

#[test]
fn tokio_io_gives_back_inner() {
    let io = TokioIo::new(vec![1u8, 2, 3]);
    assert_eq!(io.inner(), vec![1u8, 2, 3]);
}

#[test]
fn plans_plain_get() {
    let plan = plan_from_text("http://eu.httpbin.org/get?msg=Hello", HttpVerb::Get, 80, Vec::new())
        .unwrap_or_else(|_| panic!("plan refused"));
    assert_eq!(plan.address, "eu.httpbin.org:80");
    assert_eq!(plan.host_header, "eu.httpbin.org");
    assert_eq!(plan.uri, "http://eu.httpbin.org/get?msg=Hello");
    assert_eq!(plan.method, HttpVerb::Get);
    assert!(plan.body.is_empty());
}

#[test]
fn plans_post_with_body() {
    let plan = plan_from_text(
        "http://eu.httpbin.org/post",
        HttpVerb::Post,
        80,
        b"hello wasmedge".to_vec(),
    )
    .unwrap_or_else(|_| panic!("plan refused"));
    assert_eq!(plan.method, HttpVerb::Post);
    assert_eq!(plan.body, b"hello wasmedge".to_vec());
    assert_eq!(plan.address, "eu.httpbin.org:80");
}

#[test]
fn https_defaults_to_443() {
    let plan = plan_from_text("https://httpbin.org/get?msg=WasmEdge", HttpVerb::Get, 443, Vec::new())
        .unwrap_or_else(|_| panic!("plan refused"));
    assert_eq!(plan.address, "httpbin.org:443");
    assert_eq!(plan.host_header, "httpbin.org");
}

#[test]
fn explicit_port_wins() {
    let plan = plan_from_text("http://example.org:8080/x", HttpVerb::Get, 80, Vec::new())
        .unwrap_or_else(|_| panic!("plan refused"));
    assert_eq!(plan.address, "example.org:8080");
    assert_eq!(plan.host_header, "example.org:8080");
}

#[test]
fn relative_uri_has_no_host() {
    assert!(matches!(
        plan_from_text("/get?msg=Hello", HttpVerb::Get, 80, Vec::new()),
        Err(PlanError::MissingHost)
    ));
}

#[test]
fn invalid_uri_is_refused() {
    assert!(matches!(
        plan_from_text("http://exa mple.org/", HttpVerb::Get, 80, Vec::new()),
        Err(PlanError::InvalidUri)
    ));
}

#[test]
fn scheme_check() {
    let http = parse_target("http://eu.httpbin.org/get").unwrap();
    assert!(is_http(&http));
    assert_eq!(http.scheme.as_deref(), Some("http"));
    assert_eq!(http.host.as_deref(), Some("eu.httpbin.org"));
    assert_eq!(http.port, None);
    let https = parse_target("https://httpbin.org:8443/get").unwrap();
    assert!(!is_http(&https));
    assert_eq!(https.port, Some(8443));
    assert_eq!(https.authority.as_deref(), Some("httpbin.org:8443"));
    let relative = parse_target("/get").unwrap();
    assert!(!is_http(&relative));
    assert_eq!(relative.host, None);
}

#[test]
fn port_default() {
    assert_eq!(port_or_default(Some(8080), 80), 8080);
    assert_eq!(port_or_default(None, 80), 80);
    assert_eq!(port_or_default(None, 443), 443);
}

#[test]
fn address_formatting() {
    assert_eq!(socket_address("localhost", 0), "localhost:0");
    assert_eq!(socket_address("a.b", 65535), "a.b:65535");
    assert_eq!(socket_address("[::1]", 443), "[::1]:443");
}

#[test]
fn body_frames_in_order() {
    let frames = vec![
        Frame::Data(b"hel".to_vec()),
        Frame::Trailers,
        Frame::Data(Vec::new()),
        Frame::Data(b"lo".to_vec()),
    ];
    assert_eq!(collect_body(frames), b"hello".to_vec());
    assert_eq!(collect_body(Vec::new()), Vec::<u8>::new());
}

#[test]
fn body_collector_streaming() {
    let mut c = BodyCollector::new();
    c.push_frame(Frame::Data(b"{\"a\":".to_vec()));
    c.push_frame(Frame::Data(b"1}".to_vec()));
    c.push_frame(Frame::Trailers);
    assert_eq!(c.into_bytes(), b"{\"a\":1}".to_vec());
}

#[test]
fn body_text_decoding() {
    assert_eq!(response_text(b"hello wasmedge"), "hello wasmedge");
    assert_eq!(response_text("h\u{e9}".as_bytes()), "h\u{e9}");
    assert_eq!(response_text(&[b'a', 0xff, b'b']), "a\u{fffd}b");
}

#[test]
fn tokio_io_rewrap_is_same() {
    let io = TokioIo::new(String::from("stream"));
    let again = TokioIo::new(io.inner());
    assert_eq!(again.inner(), "stream");
}

#[test]
fn byte_string_matches_bytes_debug() {
    let samples: Vec<Vec<u8>> = vec![
        Vec::new(),
        b"{\n  \"args\": {\n    \"msg\": \"Hello\"\n  }\n}\n".to_vec(),
        vec![0, 9, 10, 13, 31, 32, 34, 39, 92, 126, 127, 128, 200, 255],
        "h\u{e9}".as_bytes().to_vec(),
    ];
    for s in samples {
        assert_eq!(byte_string(&s), format!("{:?}", bytes::Bytes::from(s.clone())));
    }
    assert_eq!(byte_string(b""), "b\"\"");
    assert_eq!(byte_string(b"a\"b\n"), "b\"a\\\"b\\n\"");
    assert_eq!(byte_string(&[0x7f, 0x0a]), "b\"\\x7f\\n\"");
}
