//! Where the clients connect, what they send, and how they read responses.
use easy_rpc::bridge_hyper;
use easy_rpc::bridge_hyper::{
    address_of, address_or_error, host_of, host_or_empty, origin_form, origin_or_slash, HyperClient,
    UriParts,
};
use easy_rpc::bridge_reqwest;
use easy_rpc::bridge_reqwest::{body_or_error, join, ReqwestTransport};
use easy_rpc::client::{check_stream_status, err_box};
use easy_rpc::incoming::{
    last_headers, request_headers, response_headers, visible_text, RawHeader,
};
use easy_rpc::outgoing::{has_name, push_lines};
use easy_rpc::protocol::{encode_error_json, ErrorDetail, Headers, Request};
use easy_rpc::server::{received_request, routed_request};

fn raw(entries: &[(&str, &[u8])]) -> Vec<RawHeader> {
    entries.iter().map(|(n, v)| RawHeader { name: n.to_string(), value: v.to_vec() }).collect()
}

fn lines(v: &[(String, String)]) -> Vec<(&str, &str)> {
    v.iter().map(|(a, b)| (a.as_str(), b.as_str())).collect()
}

fn request(url: &str, entries: &[(&str, &str)]) -> Request {
    let mut headers = Headers::new();
    for (k, v) in entries {
        headers.push(k, v);
    }
    Request { url: url.into(), method: "POST".into(), headers, body: Some(b"b".to_vec()) }
}

#[test]
fn urls_of_the_clients() {
    assert_eq!(HyperClient::new("http://h".into()).url("/p"), "http://h/p");
    let t = ReqwestTransport::new("http://h/".into());
    assert_eq!(t.url("/p"), "http://h//p");
    assert_eq!(t.url("https://other/p"), "https://other/p");
    assert_eq!(join("http://h//", "/p"), "http://h/p");
    assert_eq!(join("http://h", "http://other/p"), "http://other/p");
    assert_eq!(join("", "p"), "p");
}

#[test]
fn the_parts_of_a_url() {
    assert_eq!(host_of("http://127.0.0.1:18888/a/b?c=d"), "127.0.0.1");
    assert_eq!(host_of("/a/b"), "");
    assert_eq!(host_of("not a url"), "");
    assert_eq!(origin_form("http://127.0.0.1:18888/a/b?c=d"), "/a/b?c=d");
    assert_eq!(origin_form("http://127.0.0.1"), "/");
    assert_eq!(origin_form("example.org"), "/");
    assert_eq!(origin_form("not a url"), "not a url");
    assert_eq!(address_of("http://127.0.0.1:18888/a").unwrap(), "127.0.0.1:18888");
    assert_eq!(address_of("http://127.0.0.1/a").unwrap(), "127.0.0.1:80");
    assert_eq!(address_of("http://[::1]/a").unwrap(), "[::1]:80");
    let e = address_of("/a").unwrap_err();
    assert_eq!((e.code, e.message.as_str()), (13, "no host"));
    assert_eq!(address_of("not a url").unwrap_err().code, 13);
}

#[test]
fn parts_that_are_missing() {
    let parts = |host: Option<&str>, target: Option<&str>| UriParts {
        host: host.map(|s| s.to_string()),
        port: Some(7),
        target: target.map(|s| s.to_string()),
    };
    assert_eq!(host_or_empty(Ok(parts(Some("h"), None))), "h");
    assert_eq!(host_or_empty(Ok(parts(None, None))), "");
    assert_eq!(host_or_empty(Err("bad".into())), "");
    assert_eq!(origin_or_slash("u", Ok(parts(None, Some("/t")))), "/t");
    assert_eq!(origin_or_slash("u", Ok(parts(None, None))), "/");
    assert_eq!(origin_or_slash("u", Err("bad".into())), "u");
    assert_eq!(address_or_error(Ok(parts(Some("h"), None))).unwrap(), "h:7");
    assert_eq!(address_or_error(Err("bad".into())).unwrap_err().message, "bad");
}

#[test]
fn a_default_content_type_is_sent_only_where_there_is_none() {
    let out = bridge_hyper::unary_request(request("http://h:1/p", &[("b", "2"), ("a", "1"), ("b", "3")]));
    assert_eq!(out.method, "POST");
    assert_eq!(out.target, "/p");
    assert_eq!(out.body, b"b");
    assert_eq!(
        lines(&out.headers),
        vec![
            ("host", "h"),
            ("a", "1"),
            ("b", "2"),
            ("b", "3"),
            ("content-type", "application/proto")
        ]
    );
    let out = bridge_hyper::stream_request(request("http://h/p", &[]));
    assert_eq!(
        lines(&out.headers),
        vec![("host", "h"), ("content-type", "application/connect+proto")]
    );
    let out = bridge_hyper::unary_request(request("http://h/p", &[("Content-Type", "application/json")]));
    assert_eq!(lines(&out.headers), vec![("host", "h"), ("Content-Type", "application/json")]);
}

#[test]
fn the_pooled_client_always_sends_a_content_type() {
    let out = bridge_reqwest::unary_request("http://h/", request("/p", &[("a", "1")]));
    assert_eq!(out.target, "http://h/p");
    assert_eq!(lines(&out.headers), vec![("a", "1"), ("content-type", "application/proto")]);
    let mut req = request("/p", &[]);
    req.body = None;
    let out = bridge_reqwest::stream_request("http://h", req);
    assert_eq!(lines(&out.headers), vec![("content-type", "application/connect+proto")]);
    assert!(out.body.is_empty());
}

#[test]
fn responses_without_an_error() {
    let lines = raw(&[("X-A", b"1"), ("x-a", b"2"), ("trailer-t", b"\xc3\xa9")]);
    let r = bridge_hyper::read_response(200, &lines, b"body".to_vec());
    assert_eq!((r.status, r.body.as_slice()), (200, b"body".as_slice()));
    assert!(r.error.is_none());
    assert_eq!(r.headers.get("x-a").unwrap(), &vec!["1".to_string(), "2".into()]);
    assert_eq!(r.trailers.get("t").unwrap()[0], "\u{e9}");
    let r = bridge_reqwest::read_response(299, &lines, b"body".to_vec());
    assert!(r.error.is_none());
    assert_eq!(r.headers.get("x-a").unwrap(), &vec!["2".to_string()]);
    assert!(r.trailers.is_empty());
}

#[test]
fn responses_with_an_error_in_the_body() {
    let details = vec![ErrorDetail { type_: "t".into(), value: vec![1] }];
    let body = encode_error_json(8, "limited", &details);
    let e = bridge_hyper::read_response(429, &[], body.clone()).error.unwrap();
    assert_eq!((e.code, e.message.as_str(), e.details.len()), (8, "limited", 1));
    let e = bridge_reqwest::read_response(429, &[], body).error.unwrap();
    assert_eq!((e.code, e.message.as_str(), e.details.len()), (8, "limited", 1));
}

#[test]
fn responses_with_a_code_in_the_headers() {
    let details = vec![ErrorDetail { type_: "t".into(), value: vec![1] }];
    let body = encode_error_json(8, "limited", &details);
    let lines = raw(&[("connect-code", b"5"), ("connect-error", b"gone")]);
    let e = bridge_hyper::read_response(300, &lines, body.clone()).error.unwrap();
    assert_eq!((e.code, e.message.as_str(), e.details.len()), (5, "gone", 1));
    let lines = raw(&[("connect-code", b"-2147483648")]);
    let e = bridge_hyper::read_response(300, &lines, body.clone()).error.unwrap();
    assert_eq!((e.code, e.message.as_str()), (i32::MIN, ""));
    let lines = raw(&[("connect-code", b"2147483648")]);
    let e = bridge_hyper::read_response(300, &lines, body).error.unwrap();
    assert_eq!(e.code, 8);
}

#[test]
fn responses_with_a_bare_status() {
    for read in [bridge_hyper::read_response, bridge_reqwest::read_response] {
        let e = read(503, &[], b"bu\xffsy".to_vec()).error.unwrap();
        assert_eq!((e.code, e.message.as_str()), (14, "bu\u{fffd}sy"));
        let e = read(404, &[], b"\xc3\xa9".to_vec()).error.unwrap();
        assert_eq!((e.code, e.message.as_str()), (5, "\u{e9}"));
        assert_eq!(read(418, &[], vec![]).error.unwrap().code, 13);
    }
}

#[test]
fn bodies_that_cannot_be_read() {
    assert_eq!(body_or_error(200, Ok(vec![1])).unwrap(), vec![1]);
    let e = body_or_error(299, Err("cut".into())).unwrap_err();
    assert_eq!((e.code, e.message.as_str()), (13, "cut"));
    assert!(body_or_error(300, Err("cut".into())).unwrap().is_empty());
}

#[test]
fn streams_that_are_not_opened() {
    assert!(check_stream_status(200).is_ok());
    assert!(check_stream_status(299).is_ok());
    let e = check_stream_status(404).unwrap_err();
    assert_eq!((e.code, e.message.as_str()), (5, "http error"));
    let e = err_box("io".into());
    assert_eq!((e.code, e.message.as_str()), (13, "io"));
}

#[test]
fn header_lines_that_arrive() {
    let lines = raw(&[("X-A", b"1"), ("x-a", b"\xff"), ("b", b"a\tb ~")]);
    let h = request_headers(&lines);
    assert_eq!(h.get("x-a").unwrap(), &vec!["1".to_string(), "".into()]);
    assert_eq!(h.get("b").unwrap()[0], "a\tb ~");
    let h = response_headers(&lines);
    assert_eq!(h.get("x-a").unwrap(), &vec!["1".to_string(), "\u{fffd}".into()]);
    let h = last_headers(&raw(&[("a", b"1"), ("a", b"2"), ("a", b"\x7f")]));
    assert_eq!(h.get("a").unwrap(), &vec!["2".to_string()]);
}

#[test]
fn requests_that_arrive() {
    let lines = raw(&[("X-A", b"1"), ("X-A", b"2")]);
    let r = received_request("/u".into(), "POST".into(), &lines, vec![7]);
    assert_eq!((r.url.as_str(), r.method.as_str(), r.body), ("/u", "POST", Some(vec![7])));
    assert_eq!(r.headers.get("x-a").unwrap(), &vec!["1".to_string(), "2".into()]);
    let r = routed_request("/u".into(), "POST".into(), &lines, vec![]);
    assert_eq!(r.headers.get("X-A").unwrap(), &vec!["2".to_string()]);
}

#[test]
fn visible_text_is_what_the_http_crate_takes_for_text() {
    for b in 0..=255u8 {
        let want = http::HeaderValue::from_bytes(&[b]).ok().and_then(|v| v.to_str().ok().map(|s| s.to_string()));
        assert_eq!(visible_text(&[b]), want);
    }
    assert_eq!(visible_text(b""), Some("".to_string()));
    assert_eq!(visible_text(b"ok\x80"), None);
}

#[test]
fn headers_make_the_round_trip() {
    let mut h = Headers::new();
    h.push("b", "2");
    h.push("a", "1");
    h.push("b", "3");
    let mut out = Vec::new();
    push_lines(&mut out, &h);
    assert_eq!(lines(&out), vec![("a", "1"), ("b", "2"), ("b", "3")]);
    let arrived: Vec<RawHeader> = out
        .into_iter()
        .map(|(name, v)| RawHeader { name, value: v.into_bytes() })
        .collect();
    assert_eq!(request_headers(&arrived), h);
    assert_eq!(response_headers(&arrived), h);
    assert!(has_name(&h, "A"));
    assert!(!has_name(&h, "c"));
}
