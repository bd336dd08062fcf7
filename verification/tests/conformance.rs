//! The conformance services: what their methods answer.
use easy_rpc::conformance;
use easy_rpc::conformance_official as official;
use easy_rpc::conformance_official::{
    AnyMessage, ErrorDefinition, HeaderEntry, StreamDefinition, UnaryDefinition, UnaryResponse,
};
use easy_rpc::protocol::{url_for, HandlerContext, Headers};

fn context() -> HandlerContext {
    HandlerContext::new(Headers::new())
}

fn entry(name: &str, values: &[&str]) -> HeaderEntry {
    HeaderEntry { name: name.into(), value: values.iter().map(|v| v.to_string()).collect() }
}

#[test]
fn paths_of_methods() {
    assert_eq!(url_for("p.v1", "Svc", "Do"), "/p.v1.Svc/Do");
    let specs = conformance::method_specs();
    assert_eq!(specs[1].path, "/easyrpc.conformance.v1.ConformanceService/Echo");
    assert_eq!(specs.iter().filter(|m| m.server_stream).count(), 5);
    let mut names: Vec<&str> = specs.iter().map(|m| m.name.as_str()).collect();
    names.sort();
    names.dedup();
    assert_eq!(names.len(), 15);
    assert!(specs.iter().all(|m| m.http_method == "POST" && !m.client_stream));
    let specs = official::method_specs();
    assert_eq!(specs.len(), 6);
    assert_eq!(specs[0].path, "/connectrpc.conformance.v1.ConformanceService/Unary");
    assert!(specs[3].client_stream && specs[3].server_stream);
}

#[test]
fn answers_of_the_unary_methods() {
    assert_eq!(conformance::health(), (true, "conformance".to_string()));
    assert_eq!(conformance::echo("hi"), "echo:hi");
    assert!(conformance::fail("").unwrap());
    let e = conformance::fail("bad").unwrap_err();
    assert_eq!((e.code, e.message.as_str()), (3, "bad"));
    let e = conformance::fail_details(8, "m", "t", "\u{e9}");
    assert_eq!((e.code, e.details[0].type_.as_str()), (8, "t"));
    assert_eq!(e.details[0].value, "\u{e9}".as_bytes());
    let mut ctx = context();
    assert_eq!(conformance::echo_trailer(&mut ctx, "x"), "trailer:x");
    assert_eq!(ctx.trailers().get("x-trl").unwrap()[0], "unary-x");
}

#[test]
fn metadata_that_is_echoed() {
    let mut h = Headers::new();
    assert!(conformance::echo_meta(&h).is_empty());
    h.push("authorization", "a");
    h.push("x-test", "1");
    h.push("x-test", "2");
    h.push("x-other", "3");
    assert_eq!(
        conformance::echo_meta(&h),
        vec![("x-test".to_string(), "1".to_string()), ("authorization".into(), "a".into())]
    );
}

#[test]
fn sleeping_honors_the_deadline() {
    let with = |v: &str| {
        let mut h = Headers::new();
        h.set("connect-timeout-ms", v);
        h
    };
    let p = conformance::sleep(&Headers::new(), 70);
    assert_eq!((p.wait_ms, p.outcome.unwrap()), (70, true));
    let p = conformance::sleep(&with("50"), 70);
    assert_eq!(p.wait_ms, 50);
    assert_eq!(p.outcome.unwrap_err().code, 4);
    assert!(conformance::sleep(&with("70"), 70).outcome.is_ok());
    assert!(conformance::sleep(&with("x"), 70).outcome.is_ok());
    assert!(conformance::sleep(&with("-1"), 70).outcome.is_ok());
    assert_eq!(conformance::sleep(&with("1"), -5).wait_ms, 0);
}

#[test]
fn lengths_of_streams() {
    assert_eq!(conformance::stream_length(5), 5);
    assert_eq!(conformance::stream_length(0), 3);
    assert_eq!(conformance::stream_length(-1), 3);
    assert_eq!(conformance::stream_indexes(5), vec![0, 1, 2, 3, 4]);
    assert_eq!(conformance::stream_indexes(-1), vec![0, 1, 2]);
    assert_eq!(conformance::indexes_before_failure(2), vec![0, 1]);
    assert!(conformance::indexes_before_failure(-2).is_empty());
    let mut ctx = context();
    conformance::count_trailer(&mut ctx);
    assert_eq!(ctx.trailers().get("x-ctrailer").unwrap()[0], "done");
}

#[test]
fn what_a_call_was_made_with() {
    let mut h = Headers::new();
    h.push("b", "1");
    h.push("b", "2");
    h.push("a", "3");
    h.push("connect-timeout-ms", " 250 ");
    let any = official::request_any(vec![1], "UnaryRequest");
    assert_eq!(any.type_url, "type.googleapis.com/connectrpc.conformance.v1.UnaryRequest");
    let info = official::make_request_info(&h, vec![any]);
    let got: Vec<(&str, usize)> =
        info.request_headers.iter().map(|e| (e.name.as_str(), e.value.len())).collect();
    assert_eq!(got, vec![("a", 1), ("b", 2), ("connect-timeout-ms", 1)]);
    assert_eq!(info.timeout_ms, Some(250));
    assert_eq!(info.requests.len(), 1);
    assert_eq!(official::make_request_info(&Headers::new(), vec![]).timeout_ms, None);
}

fn failure() -> ErrorDefinition {
    ErrorDefinition {
        code: 8,
        message: Some("no".into()),
        details: vec![AnyMessage { type_url: "type.googleapis.com/a.B".into(), value: vec![1] }],
    }
}

#[test]
fn errors_by_definition() {
    let e = official::to_rpc_error(&failure(), Some(vec![9]));
    assert_eq!((e.code, e.message.as_str()), (8, "no"));
    assert_eq!(e.details[0].type_, "a.B");
    assert_eq!(
        e.details[1].type_,
        "connectrpc.conformance.v1.ConformancePayload.RequestInfo"
    );
    assert_eq!(e.details[1].value, vec![9]);
    let e = official::to_rpc_error(
        &ErrorDefinition { code: 1, message: None, details: vec![] },
        None,
    );
    assert_eq!((e.code, e.message.as_str(), e.details.len()), (1, "", 0));
}

#[test]
fn unary_calls_by_definition() {
    let def = |response: UnaryResponse| UnaryDefinition {
        response_headers: vec![entry("h", &["1", "2"]), entry("none", &[]), entry("h", &["3"])],
        response_trailers: vec![entry("t", &["4"])],
        response,
        response_delay_ms: 30,
    };
    let mut ctx = context();
    let r = official::unary(&mut ctx, Some(def(UnaryResponse::Data(vec![5]))), vec![9]);
    assert_eq!((r.wait_ms, r.result.unwrap()), (30, vec![5]));
    assert_eq!(ctx.response_headers().get("h").unwrap(), &vec!["1".to_string(), "2".into(), "3".into()]);
    assert!(!ctx.response_headers().contains_key("none"));
    assert_eq!(ctx.trailers().get("t").unwrap()[0], "4");
    let r = official::unary(&mut context(), Some(def(UnaryResponse::Error(failure()))), vec![9]);
    assert_eq!(r.wait_ms, 0);
    assert_eq!(r.result.unwrap_err().details.len(), 2);
    let r = official::unary(&mut context(), Some(def(UnaryResponse::Unset)), vec![9]);
    assert_eq!((r.wait_ms, r.result.unwrap()), (30, vec![]));
    let mut ctx = context();
    let r = official::unary(&mut ctx, None, vec![9]);
    assert_eq!((r.wait_ms, r.result.unwrap()), (0, vec![]));
    assert!(ctx.response_headers().is_empty());
}

#[test]
fn stream_calls_by_definition() {
    let def = |response_data: Vec<Vec<u8>>, error: Option<ErrorDefinition>| StreamDefinition {
        response_headers: vec![entry("h", &["1"])],
        response_trailers: vec![entry("t", &["2"])],
        response_data,
        response_delay_ms: 7,
        error,
    };
    let mut ctx = context();
    let r = official::server_stream(&mut ctx, Some(def(vec![vec![1], vec![2]], None)), vec![9]);
    assert_eq!((r.wait_ms, r.messages), (7, vec![vec![1], vec![2]]));
    assert!(r.end.is_ok());
    assert_eq!(ctx.trailers().get("t").unwrap()[0], "2");
    let r = official::server_stream(&mut context(), Some(def(vec![vec![1]], Some(failure()))), vec![9]);
    assert_eq!(r.end.unwrap_err().details.len(), 1);
    let r = official::server_stream(&mut context(), Some(def(vec![], Some(failure()))), vec![9]);
    assert_eq!(r.end.unwrap_err().details.len(), 2);
    let r = official::server_stream(&mut context(), None, vec![9]);
    assert!(r.messages.is_empty() && r.end.is_ok());
    assert_eq!(r.wait_ms, 0);
    assert_eq!(official::message_info(vec![9u8], 0), Some(vec![9]));
    assert_eq!(official::message_info(vec![9u8], 1), None);
}

#[test]
fn calls_that_are_not_supported() {
    assert_eq!(official::unimplemented().message, "unimplemented");
    assert_eq!(official::client_stream().message, "client streaming is not supported");
    assert_eq!(official::bidi_stream().message, "bidi streaming is not supported");
    assert_eq!(official::bidi_stream().code, 12);
}

#[test]
fn messages_on_a_pipe() {
    let p = official::size_prefixed(&[7; 300]);
    assert_eq!(&p[..4], &[0, 0, 1, 44]);
    assert_eq!(official::prefixed_size([p[0], p[1], p[2], p[3]]), 300);
    assert_eq!(p.len(), 304);
}
