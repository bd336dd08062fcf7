//! What becomes of a request: every reason to refuse one, and what a handler is
//! handed.
use easy_rpc::dispatch::{count_frames, examine, plan, unpack, wants_gzip, Call, ResponseWriter};
use easy_rpc::protocol::{
    decode_end_stream, decode_error_json, frame, frame_compressed, gzip_compress, read_frame,
    ContentKind, ErrorDetail, HandlerContext, Headers, MethodSpec, RPCError, Request,
};
use easy_rpc::reply::{
    finish_unary, stream_fail, write_error, ResponseRecord, StreamReply, WriteEvent,
};
use easy_rpc::server::{content_kind, find_method, is_stream_path, LiveHead, ServerRegistry};
use easy_rpc::trailers::merge_response_headers;

fn method(name: &str, server_stream: bool) -> MethodSpec {
    MethodSpec {
        service: "t".into(),
        name: name.into(),
        path: format!("/t/{name}"),
        http_method: "POST".into(),
        client_stream: false,
        server_stream,
        body: "".into(),
    }
}

fn methods() -> Vec<MethodSpec> {
    vec![method("U", false), method("S", true), method("Lost", false), method("LostS", true)]
}

fn registry() -> ServerRegistry {
    ServerRegistry { unary: vec!["U".into()], stream: vec!["S".into()] }
}

fn headers(entries: &[(&str, &str)]) -> Headers {
    let mut h = Headers::new();
    for (k, v) in entries {
        h.push(k, v);
    }
    h
}

fn ask(url: &str, entries: &[(&str, &str)], body: Vec<u8>) -> (Option<Call>, Vec<WriteEvent>) {
    let req = Request {
        url: url.into(),
        method: "POST".into(),
        headers: headers(entries),
        body: Some(body),
    };
    let mut w = ResponseRecord::new();
    let call = plan(&mut w, &req, &methods(), &registry());
    (call, w.take())
}

/// The status, the content type and the body of a whole response.
fn whole(events: Vec<WriteEvent>) -> (u16, String, Vec<u8>) {
    assert_eq!(events.len(), 3);
    let mut it = events.into_iter();
    let status = match it.next() {
        Some(WriteEvent::Status(s)) => s,
        other => panic!("{other:?}"),
    };
    let content_type = match it.next() {
        Some(WriteEvent::Header(h)) => h.get("content-type").unwrap()[0].clone(),
        other => panic!("{other:?}"),
    };
    match it.next() {
        Some(WriteEvent::Frame(b)) => (status, content_type, b),
        other => panic!("{other:?}"),
    }
}

fn refused(url: &str, entries: &[(&str, &str)], body: Vec<u8>) -> (u16, i32, String) {
    let (call, events) = ask(url, entries, body);
    assert!(call.is_none());
    let (status, content_type, body) = whole(events);
    assert_eq!(content_type, "application/json");
    let (code, message, _) = decode_error_json(&body);
    (status, code, message)
}

fn stream_refused(entries: &[(&str, &str)], body: Vec<u8>) -> (i32, String) {
    let mut all = vec![("content-type", "application/connect+proto")];
    all.extend_from_slice(entries);
    let (call, events) = ask("/t/S", &all, body);
    assert!(call.is_none());
    let (status, content_type, body) = whole(events);
    assert_eq!((status, content_type.as_str()), (200, "application/connect+proto"));
    let (payload, end, used) = read_frame(&body).unwrap();
    assert!(end);
    assert_eq!(used, body.len());
    let (code, message, _, _) = decode_end_stream(&payload);
    (code, message)
}

fn r(status: u16, code: i32, message: &str) -> (u16, i32, String) {
    (status, code, message.to_string())
}

#[test]
fn requests_that_no_method_gets() {
    assert_eq!(
        refused("/t/U", &[("connect-protocol-version", "2"), (":method", "GET")], vec![]),
        r(501, 12, "unsupported connect-protocol-version: 2")
    );
    assert_eq!(refused("/t/U", &[(":method", "GET")], vec![]), r(405, 2, "method GET not allowed"));
    assert_eq!(refused("/t/U", &[], vec![0; 4 * 1024 * 1024 + 1]), r(429, 8, "request too large"));
    assert_eq!(refused("/t/Nope", &[], vec![]), r(404, 12, "unimplemented"));
    assert_eq!(refused("/t/U/", &[], vec![]), r(404, 12, "unimplemented"));
}

#[test]
fn content_types_that_do_not_fit() {
    assert_eq!(
        refused("/t/U", &[("content-type", "text/plain")], vec![]),
        r(415, 2, "unsupported content-type: text/plain")
    );
    assert_eq!(
        refused("/t/U", &[("content-type", "application/connect+proto")], vec![]),
        r(415, 2, "unsupported content-type: application/connect+proto")
    );
    assert_eq!(refused("/t/S", &[], vec![]), r(415, 2, "unsupported content-type: "));
}

#[test]
fn unary_calls_that_are_refused() {
    assert_eq!(refused("/t/Lost", &[], vec![]), r(404, 5, "method not found"));
    assert_eq!(
        refused("/t/U", &[("content-encoding", " BR ")], vec![]),
        r(501, 12, "unsupported content-encoding: br")
    );
    assert_eq!(
        refused("/t/U", &[("content-encoding", "identity")], vec![]),
        r(501, 12, "unsupported content-encoding: identity")
    );
    assert_eq!(
        refused("/t/U", &[("content-encoding", "gzip")], vec![1, 2, 3]),
        r(500, 13, "corrupt gzip data")
    );
}

#[test]
fn stream_calls_that_are_refused() {
    let s = |code: i32, message: &str| (code, message.to_string());
    assert_eq!(
        stream_refused(&[("connect-content-encoding", "br")], frame(b"x", false)),
        s(12, "unsupported content-encoding: br")
    );
    assert_eq!(stream_refused(&[], vec![]), s(12, "missing request message"));
    let two = [frame(b"x", false), frame(b"y", false)].concat();
    assert_eq!(
        stream_refused(&[], two),
        s(12, "server-stream request must contain exactly one message")
    );
    assert_eq!(stream_refused(&[], vec![0, 0, 0]), s(13, "truncated frame header"));
    assert_eq!(stream_refused(&[], vec![0, 1, 0, 0, 0]), s(8, "frame too large"));
    assert_eq!(stream_refused(&[], vec![0, 0, 0, 0, 9, 1]), s(13, "stream request: truncated frame"));
    let mut damaged = frame(b"not gzip", false);
    damaged[0] |= 1;
    assert_eq!(stream_refused(&[], damaged), s(13, "corrupt gzip data"));
    let (call, events) =
        ask("/t/LostS", &[("content-type", "application/connect+json")], frame(b"x", false));
    assert!(call.is_none());
    let (status, content_type, body) = whole(events);
    assert_eq!((status, content_type.as_str()), (200, "application/connect+json"));
    let (code, message, _, _) = decode_end_stream(&read_frame(&body).unwrap().0);
    assert_eq!((code, message.as_str()), (12, "no handler"));
}

#[test]
fn calls_that_are_handed_on() {
    let (call, events) = ask(
        "/t/U?x=1",
        &[("connect-protocol-version", "1"), (":method", "POST"), ("a", "b")],
        b"body".to_vec(),
    );
    let call = call.unwrap();
    assert!(events.is_empty());
    assert_eq!((call.name.as_str(), call.server_stream), ("U", false));
    assert_eq!(call.body, b"body");
    assert_eq!(call.context.kind, ContentKind::Proto);
    assert_eq!(call.context.headers.get("a").unwrap()[0], "b");
    assert!(call.context.response_headers().is_empty());
    assert!(call.context.trailers().is_empty());
    assert!(!call.wants_gzip);

    let (call, _) = ask(
        "/t/U",
        &[("content-type", "application/json"), ("content-encoding", "GZIP")],
        gzip_compress(b"{}"),
    );
    let call = call.unwrap();
    assert_eq!(call.body, b"{}");
    assert_eq!(call.context.kind, ContentKind::Json);

    let (call, _) = ask("/t/U", &[("content-encoding", "gzip")], vec![]);
    assert_eq!(call.unwrap().body, b"");
}

#[test]
fn stream_calls_that_are_handed_on() {
    let ct = ("content-type", "application/connect+proto");
    let (call, _) = ask("/t/S", &[ct], frame(b"message", false));
    let call = call.unwrap();
    assert!(call.server_stream);
    assert_eq!(call.body, b"message");
    let (call, _) = ask("/t/S", &[ct, ("connect-content-encoding", "gzip")], frame_compressed(b"zip"));
    assert_eq!(call.unwrap().body, b"zip");
    let (call, _) = ask("/t/S", &[ct, ("connect-content-encoding", "identity")], frame(b"", true));
    assert_eq!(call.unwrap().body, b"");
}

#[test]
fn an_admitted_call_takes_what_it_was_decompressed_to() {
    let req = Request {
        url: "/t/U".into(),
        method: "POST".into(),
        headers: headers(&[("content-encoding", "gzip")]),
        body: Some(vec![9]),
    };
    let mut w = ResponseRecord::new();
    let admitted = examine(&mut w, &req, &methods(), &registry()).unwrap();
    assert!(admitted.compressed);
    assert_eq!(unpack(&mut w, admitted, Some(vec![1, 2])).unwrap().body, vec![1, 2]);
    assert!(w.events.is_empty());
    let admitted = examine(&mut w, &req, &methods(), &registry()).unwrap();
    assert!(unpack(&mut w, admitted, None).is_none());
    assert_eq!(whole(w.take()).0, 500);
}

#[test]
fn frames_are_counted() {
    assert_eq!(count_frames(&[]).unwrap(), 0);
    assert_eq!(count_frames(&frame(b"abc", false)).unwrap(), 1);
    assert_eq!(count_frames(&[frame(b"abc", false), frame(b"", true)].concat()).unwrap(), 2);
    // The payload of the last frame need not be all there.
    assert_eq!(count_frames(&frame(b"abc", false)[..6]).unwrap(), 1);
    let e = count_frames(&[frame(b"abc", false), vec![0]].concat()).unwrap_err();
    assert_eq!((e.code, e.message.as_str()), (13, "truncated frame header"));
    let e = count_frames(&[0, 0, 0x40, 0, 1]).unwrap_err();
    assert_eq!((e.code, e.message.as_str()), (8, "frame too large"));
    assert_eq!(count_frames(&[0, 0, 0x40, 0, 0]).unwrap(), 1);
}

#[test]
fn clients_that_can_read_gzip() {
    assert!(wants_gzip(&headers(&[("connect-accept-encoding", "br, gzip ,x")])));
    assert!(wants_gzip(&headers(&[
        ("connect-accept-encoding", "br"),
        ("connect-accept-encoding", "gzip")
    ])));
    assert!(!wants_gzip(&headers(&[("connect-accept-encoding", "GZIP")])));
    assert!(!wants_gzip(&headers(&[("connect-accept-encoding", "gzipx")])));
    assert!(!wants_gzip(&headers(&[("accept-encoding", "gzip")])));
}

#[test]
fn handler_headers_come_behind_those_of_the_base() {
    let mut extra = headers(&[("a", "2"), ("a", "3"), ("b", "4")]);
    extra.insert("c".into(), vec![]);
    let m = merge_response_headers(headers(&[("a", "1")]), &extra);
    assert_eq!(m.get("a").unwrap(), &vec!["1".to_string(), "2".into(), "3".into()]);
    assert_eq!(m.get("b").unwrap(), &vec!["4".to_string()]);
    assert!(m.get("c").unwrap().is_empty());
}

#[test]
fn a_unary_answer_has_one_content_type() {
    let mut ctx = HandlerContext::new(Headers::new());
    ctx.set_header("content-type", "text/html");
    ctx.set_header("x-h", "1");
    ctx.set_header("x-h", "2");
    ctx.set_trailer("x-t", "3");
    let mut w = ResponseRecord::new();
    finish_unary(&mut w, &ctx, true, Ok(b"out".to_vec()));
    match &w.events[1] {
        WriteEvent::Header(h) => {
            assert_eq!(h.get("content-type").unwrap(), &vec!["application/proto".to_string()]);
            assert_eq!(h.get("x-h").unwrap(), &vec!["1".to_string(), "2".into()]);
            assert_eq!(h.get("trailer-x-t").unwrap(), &vec!["3".to_string()]);
        }
        other => panic!("{other:?}"),
    }
    let (status, _, body) = whole(w.take());
    assert_eq!((status, body), (200, b"out".to_vec()));
}

#[test]
fn a_unary_failure_keeps_headers_and_trailers() {
    let mut ctx = HandlerContext::new(Headers::new());
    ctx.set_header("x-h", "1");
    ctx.set_trailer("x-t", "3");
    let mut w = ResponseRecord::new();
    let details = vec![ErrorDetail { type_: "t".into(), value: vec![1] }];
    finish_unary(&mut w, &ctx, false, Err(RPCError::new(7, "no").with_details(details)));
    match &w.events[1] {
        WriteEvent::Header(h) => {
            assert_eq!(h.get("content-type").unwrap(), &vec!["application/json".to_string()]);
            assert_eq!(h.get("x-h").unwrap(), &vec!["1".to_string()]);
            assert_eq!(h.get("trailer-x-t").unwrap(), &vec!["3".to_string()]);
        }
        other => panic!("{other:?}"),
    }
    let (status, _, body) = whole(w.take());
    assert_eq!(status, 403);
    let (code, message, details) = decode_error_json(&body);
    assert_eq!((code, message.as_str(), details.len()), (7, "no", 1));
}

#[test]
fn stream_frames_come_one_by_one() {
    let mut ctx = HandlerContext::new(Headers::new());
    let mut w = ResponseRecord::new();
    let mut reply = StreamReply::begin(&mut w, ContentKind::Proto, false);
    assert!(matches!(w.take()[..], [WriteEvent::Status(200)]));
    ctx.set_header("x-early", "1");
    for i in 0..3u8 {
        reply.emit(&mut w, &ctx, vec![i]);
        ctx.set_header("x-late", "1");
        let mut events = w.take();
        match events.pop() {
            Some(WriteEvent::Frame(f)) => assert_eq!(f, frame(&[i], false)),
            other => panic!("{other:?}"),
        }
        match events.pop() {
            Some(WriteEvent::Header(h)) => {
                assert_eq!(i, 0);
                assert!(h.contains_key("x-early") && !h.contains_key("x-late"));
                assert_eq!(h.get("content-type").unwrap()[0], "application/connect+proto");
            }
            None => assert_ne!(i, 0),
            other => panic!("{other:?}"),
        }
    }
    reply.finish(&mut w, &ctx, Ok(()));
    assert!(matches!(&w.take()[..], [WriteEvent::Frame(f)] if f == &frame(b"", true)));
    reply.emit(&mut w, &ctx, vec![9]);
    reply.finish(&mut w, &ctx, Err(RPCError::new(1, "late")));
    assert!(w.take().is_empty());
}

#[test]
fn an_empty_stream_has_headers_too() {
    let mut ctx = HandlerContext::new(Headers::new());
    ctx.set_trailer("x-t", "v");
    let mut w = ResponseRecord::new();
    let mut reply = StreamReply::begin(&mut w, ContentKind::Json, true);
    reply.finish(&mut w, &ctx, Err(RPCError::new(9, "early")));
    let (status, content_type, body) = whole(w.take());
    assert_eq!((status, content_type.as_str()), (200, "application/connect+json"));
    let (code, message, _, md) = decode_end_stream(&read_frame(&body).unwrap().0);
    assert_eq!((code, message.as_str()), (9, "early"));
    assert_eq!(md.get("x-t").unwrap()[0], "v");
}

#[test]
fn messages_of_some_size_are_compressed() {
    let ctx = HandlerContext::new(Headers::new());
    let mut w = ResponseRecord::new();
    let mut reply = StreamReply::begin(&mut w, ContentKind::Proto, true);
    reply.emit(&mut w, &ctx, vec![1; 1023]);
    reply.emit(&mut w, &ctx, vec![1; 1024]);
    let mut events = w.take();
    match events.pop() {
        Some(WriteEvent::Frame(f)) => assert_eq!(f, frame_compressed(&[1; 1024])),
        other => panic!("{other:?}"),
    }
    match events.pop() {
        Some(WriteEvent::Frame(f)) => assert_eq!(f, frame(&[1; 1023], false)),
        other => panic!("{other:?}"),
    }
}

#[test]
fn errors_are_written_with_the_status_of_their_code() {
    let mut w = ResponseRecord::new();
    write_error(&mut w, &RPCError::new(16, "who"));
    let (status, content_type, body) = whole(w.take());
    assert_eq!((status, content_type.as_str()), (401, "application/json"));
    assert_eq!(decode_error_json(&body).0, 16);
    stream_fail(&mut w, &RPCError::new(16, "who"));
    let (status, content_type, body) = whole(w.take());
    assert_eq!((status, content_type.as_str()), (200, "application/connect+proto"));
    assert_eq!(decode_end_stream(&read_frame(&body).unwrap().0).0, 16);
}

#[test]
fn a_record_keeps_what_is_written() {
    let mut w = ResponseRecord::new();
    w.status(204);
    w.header(headers(&[("content-type", "x")]));
    assert!(w.write_frame(vec![1]).is_ok());
    let (status, content_type, body) = whole(w.take());
    assert_eq!((status, content_type.as_str(), body), (204, "x", vec![1]));
    assert!(w.events.is_empty());
}

#[test]
fn a_response_is_settled_when_its_first_frame_comes() {
    let mut ctx = HandlerContext::new(Headers::new());
    let mut w = ResponseRecord::new();
    let mut reply = StreamReply::begin(&mut w, ContentKind::Proto, false);
    ctx.set_header("x-h", "1");
    reply.emit(&mut w, &ctx, vec![1]);
    reply.emit(&mut w, &ctx, vec![2]);
    reply.finish(&mut w, &ctx, Ok(()));
    let mut head = LiveHead::new();
    assert_eq!(head.status, 200);
    let mut frames = Vec::new();
    for e in w.take() {
        if let Some(f) = head.take(e) {
            assert_eq!(head.status, 200);
            assert_eq!(head.headers.get("x-h").unwrap()[0], "1");
            frames.push(f);
        }
    }
    assert_eq!(frames, vec![frame(&[1], false), frame(&[2], false), frame(&[], true)]);
    write_error(&mut w, &RPCError::new(5, "gone"));
    let sent: Vec<Vec<u8>> = w.take().into_iter().filter_map(|e| head.take(e)).collect();
    assert_eq!((head.status, sent.len()), (404, 1));
    assert_eq!(head.headers.get("content-type").unwrap()[0], "application/json");
}

#[test]
fn many_frames_are_counted() {
    for n in 0..20 {
        let body: Vec<u8> = (0..n).flat_map(|i| frame(&vec![7u8; i * 100], i % 2 == 0)).collect();
        assert_eq!(count_frames(&body).unwrap(), n);
    }
}

#[test]
fn methods_are_found_by_path() {
    let mut ms = methods();
    ms.push(MethodSpec { name: "Second".into(), ..method("U", true) });
    assert_eq!(find_method(&ms, "/t/U").unwrap().name, "U");
    assert!(find_method(&ms, "/t").is_none());
    assert!(is_stream_path(&ms, "/t/S"));
    assert!(!is_stream_path(&ms, "/t/U"));
    assert!(!is_stream_path(&ms, "/nowhere"));
}

#[test]
fn the_codec_of_a_request_by_name() {
    let req = |entries: &[(&str, &str)]| Request {
        url: "/".into(),
        method: "POST".into(),
        headers: headers(entries),
        body: None,
    };
    assert_eq!(content_kind(&req(&[("content-type", "application/json;x")])), "json");
    assert_eq!(content_kind(&req(&[("content-type", "application/proto")])), "proto");
    assert_eq!(content_kind(&req(&[])), "proto");
}
