//! Client and server together, in memory: a call goes out as a client sends it,
//! is dispatched to the conformance service, and the response is read back.
use easy_rpc::bridge_hyper;
use easy_rpc::bridge_reqwest;
use easy_rpc::client::Outgoing;
use easy_rpc::conformance;
use easy_rpc::dispatch::{plan, Call};
use easy_rpc::incoming::RawHeader;
use easy_rpc::outgoing::push_lines;
use easy_rpc::protocol::{frame, Headers, MethodSpec, RPCError, Request, Response};
use easy_rpc::reply::{finish_unary, ResponseRecord, StreamReply, WriteEvent};
use easy_rpc::server::{received_request, ServerRegistry};
use easy_rpc::stream::{StreamDecoder, StreamStep};

const SVC: &str = "/easyrpc.conformance.v1.ConformanceService";
const BASE: &str = "http://127.0.0.1:18888";

fn text(b: &[u8]) -> String {
    String::from_utf8(b.to_vec()).unwrap()
}

fn number(b: &[u8]) -> i32 {
    text(b).parse().unwrap()
}

/// The unary methods, on messages that are plain text or bytes.
fn answer(call: &mut Call) -> Result<Vec<u8>, RPCError> {
    let body = call.body.clone();
    match call.name.as_str() {
        "Echo" => Ok(conformance::echo(&text(&body)).into_bytes()),
        "EchoBytes" => Ok(body),
        "Empty" => Ok(Vec::new()),
        "Fail" => conformance::fail(&text(&body)).map(|ok| vec![ok as u8]),
        "FailDetails" => {
            let fields: Vec<String> = text(&body).split('|').map(|s| s.to_string()).collect();
            let code = fields[0].parse().unwrap();
            Err(conformance::fail_details(code, &fields[1], &fields[2], &fields[3]))
        }
        "Sleep" => conformance::sleep(&call.context.headers, number(&body)).outcome.map(|ok| vec![ok as u8]),
        "EchoTrailer" => {
            Ok(conformance::echo_trailer(&mut call.context, &text(&body)).into_bytes())
        }
        "EchoMeta" => {
            let lines = conformance::echo_meta(&call.context.headers);
            Ok(lines.iter().map(|(k, v)| format!("{k}={v};")).collect::<String>().into_bytes())
        }
        _ => Err(RPCError::new(12, "not here")),
    }
}

/// The stream methods: every message is its index as text, padded to a size.
fn stream(call: &mut Call, reply: &mut StreamReply, w: &mut ResponseRecord) -> Result<(), RPCError> {
    let body = call.body.clone();
    let fields: Vec<String> = text(&body).split('|').map(|s| s.to_string()).collect();
    let first: i32 = fields[0].parse().unwrap();
    match call.name.as_str() {
        "Count" | "BigStream" | "CountTrailer" => {
            if call.name == "CountTrailer" {
                conformance::count_trailer(&mut call.context);
            }
            let size: usize = if fields.len() > 1 { fields[1].parse().unwrap() } else { 0 };
            for i in conformance::stream_indexes(first) {
                let mut m = i.to_string().into_bytes();
                m.resize(m.len().max(size), b' ');
                reply.emit(w, &call.context, m);
            }
            Ok(())
        }
        _ => {
            for i in conformance::indexes_before_failure(first) {
                reply.emit(w, &call.context, i.to_string().into_bytes());
            }
            Err(RPCError::new(fields[1].parse().unwrap(), &fields[2]))
        }
    }
}

fn serve(req: Request) -> Vec<WriteEvent> {
    let methods = conformance::method_specs();
    let names = |stream: bool| -> Vec<String> {
        methods.iter().filter(|m| m.server_stream == stream).map(|m| m.name.clone()).collect()
    };
    let reg = ServerRegistry { unary: names(false), stream: names(true) };
    let mut w = ResponseRecord::new();
    if let Some(mut call) = plan(&mut w, &req, &methods, &reg) {
        if call.server_stream {
            let mut reply = StreamReply::begin(&mut w, call.context.kind, call.wants_gzip);
            let result = stream(&mut call, &mut reply, &mut w);
            reply.finish(&mut w, &call.context, result);
        } else {
            let result = answer(&mut call);
            finish_unary(&mut w, &call.context, call.wants_gzip, result);
        }
    }
    w.take()
}

/// Sends a request over the wire: only header lines and bytes get through.
fn exchange(out: Outgoing) -> (u16, Vec<RawHeader>, Vec<u8>) {
    let raw: Vec<RawHeader> = out
        .headers
        .iter()
        .map(|(k, v)| RawHeader { name: k.clone(), value: v.clone().into_bytes() })
        .collect();
    let url = out.target.strip_prefix(BASE).unwrap_or(&out.target).to_string();
    let events = serve(received_request(url, out.method, &raw, out.body));
    let mut status = 0;
    let mut lines = Vec::new();
    let mut body = Vec::new();
    for e in events {
        match e {
            WriteEvent::Status(s) => status = s,
            WriteEvent::Header(h) => push_lines(&mut lines, &h),
            WriteEvent::Frame(b) => body.extend_from_slice(&b),
        }
    }
    let raw = lines
        .into_iter()
        .map(|(name, v)| RawHeader { name, value: v.into_bytes() })
        .collect();
    (status, raw, body)
}

fn request(url: String, headers: Headers, body: &[u8]) -> Request {
    Request { url, method: "POST".into(), headers, body: Some(body.to_vec()) }
}

fn send(method: &str, body: &[u8]) -> Response {
    let req = request(format!("{SVC}/{method}"), Headers::new(), body);
    let (status, raw, body) = exchange(bridge_reqwest::unary_request(BASE, req));
    bridge_reqwest::read_response(status, &raw, body)
}

fn send_h1(method: &str, headers: Headers, body: &[u8]) -> Response {
    let req = request(format!("{BASE}{SVC}/{method}"), headers, body);
    let (status, raw, body) = exchange(bridge_hyper::unary_request(req));
    bridge_hyper::read_response(status, &raw, body)
}

fn read_stream(status: u16, body: &[u8]) -> (Vec<Vec<u8>>, StreamDecoder) {
    assert!(easy_rpc::client::check_stream_status(status).is_ok());
    let mut d = StreamDecoder::new();
    d.feed(body);
    let mut out = Vec::new();
    while let StreamStep::Message(m) = d.step() {
        out.push(m);
    }
    (out, d)
}

fn open(method: &str, headers: Headers, body: &[u8]) -> (Vec<Vec<u8>>, StreamDecoder) {
    let req = request(format!("{SVC}/{method}"), headers, &frame(body, false));
    let (status, _, body) = exchange(bridge_reqwest::stream_request(BASE, req));
    read_stream(status, &body)
}

fn indexes(messages: &[Vec<u8>]) -> Vec<i32> {
    messages.iter().map(|m| text(m).trim().parse().unwrap()).collect()
}

#[test]
fn echo_unary_reqwest() {
    let res = send("Echo", b"hi");
    assert_eq!(text(&res.body), "echo:hi");
    assert!(res.error.is_none());
}

#[test]
fn count_stream_reqwest() {
    let (out, _) = open("Count", Headers::new(), b"3");
    assert_eq!(indexes(&out), vec![0, 1, 2]);
}

#[test]
fn unary_error_surfaces() {
    let res = send("Fail", b"nope");
    assert_eq!(res.error.as_ref().map(|e| e.code), Some(3));
    assert_eq!(res.error.unwrap().message, "nope");
    assert!(send("Fail", b"").error.is_none());
}

#[test]
fn stream_fail_surfaces_end_stream_error() {
    let (out, d) = open("StreamFail", Headers::new(), b"2|13|boom");
    assert_eq!(indexes(&out), vec![0, 1]);
    assert_eq!(d.last_error().map(|e| e.code), Some(13));
    assert_eq!(d.last_error().unwrap().message, "boom");
}

#[test]
fn unary_trailer_surfaces() {
    let res = send("EchoTrailer", b"x");
    assert_eq!(text(&res.body), "trailer:x");
    assert_eq!(
        res.trailers.get("x-trl").and_then(|v| v.first()).map(|s| s.as_str()),
        Some("unary-x")
    );
    assert!(!res.headers.contains_key("trailer-x-trl"));
}

#[test]
fn stream_trailer_surfaces() {
    let (out, d) = open("CountTrailer", Headers::new(), b"2");
    assert_eq!(indexes(&out), vec![0, 1]);
    assert_eq!(
        d.trailers.get("x-ctrailer").and_then(|v| v.first()).map(|s| s.as_str()),
        Some("done")
    );
}

#[test]
fn echo_bytes_roundtrip() {
    let data = vec![0u8, 1, 2, 0xff, 0xfe, 0x80];
    assert_eq!(send("EchoBytes", &data).body, data);
}

#[test]
fn empty_roundtrip() {
    let res = send("Empty", b"");
    assert_eq!(res.status, 200);
    assert!(res.body.is_empty());
}

#[test]
fn sleep_roundtrip() {
    assert_eq!(send("Sleep", b"0").body, vec![1]);
}

#[test]
fn big_stream_many_frames() {
    let (out, _) = open("BigStream", Headers::new(), b"3|2048");
    assert_eq!(indexes(&out), vec![0, 1, 2]);
    let mut h = Headers::new();
    h.set("connect-accept-encoding", "br, gzip");
    let (out, d) = open("BigStream", h, b"3|2048");
    assert_eq!(indexes(&out), vec![0, 1, 2]);
    assert!(d.ended);
}

#[test]
fn server_registry_ok() {
    let reg = ServerRegistry { unary: Default::default(), stream: Default::default() };
    let specs = conformance::method_specs();
    assert_eq!(specs.len(), 15);
    assert!(specs.iter().any(|s: &MethodSpec| s.server_stream));
    assert!(!reg.has_unary("Echo"));
}

#[test]
fn echo_unary_h1() {
    let res = send_h1("Echo", Headers::new(), b"hi");
    assert_eq!(res.status, 200);
    assert_eq!(text(&res.body), "echo:hi");
}

#[test]
fn count_stream_h1() {
    let req = request(format!("{BASE}{SVC}/Count"), Headers::new(), &frame(b"3", false));
    let (status, _, body) = exchange(bridge_hyper::stream_request(req));
    let (out, _) = read_stream(status, &body);
    assert_eq!(indexes(&out), vec![0, 1, 2]);
}

#[test]
fn fail_details_unary_error_carries_details_h1() {
    let res = send_h1(
        "FailDetails",
        Headers::new(),
        b"8|limited|type.googleapis.com/google.rpc.RetryInfo|retry:5s",
    );
    assert_eq!(res.status, 429);
    let e = res.error.expect("error must be reconstructed");
    assert_eq!(e.code, 8);
    assert_eq!(e.message, "limited");
    assert_eq!(e.details.len(), 1);
    assert_eq!(e.details[0].type_, "type.googleapis.com/google.rpc.RetryInfo");
    assert_eq!(e.details[0].value, b"retry:5s");
}

#[test]
fn metadata_reaches_the_handler() {
    let mut h = Headers::new();
    h.set("X-Test", "abc");
    h.set("authorization", "Bearer t");
    let res = send_h1("EchoMeta", h, b"");
    assert_eq!(text(&res.body), "x-test=abc;authorization=Bearer t;");
}

#[test]
fn a_deadline_reaches_the_handler() {
    let mut h = Headers::new();
    h.set("connect-timeout-ms", "5");
    let res = send_h1("Sleep", h, b"1000");
    assert_eq!(res.status, 504);
    let e = res.error.unwrap();
    assert_eq!((e.code, e.message.as_str()), (4, "deadline exceeded"));
}

#[test]
fn a_large_answer_is_compressed_for_a_client_that_can_read_it() {
    let mut h = Headers::new();
    h.set("connect-accept-encoding", "gzip");
    let data = vec![7u8; 1024];
    let res = send_h1("EchoBytes", h.clone(), &data);
    assert_eq!(res.headers.get("content-encoding").unwrap()[0], "gzip");
    assert_eq!(easy_rpc::protocol::gzip_decompress_strict(&res.body).unwrap(), data);
    let res = send_h1("EchoBytes", h, &data[..1023]);
    assert!(!res.headers.contains_key("content-encoding"));
    assert_eq!(res.body, data[..1023]);
    let res = send_h1("EchoBytes", Headers::new(), &data);
    assert_eq!(res.body, data);
}

#[test]
fn an_unknown_method_surfaces_as_unimplemented() {
    let res = send("Nope", b"");
    assert_eq!(res.status, 404);
    assert_eq!(res.error.unwrap().code, 12);
}
