//! Fixed bytes that the wire layer must write and read.
use easy_rpc::protocol::{
    code_from_string, code_to_string, decode_end_stream, demux_trailers, encode_end_stream_meta,
    encode_error_json, frame, http_status, mux_trailers, ErrorDetail, Headers,
};
use serde_json::Value;

fn hex_of(b: &[u8]) -> String {
    b.iter().map(|x| format!("{x:02x}")).collect()
}

fn md(entries: &[(&str, &[&str])]) -> Headers {
    let mut h = Headers::new();
    for (k, vs) in entries {
        h.insert(k.to_string(), vs.iter().map(|v| v.to_string()).collect());
    }
    h
}

fn json(b: &[u8]) -> Value {
    serde_json::from_slice(b).unwrap()
}

#[test]
fn wire_vectors_frames() {
    let vectors: [(&[u8], bool, bool, &str); 5] = [
        (b"", false, false, "0000000000"),
        (b"", true, false, "0200000000"),
        (b"hi", false, false, "00000000026869"),
        (b"\x0a\x02hi", true, false, "02000000040a026869"),
        (b"z", false, true, "01000000017a"),
    ];
    for (payload, end, compressed, want) in vectors {
        let mut bytes = frame(payload, end);
        if compressed {
            bytes[0] |= 0x01;
        }
        assert_eq!(hex_of(&bytes), want);
    }
    let long = vec![7u8; 0x01_02_03];
    assert_eq!(hex_of(&frame(&long, false)[..5]), "0000010203");
}

#[test]
fn wire_vectors_end_stream() {
    let vectors: [(&str, i32, &str, &[(&str, &[&str])]); 4] = [
        (r#"{"error":{"code":"internal","message":"boom"}}"#, 13, "boom", &[]),
        (r#"{"metadata":{"x-ctrailer":["done"]}}"#, 0, "", &[("x-ctrailer", &["done"])]),
        (
            r#"{"error":{"code":"aborted","message":"m"},"metadata":{"a":["1","2"]}}"#,
            10,
            "m",
            &[("a", &["1", "2"])],
        ),
        (r#"{"error":{"code":"canceled","message":""}}"#, 1, "", &[]),
    ];
    for (bytes, want_code, want_message, want_md) in vectors {
        let (code, message, _details, metadata) = decode_end_stream(bytes.as_bytes());
        assert_eq!(code, want_code);
        assert_eq!(message, want_message);
        assert_eq!(metadata, md(want_md));
        let got = encode_end_stream_meta(code, &message, &[], &metadata);
        assert_eq!(json(&got), json(bytes.as_bytes()));
    }
}

#[test]
fn wire_vectors_unary_error() {
    let retry = ErrorDetail { type_: "google.rpc.RetryInfo".into(), value: vec![0x0a, 0x02, 0x08, 0x05] };
    let vectors: [(i32, &str, Vec<ErrorDetail>, &str); 3] = [
        (5, "gone", vec![], r#"{"code":"not_found","message":"gone"}"#),
        (2, "", vec![], r#"{"code":"unknown","message":""}"#),
        (
            8,
            "limited",
            vec![retry],
            r#"{"code":"resource_exhausted","details":[{"type":"google.rpc.RetryInfo","value":"CgIIBQ=="}],"message":"limited"}"#,
        ),
    ];
    for (code, message, details, want) in vectors {
        let got = encode_error_json(code, message, &details);
        assert_eq!(json(&got), json(want.as_bytes()));
    }
}

#[test]
fn wire_vectors_trailers() {
    let both = md(&[("content-type", &["application/proto"]), ("trailer-x-trl", &["a", "b"])]);
    let (h, t) = demux_trailers(&both);
    assert_eq!(h, md(&[("content-type", &["application/proto"])]));
    assert_eq!(t, md(&[("x-trl", &["a", "b"])]));
    assert_eq!(mux_trailers(&h, &t), both);
    let (h, t) = demux_trailers(&md(&[("trailer", &["x"]), ("trailer-", &["y"])]));
    assert_eq!(h, md(&[("trailer", &["x"])]));
    assert_eq!(t, md(&[("", &["y"])]));
    assert_eq!(
        mux_trailers(&md(&[("trailer-a", &["1"])]), &md(&[("a", &["2"])])),
        md(&[("trailer-a", &["1", "2"])])
    );
}

#[test]
fn wire_vectors_code_map() {
    let table: [(i32, &str, u16); 17] = [
        (0, "ok", 0),
        (1, "canceled", 499),
        (2, "unknown", 500),
        (3, "invalid_argument", 400),
        (4, "deadline_exceeded", 504),
        (5, "not_found", 404),
        (6, "already_exists", 409),
        (7, "permission_denied", 403),
        (8, "resource_exhausted", 429),
        (9, "failed_precondition", 400),
        (10, "aborted", 409),
        (11, "out_of_range", 400),
        (12, "unimplemented", 501),
        (13, "internal", 500),
        (14, "unavailable", 503),
        (15, "data_loss", 500),
        (16, "unauthenticated", 401),
    ];
    for (code, name, http) in table {
        assert_eq!(code_to_string(code), name, "code_to_string {code}");
        assert_eq!(code_from_string(name), code, "code_from_string {name}");
        if code != 0 {
            assert_eq!(http_status(code), http, "http {code}");
        }
    }
    assert_eq!(code_to_string(17), "unknown");
    assert_eq!(code_to_string(-1), "unknown");
    assert_eq!(code_from_string("nope"), 2);
    assert_eq!(code_from_string(""), 2);
}
