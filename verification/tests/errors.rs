//! Errors on the wire: what is decoded from well-formed and malformed input, and
//! that details make the round trip.
use easy_rpc::protocol::{
    connect_from_status, decode_end_stream, decode_error_json, encode_end_stream,
    encode_end_stream_meta, encode_error_json, frame, http_status, read_frame, ErrorDetail, Headers,
    RPCError,
};

fn detail() -> ErrorDetail {
    ErrorDetail {
        type_: "type.googleapis.com/google.rpc.RetryInfo".to_string(),
        value: vec![1, 2, 3, 250],
    }
}

#[test]
fn matrix_end_stream_decode() {
    // empty payload => clean end
    assert_eq!(decode_end_stream(b"").0, 0);
    // garbage bytes => clean end, no panic
    assert_eq!(decode_end_stream(&[0xff, 0xfe, 0x00, 0x42]).0, 0);
    // error without code/message => unknown code, empty message
    let (c, m, d, _md) = decode_end_stream(br#"{"error":{}}"#);
    assert_eq!((c, m.as_str(), d.len()), (2, "", 0));
    // unknown code name => 2
    let (c, _, _, _md) = decode_end_stream(br#"{"error":{"code":"nope","message":"m"}}"#);
    assert_eq!(c, 2);
    // unknown fields ignored
    let (c, _, _, _md) =
        decode_end_stream(br#"{"error":{"code":"not_found","message":"m"},"x":1}"#);
    assert_eq!(c, 5);
    // details round-trip (base64 -> bytes)
    let payload = encode_end_stream(8, "rate limited", &[detail()]);
    let (c, m, d, _md) = decode_end_stream(&payload);
    assert_eq!(c, 8);
    assert_eq!(m, "rate limited");
    assert_eq!(d, vec![detail()]);
    // malformed detail entries skipped, never fatal
    let (_, _, d, _md) = decode_end_stream(
        br#"{"error":{"code":"resource_exhausted","details":[{"type":"t","value":"!!!"},{"value":"x"},{"type":"ok"},{"type":"t2","value":"AQID"}]}}"#,
    );
    assert_eq!(d, vec![ErrorDetail { type_: "t2".into(), value: vec![1, 2, 3] }]);
    // details omitted when empty
    let payload = encode_end_stream(5, "gone", &[]);
    let text = std::str::from_utf8(&payload).unwrap();
    assert!(!text.contains("details"));
}

#[test]
fn matrix_unary_error_decode() {
    // plain text is not a JSON error body
    let (c, _, _) = decode_error_json(b"busy");
    assert_eq!(c, 0);
    // details round-trip
    let b = encode_error_json(8, "limited", &[detail()]);
    let (c, m, d) = decode_error_json(&b);
    assert_eq!((c, m.as_str()), (8, "limited"));
    assert_eq!(d, vec![detail()]);
    // no-details body stays plain
    let b = encode_error_json(5, "x", &[]);
    assert_eq!(std::str::from_utf8(&b).unwrap(), r#"{"code":"not_found","message":"x"}"#);
    // deadline code
    let (c, _, _) = decode_error_json(&encode_error_json(4, "deadline exceeded", &[]));
    assert_eq!(c, 4);
}

#[test]
fn matrix_framing() {
    // a truncated frame yields nothing, not a part of it.
    let full = frame(b"0123456789", false);
    assert!(read_frame(&full[..full.len() - 4]).is_none());
    // oversized frame rejected.
    let mut huge = vec![0u8; 5];
    huge[1..5].copy_from_slice(&(4 * 1024 * 1024 + 1u32).to_be_bytes());
    assert!(read_frame(&huge).is_none());
}

#[test]
fn matrix_deadline_codes() {
    // deadline maps to code 4 both directions.
    assert_eq!(http_status(4), 504);
    assert_eq!(connect_from_status(504), 4);
}

#[test]
fn statuses_and_codes_agree() {
    for status in [400u16, 401, 403, 404, 409, 429, 499, 501, 503, 504] {
        assert_eq!(http_status(connect_from_status(status)), status);
    }
    for code in -1..20 {
        assert!((400..600).contains(&http_status(code)));
    }
    for status in [200, 302, 405, 415, 500, 502] {
        assert_eq!(connect_from_status(status), 13);
    }
}

#[test]
fn a_code_without_a_name_is_read_as_unknown() {
    let (c, m, _) = decode_error_json(&encode_error_json(77, "odd", &[]));
    assert_eq!((c, m.as_str()), (2, "odd"));
    let (c, _, _) = decode_error_json(&encode_error_json(-1, "odd", &[]));
    assert_eq!(c, 2);
}

#[test]
fn details_without_type_or_value_do_not_survive() {
    let details = vec![
        ErrorDetail { type_: "".into(), value: vec![1] },
        ErrorDetail { type_: "t".into(), value: vec![] },
        detail(),
    ];
    let (_, _, d) = decode_error_json(&encode_error_json(8, "m", &details));
    assert_eq!(d, vec![detail()]);
    let (_, _, d, _) = decode_end_stream(&encode_end_stream(8, "m", &details));
    assert_eq!(d, vec![detail()]);
}

#[test]
fn a_clean_end_is_empty_and_keeps_metadata() {
    assert!(encode_end_stream(0, "ignored", &[detail()]).is_empty());
    let mut md = Headers::new();
    md.insert("x-a".into(), vec!["1".into(), "2".into()]);
    md.insert("x-b".into(), vec![]);
    let payload = encode_end_stream_meta(0, "ignored", &[detail()], &md);
    assert_eq!(
        std::str::from_utf8(&payload).unwrap(),
        r#"{"metadata":{"x-a":["1","2"],"x-b":[]}}"#
    );
    let (c, m, d, got) = decode_end_stream(&payload);
    assert_eq!((c, m.as_str(), d.len()), (0, "", 0));
    assert_eq!(got, md);
}

#[test]
fn an_error_and_metadata_end_a_stream_together() {
    let mut md = Headers::new();
    md.insert("x-trl".into(), vec!["v".into()]);
    let payload = encode_end_stream_meta(13, "boom \"quoted\" \u{e9}\n", &[detail()], &md);
    let (c, m, d, got) = decode_end_stream(&payload);
    assert_eq!((c, m.as_str()), (13, "boom \"quoted\" \u{e9}\n"));
    assert_eq!(d, vec![detail()]);
    assert_eq!(got, md);
}

#[test]
fn metadata_that_is_no_list_of_text_is_left_out() {
    let (c, _, _, md) = decode_end_stream(
        br#"{"metadata":{"a":["x",1,null,"y"],"b":"z","c":{},"d":[]}}"#,
    );
    assert_eq!(c, 0);
    let mut want = Headers::new();
    want.insert("a".into(), vec!["x".into(), "y".into()]);
    want.insert("d".into(), vec![]);
    assert_eq!(md, want);
    assert!(decode_end_stream(br#"{"metadata":[1]}"#).3.is_empty());
}

#[test]
fn the_last_of_two_members_counts() {
    let (c, m, _) = decode_error_json(br#"{"code":"ok","code":"aborted","message":"m"}"#);
    assert_eq!((c, m.as_str()), (10, "m"));
}

#[test]
fn an_error_that_is_not_an_object_has_no_code() {
    assert_eq!(decode_end_stream(br#"{"error":"x"}"#).0, 2);
    assert_eq!(decode_end_stream(br#"[1,2]"#).0, 0);
    assert_eq!(decode_error_json(br#"{"code":5,"message":"m"}"#).0, 0);
    assert_eq!(decode_error_json(br#""code""#).0, 0);
    assert_eq!(decode_error_json(b"").0, 0);
}

#[test]
fn a_document_that_is_nested_too_deep_is_no_error() {
    let mut deep = Vec::new();
    deep.extend_from_slice(br#"{"code":"aborted","x":"#);
    deep.extend(std::iter::repeat(b'[').take(200));
    deep.extend(std::iter::repeat(b']').take(200));
    deep.push(b'}');
    assert_eq!(decode_error_json(&deep).0, 0);
}

#[test]
fn errors_in_words() {
    let e = RPCError::new(5, "gone");
    assert_eq!(e.to_text(), "easyrpc: code=5 gone");
    assert_eq!(RPCError::new(-7, "").to_text(), "easyrpc: code=-7 ");
    let e = e.with_details(vec![detail()]);
    assert_eq!(e.details, vec![detail()]);
    let e = RPCError::default();
    assert_eq!((e.code, e.message.as_str(), e.details.len()), (0, "", 0));
}
