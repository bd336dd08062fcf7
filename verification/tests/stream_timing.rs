//! Deadlines, metadata, limits and compression.
use easy_rpc::deadline::{deadline_outcome, time_limit};
use easy_rpc::dispatch::RequestContext;
use easy_rpc::protocol::{
    decode_error_json, encode_error_json, frame_compressed, gzip_compress, gzip_decompress,
    gzip_decompress_strict, parse_timeout, with_timeout, Headers, MetadataInterceptor, Request,
    CONNECT_PROTOCOL_VERSION, DEFAULT_MAX_MESSAGE_BYTES, HEADER_TIMEOUT,
};

#[test]
fn timeout_helpers() {
    assert_eq!(parse_timeout(""), 0);
    assert_eq!(parse_timeout("0"), 0);
    assert_eq!(parse_timeout("250"), 250);
    let req = Request {
        url: "/x".into(),
        method: "POST".into(),
        headers: Headers::new(),
        body: None,
    };
    let req = with_timeout(req, 300);
    assert_eq!(req.headers.get(HEADER_TIMEOUT).unwrap()[0], "300");
    let ctx = RequestContext::new(req.headers);
    assert_eq!(ctx.deadline_ms, 300);
}

#[test]
fn interceptor_transport_applies_metadata() {
    let mut md = Headers::new();
    md.insert("x-test".into(), vec!["abc".into()]);
    let req = Request {
        url: "/x".into(),
        method: "POST".into(),
        headers: Headers::new(),
        body: None,
    };
    let h = MetadataInterceptor(md).intercept(req).unwrap().headers;
    assert_eq!(h.get("x-test").unwrap()[0], "abc");
}

#[test]
fn error_json_roundtrip() {
    let b = encode_error_json(7, "denied", &[]);
    assert_eq!(
        std::str::from_utf8(&b).unwrap(),
        r#"{"code":"permission_denied","message":"denied"}"#
    );
    let (c, m, _) = decode_error_json(&b);
    assert_eq!((c, m.as_str()), (7, "denied"));
    assert_eq!(decode_error_json(b"plain").0, 0);
}

#[test]
fn limits_and_version_consts() {
    assert_eq!(CONNECT_PROTOCOL_VERSION, "1");
    assert_eq!(DEFAULT_MAX_MESSAGE_BYTES, 4 * 1024 * 1024);
}

#[test]
fn gzip_roundtrip() {
    let orig: Vec<u8> = (0..4096u32).map(|i| (i % 251) as u8).collect();
    let z = gzip_compress(&orig);
    assert!(z.len() < orig.len(), "did not compress");
    assert_eq!(gzip_decompress(&z), orig);
    let fr = frame_compressed(&orig);
    assert_ne!(fr[0] & 0x01, 0);
}

#[test]
fn data_that_is_not_compressed() {
    assert_eq!(gzip_decompress(b"plain"), b"plain");
    assert_eq!(gzip_decompress(b""), b"");
    let e = gzip_decompress_strict(b"plain").unwrap_err();
    assert_eq!((e.code, e.message.as_str()), (13, "corrupt gzip data"));
    assert_eq!(gzip_decompress_strict(&gzip_compress(b"")).unwrap(), b"");
    let mut z = gzip_compress(b"some data");
    z.truncate(12);
    assert!(gzip_decompress_strict(&z).is_err());
    assert_eq!(gzip_decompress(&z), z);
}

#[test]
fn timeout_values() {
    assert_eq!(parse_timeout(" 42\t"), 42);
    assert_eq!(parse_timeout("+42"), 42);
    assert_eq!(parse_timeout("-42"), 0);
    assert_eq!(parse_timeout("4 2"), 0);
    assert_eq!(parse_timeout("18446744073709551615"), u64::MAX);
    assert_eq!(parse_timeout("18446744073709551616"), 0);
    for ms in [1u64, 9, 10, 99, 1000, u64::MAX] {
        let req = Request { url: "".into(), method: "".into(), headers: Headers::new(), body: None };
        assert_eq!(RequestContext::new(with_timeout(req, ms).headers).deadline_ms, ms);
    }
    let req = Request { url: "".into(), method: "".into(), headers: Headers::new(), body: None };
    assert!(with_timeout(req, 0).headers.is_empty());
}

#[test]
fn a_deadline_changes_no_other_header() {
    let mut headers = Headers::new();
    headers.push("a", "1");
    headers.push(HEADER_TIMEOUT, "1");
    headers.push(HEADER_TIMEOUT, "2");
    let req = Request { url: "/u".into(), method: "POST".into(), headers, body: Some(vec![1]) };
    let req = with_timeout(req, 7);
    assert_eq!(req.headers.get("a").unwrap(), &vec!["1".to_string()]);
    assert_eq!(req.headers.get(HEADER_TIMEOUT).unwrap(), &vec!["7".to_string()]);
    assert_eq!((req.url.as_str(), req.body), ("/u", Some(vec![1])));
}

#[test]
fn a_context_tells_of_headers() {
    let mut h = Headers::new();
    h.insert("a".into(), vec!["1".into(), "2".into()]);
    h.insert("b".into(), vec![]);
    let ctx = RequestContext::new(h);
    assert_eq!(ctx.header("a"), Some("1"));
    assert_eq!(ctx.header("b"), None);
    assert_eq!(ctx.header("c"), None);
    assert_eq!(ctx.deadline_ms, 0);
    let ctx = RequestContext::default();
    assert!(ctx.headers.is_empty());
}

#[test]
fn a_deadline_cuts_a_call_short() {
    assert_eq!(time_limit(0), None);
    assert_eq!(time_limit(5), Some(5));
    assert_eq!(deadline_outcome(Some(Ok(7))).unwrap(), 7);
    let e = deadline_outcome::<u8>(None).unwrap_err();
    assert_eq!((e.code, e.message.as_str()), (4, "deadline exceeded"));
}
