//! Malformed streams: the reader must come to an error, and never hand out part
//! of a message or compressed bytes.
use easy_rpc::protocol::RPCError;
use easy_rpc::stream::{StreamDecoder, StreamStep};
use flate2::read::GzDecoder;
use flate2::write::GzEncoder;
use std::io::{Read, Write};

fn frame(payload: &[u8], end: bool, compressed: bool) -> Vec<u8> {
    let flags = (if end { 0x02u8 } else { 0 }) | (if compressed { 0x01 } else { 0 });
    let mut out = vec![flags];
    out.extend_from_slice(&(payload.len() as u32).to_be_bytes());
    out.extend_from_slice(payload);
    out
}

/// Reads a body that arrives in chunks of the given size, to its end.
fn collect_chunked(body: &[u8], size: usize) -> (Vec<u8>, Option<RPCError>, StreamDecoder) {
    let mut d = StreamDecoder::new();
    let mut out = Vec::new();
    let mut chunks = body.chunks(size);
    loop {
        match d.step() {
            StreamStep::Message(m) => out.extend_from_slice(&m),
            StreamStep::Done => break,
            StreamStep::More => match chunks.next() {
                Some(c) => d.feed(c),
                None => {
                    d.finish();
                    break;
                }
            },
        }
    }
    let err = d.last_error();
    (out, err, d)
}

fn collect(body: Vec<u8>) -> (Vec<u8>, Option<RPCError>) {
    let (out, err, _) = collect_chunked(&body, body.len().max(1));
    (out, err)
}

fn gunzip(data: &[u8]) -> Vec<u8> {
    let mut d = GzDecoder::new(data);
    let mut out = Vec::new();
    d.read_to_end(&mut out).unwrap();
    out
}

#[test]
fn f1_mid_frame_truncation_errors() {
    let mut body = frame(&[0], false, false);
    let full = frame(&[1, 1, 1, 1, 1, 1, 1, 1], false, false);
    body.extend_from_slice(&full[..full.len() - 4]); // cut mid-payload
    let (out, err) = collect(body);
    assert_eq!(out, vec![0]);
    assert!(err.is_some(), "F1: truncated frame must error");
}

#[test]
fn f2_missing_end_frame_errors() {
    let body = frame(&[0], false, false);
    let (out, err) = collect(body);
    assert_eq!(out, vec![0]);
    let e = err.expect("F2: missing END frame must error");
    assert_eq!(e.code, 13);
}

#[test]
fn f3_garbage_end_is_clean() {
    let mut body = frame(&[0], false, false);
    body.extend_from_slice(&frame(&[0xff, 0xfe, 0x42], true, false));
    let (out, err) = collect(body);
    assert_eq!(out, vec![0]);
    assert!(err.is_none(), "F3: garbage END is a clean end, got {err:?}");
}

#[test]
fn f4_corrupt_gzip_errors_never_raw() {
    let corrupt = [0x1f, 0x8b, 0x08, 0x00, 0xde, 0xad, 0xbe, 0xef];
    let mut body = frame(&corrupt, false, true);
    body.extend_from_slice(&frame(&[], true, false));
    let (out, err) = collect(body);
    assert!(out.is_empty(), "F4: must never yield raw compressed bytes");
    assert!(err.is_some(), "F4: corrupt gzip must error");
}

#[test]
fn f6_valid_gzip_decodes() {
    let gz = {
        let mut e = GzEncoder::new(Vec::new(), flate2::Compression::default());
        e.write_all(&[7]).unwrap();
        e.finish().unwrap()
    };
    let mut body = frame(&gz, false, true);
    body.extend_from_slice(&frame(&[], true, false));
    let (out, err) = collect(body);
    assert_eq!(out, vec![7]);
    assert!(err.is_none());
}

#[test]
fn frame_compressed_actually_compresses() {
    let data = vec![0u8; 2048];
    let f = easy_rpc::protocol::frame_compressed(&data);
    assert_eq!(f[0] & 0x01, 1);
    assert!(f.len() < 5 + data.len(), "must actually compress");
    assert_eq!(gunzip(&f[5..]), data);
}

#[test]
fn a_stream_may_be_cut_into_chunks_anywhere() {
    let mut body = frame(&[1, 2, 3], false, false);
    body.extend_from_slice(&easy_rpc::protocol::frame_compressed(&[9; 300]));
    body.extend_from_slice(&frame(br#"{"metadata":{"t":["v"]}}"#, true, false));
    let mut want = vec![1, 2, 3];
    want.extend_from_slice(&[9; 300]);
    for size in 1..body.len() + 1 {
        let (out, err, d) = collect_chunked(&body, size);
        assert_eq!(out, want);
        assert!(err.is_none());
        assert!(d.ended);
        assert_eq!(d.trailers.get("t").unwrap()[0], "v");
    }
}

#[test]
fn an_error_on_the_last_frame_is_the_error_of_the_stream() {
    let mut body = frame(&[5], false, false);
    body.extend_from_slice(&frame(
        br#"{"error":{"code":"not_found","message":"gone","details":[{"type":"t","value":"AQID"}]}}"#,
        true,
        false,
    ));
    body.extend_from_slice(&frame(&[6], false, false)); // never read
    let (out, err, mut d) = collect_chunked(&body, body.len());
    assert_eq!(out, vec![5]);
    let e = err.unwrap();
    assert_eq!((e.code, e.message.as_str()), (5, "gone"));
    assert_eq!(e.details[0].value, vec![1, 2, 3]);
    assert!(matches!(d.step(), StreamStep::Done));
}

#[test]
fn the_end_of_a_connection_tells_what_is_missing() {
    let mut d = StreamDecoder::new();
    d.finish();
    assert_eq!(d.last_error().unwrap().message, "stream ended without END frame");
    let mut d = StreamDecoder::new();
    d.feed(&[0, 0, 0]);
    assert!(matches!(d.step(), StreamStep::More));
    d.finish();
    assert_eq!(d.last_error().unwrap().message, "truncated frame at end of stream");
    let mut d = StreamDecoder::new();
    d.feed(&frame(&[], true, false));
    assert!(matches!(d.step(), StreamStep::Done));
    d.finish();
    assert!(d.last_error().is_none());
    let mut d = StreamDecoder::new();
    d.fail("connection reset");
    let e = d.last_error().unwrap();
    assert_eq!((e.code, e.message.as_str()), (13, "connection reset"));
}

#[test]
fn corrupt_gzip_comes_to_its_own_error() {
    let mut d = StreamDecoder::new();
    assert!(matches!(d.take_frame(1, None), StreamStep::Done));
    let e = d.last_error().unwrap();
    assert_eq!((e.code, e.message.as_str()), (13, "corrupt gzip data"));
    assert!(!d.ended);
}
