//! Content types and the codecs that they name.
use easy_rpc::protocol::{content_kind_of, content_type_for, is_stream_content_type, ContentKind};

#[test]
fn content_kind_mapping() {
    assert_eq!(content_kind_of("application/proto"), Some(ContentKind::Proto));
    assert_eq!(content_kind_of("application/json; charset=utf-8"), Some(ContentKind::Json));
    assert_eq!(content_kind_of("application/connect+json"), Some(ContentKind::Json));
    assert_eq!(content_kind_of("text/plain"), None);
    assert_eq!(content_type_for(false, ContentKind::Json), "application/json");
    assert_eq!(content_type_for(true, ContentKind::Json), "application/connect+json");
}

#[test]
fn every_written_content_type_is_read_back() {
    for kind in [ContentKind::Proto, ContentKind::Json] {
        for stream in [false, true] {
            let t = content_type_for(stream, kind);
            assert_eq!(content_kind_of(t), Some(kind));
            assert_eq!(is_stream_content_type(t), stream);
        }
    }
    assert_eq!(content_type_for(false, ContentKind::Proto), "application/proto");
    assert_eq!(content_type_for(true, ContentKind::Proto), "application/connect+proto");
}

#[test]
fn a_missing_content_type_is_the_protobuf_codec() {
    assert_eq!(content_kind_of(""), Some(ContentKind::Proto));
    assert!(!is_stream_content_type(""));
    assert_eq!(content_kind_of(" application/json ;x"), Some(ContentKind::Json));
    assert!(is_stream_content_type("application/connect+xml"));
    assert_eq!(content_kind_of("application/connect+xml"), None);
}
