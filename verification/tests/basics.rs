//! The pieces that the wire is made of: text, numbers, base64, order, headers,
//! frames and documents.
use easy_rpc::base64::{b64_decode, b64_encode};
use easy_rpc::decimal::{read_signed, read_u64, write_i64, write_u64};
use easy_rpc::framing::{frame, read_frame};
use easy_rpc::headers::Headers;
use easy_rpc::json::{parse_json, write_json, Json};
use easy_rpc::order::{place_of, Place};
use easy_rpc::stream::collect_frames;
use easy_rpc::text;

#[test]
fn white_space_is_what_std_takes_for_it() {
    for n in 0..=0x10ffffu32 {
        if let Some(c) = char::from_u32(n) {
            assert_eq!(text::white_space(c), c.is_whitespace());
        }
    }
}

#[test]
fn cutting_text() {
    assert_eq!(text::trim(" \t a b \u{3000}"), "a b");
    assert_eq!(text::trim("\n"), "");
    assert_eq!(text::cut_before_first("a?b?c", '?'), "a");
    assert_eq!(text::cut_before_first("abc", '?'), "abc");
    assert_eq!(text::cut_after_last("a/b/c", '/'), "c");
    assert_eq!(text::cut_after_last("a/", '/'), "");
    assert_eq!(text::cut_after_last("abc", '/'), "abc");
    assert_eq!(text::cut_trailing("a/b//", '/'), "a/b");
    assert_eq!(text::cut_trailing("//", '/'), "");
    assert_eq!(text::split("a,,b", ','), vec!["a", "", "b"]);
    assert_eq!(text::split("", ','), vec![""]);
    assert_eq!(text::without_first("h\u{e9}llo", 2), "llo");
    assert!(text::starts_with("abc", "") && text::starts_with("abc", "abc"));
    assert!(!text::starts_with("ab", "abc") && !text::starts_with("xbc", "a"));
    assert_eq!(text::to_ascii_lowercase("AZ\u{c9}az09"), "az\u{c9}az09");
    assert!(text::same_text_ignoring_ascii_case("Content-TYPE", "content-type"));
    assert!(!text::same_text_ignoring_ascii_case("\u{c9}", "\u{e9}"));
}

#[test]
fn numbers_in_words() {
    for n in [0u64, 7, 10, 999, 1000, u64::MAX] {
        assert_eq!(write_u64(n), n.to_string());
        assert_eq!(read_u64(&write_u64(n)), Some(n));
    }
    for n in [0i64, -1, 10, i64::MIN, i64::MAX] {
        assert_eq!(write_i64(n), n.to_string());
        assert_eq!(read_signed(&write_i64(n), i64::MIN, i64::MAX), Some(n));
    }
    for s in ["", "+", "-", "1x", " 1", "--1", "18446744073709551616", "007", "+5", "-5"] {
        assert_eq!(read_u64(s), s.parse::<u64>().ok(), "{s}");
        assert_eq!(read_signed(s, i32::MIN as i64, i32::MAX as i64), s.parse::<i32>().ok().map(|n| n as i64), "{s}");
    }
}

#[test]
fn base64_of_every_length() {
    assert_eq!(b64_encode(b""), "");
    assert_eq!(b64_encode(b"f"), "Zg==");
    assert_eq!(b64_encode(b"fo"), "Zm8=");
    assert_eq!(b64_encode(b"foo"), "Zm9v");
    assert_eq!(b64_encode(&[0xfb, 0xff]), "+/8=");
    let data: Vec<u8> = (0..=255u8).collect();
    for n in 0..=256 {
        assert_eq!(b64_decode(&b64_encode(&data[..n])).unwrap(), &data[..n]);
    }
}

#[test]
fn base64_that_is_malformed() {
    assert_eq!(b64_decode("Zg="), None);
    assert_eq!(b64_decode("Z!=="), None);
    assert_eq!(b64_decode("!!!"), None);
    assert_eq!(b64_decode("\u{e9}\u{e9}"), None);
    assert_eq!(b64_decode("===="), Some(vec![]));
    assert_eq!(b64_decode("Zg=!"), Some(vec![b'f']));
}

#[test]
fn texts_are_ordered_as_std_orders_them() {
    let words = ["", "a", "ab", "b", "B", "\u{e9}", "\u{ffff}", "\u{10000}"];
    for a in words {
        for b in words {
            let place = place_of(a, b);
            assert_eq!(matches!(place, Place::Before), a < b);
            assert_eq!(matches!(place, Place::Same), a == b);
        }
    }
}

#[test]
fn header_maps() {
    let mut h = Headers::new();
    assert!(h.is_empty());
    h.insert("b".into(), vec!["1".into()]);
    h.push("a", "2");
    h.push("b", "3");
    h.append("c", &vec![]);
    assert_eq!(h.len(), 3);
    assert_eq!((h.name_at(0).as_str(), h.name_at(1).as_str()), ("a", "b"));
    assert_eq!(h.values_at(1), &vec!["1".to_string(), "3".into()]);
    assert_eq!(h.first("b").unwrap(), "1");
    assert!(h.first("c").is_none() && h.get("c").unwrap().is_empty());
    h.set("b", "4");
    assert_eq!(h.get("b").unwrap(), &vec!["4".to_string()]);
    assert_eq!(h.clone(), h);
    assert_eq!(Headers::default(), Headers::new());
}

#[test]
fn frames_are_read_back() {
    let mut buf = frame(b"abc", true);
    buf.extend_from_slice(b"later");
    assert_eq!(read_frame(&buf), Some((b"abc".to_vec(), true, 8)));
    assert_eq!(read_frame(&frame(b"", false)), Some((vec![], false, 5)));
    assert!(read_frame(&[0, 0, 0, 0]).is_none());
    assert!(read_frame(&[0, 0, 0x40, 0, 0]).is_none());
    assert_eq!(collect_frames(&[vec![1], vec![], vec![2, 3]]), vec![1, 2, 3]);
}

#[test]
fn documents_are_read_and_written() {
    let text = br#" {"b":[1,true,null,"x"],"a":{"n":-2.5e3},"b":"last"} "#;
    let j = parse_json(text).unwrap();
    assert_eq!(j.member_text("b").unwrap(), "last");
    assert!(j.member("c").is_none() && j.as_text().is_none());
    let written = write_json(j);
    assert_eq!(std::str::from_utf8(&written).unwrap(), r#"{"a":{"n":-2500.0},"b":"last"}"#);
    let j = Json::Object(vec![
        ("x".into(), Json::Text("1".into())),
        ("x".into(), Json::Array(vec![Json::Null, Json::Bool(false)])),
    ]);
    assert_eq!(write_json(j), br#"{"x":[null,false]}"#);
    assert!(parse_json(b"{").is_none() && parse_json(b"").is_none());
    let mut deep = Json::Text("x".into());
    for _ in 0..127 {
        deep = Json::Array(vec![deep]);
    }
    assert!(parse_json(&write_json(deep)).is_some());
}
