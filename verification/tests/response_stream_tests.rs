use realtime_hub::response_stream::{AnswerStream, JsonScan, JsonStream, NewlineStream, Step};

fn bytes(s: &str) -> Vec<u8> {
    s.as_bytes().to_vec()
}

fn text(step: Step) -> String {
    match step {
        Step::Text(s) => s,
        other => panic!("no text: {:?}", other),
    }
}

fn json(step: Step) -> Vec<u8> {
    match step {
        Step::Json(v) => v,
        other => panic!("no value: {:?}", other),
    }
}

#[test]
fn newline_stream_hands_out_the_first_line() {
    let mut s = NewlineStream::new();
    assert!(matches!(s.on_chunk(&bytes("he")), Step::Pending));
    assert_eq!(s.buffered(), 2);
    assert_eq!(text(s.on_chunk(&bytes("llo\nwor"))), "hello");
    assert_eq!(s.buffered(), 3);
    assert_eq!(text(s.on_chunk(&bytes("ld\n"))), "world");
    assert_eq!(s.buffered(), 0);
    assert!(matches!(s.on_end(), Step::Finished));
}

#[test]
fn newline_stream_takes_one_line_per_chunk() {
    let mut s = NewlineStream::new();
    assert_eq!(text(s.on_chunk(&bytes("a\nb\nc"))), "a");
    assert_eq!(s.buffered(), 3);
    assert_eq!(text(s.on_chunk(&bytes(""))), "b");
    assert!(matches!(s.on_chunk(&bytes("")), Step::Pending));
    assert_eq!(text(s.on_end()), "c");
    assert_eq!(s.buffered(), 0);
    assert!(matches!(s.on_end(), Step::Finished));
}

#[test]
fn newline_stream_empty_line() {
    let mut s = NewlineStream::new();
    assert_eq!(text(s.on_chunk(&bytes("\n"))), "");
    assert_eq!(s.buffered(), 0);
}

#[test]
fn newline_stream_reports_invalid_utf8() {
    let mut s = NewlineStream::new();
    assert!(matches!(s.on_chunk(&vec![0xff, 0xfe, 10, 65]), Step::InvalidUtf8));
    assert_eq!(s.buffered(), 1);
    assert_eq!(text(s.on_end()), "A");
    let mut s = NewlineStream::new();
    assert!(matches!(s.on_chunk(&vec![0xc3]), Step::Pending));
    assert!(matches!(s.on_end(), Step::InvalidUtf8));
    assert_eq!(s.buffered(), 1);
}

#[test]
fn newline_stream_decodes_multibyte_text() {
    let mut s = NewlineStream::new();
    assert_eq!(text(s.on_chunk(&bytes("héllo ✓\n"))), "héllo ✓");
}

#[test]
fn json_stream_hands_out_complete_values() {
    let mut s = JsonStream::new();
    assert!(matches!(s.on_chunk(&bytes("{\"a\":")), Step::Pending));
    assert_eq!(s.buffered(), 5);
    assert_eq!(json(s.on_chunk(&bytes("1}{\"b\""))), bytes("{\"a\":1}"));
    assert_eq!(s.buffered(), 4);
    assert_eq!(json(s.on_chunk(&bytes(":[2,3]}"))), bytes("{\"b\":[2,3]}"));
    assert_eq!(s.buffered(), 0);
    assert!(matches!(s.on_end(), Step::Finished));
}

#[test]
fn json_stream_value_parses_with_serde_json() {
    let mut s = JsonStream::new();
    let v = json(s.on_chunk(&bytes(" {\"name\":\"x\",\"n\":[1,2]} ")));
    let parsed: serde_json::Value = serde_json::from_slice(&v).unwrap();
    assert_eq!(parsed["name"], "x");
    assert_eq!(parsed["n"][1], 2);
    assert_eq!(s.buffered(), 1);
    assert!(matches!(s.on_end(), Step::Finished));
}

#[test]
fn json_stream_reports_invalid_bytes() {
    let mut s = JsonStream::new();
    assert!(matches!(s.on_chunk(&bytes("}oops")), Step::InvalidJson));
    assert_eq!(s.buffered(), 5);
    assert_eq!(s.buffer(), &bytes("}oops"));
    assert!(matches!(s.on_end(), Step::InvalidJson));
}

#[test]
fn json_stream_ends_on_incomplete_value() {
    let mut s = JsonStream::new();
    assert!(matches!(s.on_chunk(&bytes("[1, 2")), Step::Pending));
    assert!(matches!(s.on_end(), Step::Finished));
    assert_eq!(s.buffered(), 5);
    let mut s = JsonStream::new();
    assert!(matches!(s.on_chunk(&bytes("   ")), Step::Pending));
    assert!(matches!(s.on_end(), Step::Finished));
}

#[test]
fn json_stream_settle_on_given_scans() {
    let mut s = JsonStream::new();
    assert!(matches!(s.on_chunk(&bytes("[1")), Step::Pending));
    assert_eq!(json(s.settle(JsonScan::Value(1), false)), bytes("["));
    assert_eq!(s.buffered(), 1);
    assert!(matches!(s.settle(JsonScan::Invalid, false), Step::InvalidJson));
    assert!(matches!(s.settle(JsonScan::Incomplete, false), Step::Pending));
    assert!(matches!(s.settle(JsonScan::Incomplete, true), Step::Finished));
    assert!(matches!(s.settle(JsonScan::Nothing, false), Step::Pending));
    assert!(matches!(s.settle(JsonScan::Nothing, true), Step::Finished));
    assert_eq!(json(s.settle(JsonScan::Value(0), true)), Vec::<u8>::new());
    assert_eq!(s.buffered(), 1);
}

#[test]
fn answer_stream_tells_text_from_json() {
    let mut s = AnswerStream::new();
    assert_eq!(text(s.on_chunk(&bytes("hello\n"))), "hello");
    assert_eq!(s.buffered(), 0);
    assert!(matches!(s.on_chunk(&bytes("{\"id\":")), Step::Pending));
    assert_eq!(text(s.on_chunk(&bytes("more\n"))), "more");
    assert_eq!(s.buffered(), 6);
    assert_eq!(json(s.on_chunk(&bytes("7}"))), bytes("{\"id\":7}"));
    assert_eq!(s.buffered(), 0);
    assert!(matches!(s.on_chunk(&bytes("nope")), Step::InvalidJson));
    assert_eq!(s.buffer(), &bytes("nope"));
    assert!(matches!(s.on_end(), Step::Finished));
}

#[test]
fn answer_stream_reports_invalid_text() {
    let mut s = AnswerStream::new();
    assert!(matches!(s.on_chunk(&vec![0x80, 10]), Step::InvalidUtf8));
    assert_eq!(text(s.on_chunk(&vec![10])), "");
}
