use ollama_chat::lines::{reassemble, LineBuffer};
use ollama_chat::json::Json;
use ollama_chat::record::{decode_line, decode_lines, record_from_json};

fn stream_text() -> &'static str {
    "{\"a\":1}\r\nsecond line\n\n   \nthird\n"
}

#[test]
fn single_chunk_yields_trimmed_lines() {
    let chunks = vec![stream_text().as_bytes().to_vec()];
    let lines = reassemble(&chunks);
    assert_eq!(lines, vec!["{\"a\":1}", "second line", "third"]);
}

#[test]
fn one_byte_chunks_match_single_chunk() {
    let bytes = stream_text().as_bytes();
    let single = reassemble(&vec![bytes.to_vec()]);
    let split: Vec<Vec<u8>> = bytes.iter().map(|b| vec![*b]).collect();
    assert_eq!(reassemble(&split), single);
    let uneven = vec![bytes[..3].to_vec(), bytes[3..11].to_vec(), bytes[11..].to_vec()];
    assert_eq!(reassemble(&uneven), single);
}

#[test]
fn unterminated_tail_is_dropped() {
    let chunks = vec![b"one\ntw".to_vec(), b"o\nthree".to_vec()];
    assert_eq!(reassemble(&chunks), vec!["one", "two"]);
}

#[test]
fn multibyte_character_split_across_chunks() {
    let text = "caf\u{e9}\n";
    let bytes = text.as_bytes();
    let chunks = vec![bytes[..4].to_vec(), bytes[4..].to_vec()];
    assert_eq!(reassemble(&chunks), vec!["caf\u{e9}"]);
}

#[test]
fn invalid_bytes_do_not_stop_the_stream() {
    let chunks = vec![vec![b'a', 0xff, b'b', b'\n', b'o', b'k', b'\n']];
    assert_eq!(reassemble(&chunks), vec!["a\u{fffd}b", "ok"]);
}

#[test]
fn buffer_holds_partial_line_between_chunks() {
    let mut buf = LineBuffer::new();
    assert!(buf.push_chunk(b"par").is_empty());
    assert_eq!(buf.push_chunk(b"tial\nnext"), vec!["partial"]);
    assert_eq!(buf.push_chunk(b"\n"), vec!["next"]);
}

#[test]
fn decoder_skips_invalid_lines() {
    let lines: Vec<String> = vec![
        "{\"message\":{\"role\":\"assistant\",\"content\":\"A\"},\"done\":false}".to_string(),
        "not json".to_string(),
        "{\"done\":\"yes\"}".to_string(),
        "{\"done\":true}".to_string(),
        "[1,2]".to_string(),
    ];
    let records = decode_lines(&lines);
    assert_eq!(records.len(), 2);
    let m = records[0].message.as_ref().unwrap();
    assert_eq!(m.role, "assistant");
    assert_eq!(m.content, "A");
    assert!(!records[0].done);
    assert!(records[1].message.is_none());
    assert!(records[1].done);
}

#[test]
fn decoder_accepts_null_message() {
    let r = decode_line("{\"message\":null,\"done\":true,\"extra\":5}").unwrap();
    assert!(r.message.is_none());
    assert!(r.done);
    assert!(decode_line("{\"message\":{\"role\":\"assistant\"},\"done\":false}").is_none());
}

#[test]
fn record_from_tree_follows_the_schema() {
    let msg = Json::Object(vec![
        ("content".to_string(), Json::Str("x".to_string())),
        ("role".to_string(), Json::Str("assistant".to_string())),
    ]);
    let rec = Json::Object(vec![
        ("done".to_string(), Json::Bool(false)),
        ("message".to_string(), msg),
    ]);
    let r = record_from_json(&rec).unwrap();
    assert_eq!(r.message.unwrap().content, "x");
    assert!(!r.done);
    let bad_done = Json::Object(vec![("done".to_string(), Json::Number("1".to_string()))]);
    assert!(record_from_json(&bad_done).is_none());
    let bad_msg = Json::Object(vec![
        ("done".to_string(), Json::Bool(true)),
        ("message".to_string(), Json::Str("hi".to_string())),
    ]);
    assert!(record_from_json(&bad_msg).is_none());
    assert!(record_from_json(&Json::Array(vec![Json::Bool(true)])).is_none());
}

#[test]
fn padded_crlf_record_is_trimmed_before_decoding() {
    let chunks = vec![b"  {\"message\":{\"role\":\"assistant\",\"content\":\"ok\"},\"done\":true}  \r\n".to_vec()];
    let lines = reassemble(&chunks);
    assert_eq!(lines.len(), 1);
    let r = decode_line(&lines[0]).unwrap();
    assert_eq!(r.message.unwrap().content, "ok");
    assert!(r.done);
}
