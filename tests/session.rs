use ollama_chat::session::{begin_turn, settle_turn, SessionError, StreamOutcome, TurnStream};
use ollama_chat::transcript::{Role, Transcript};

fn record(content: &str, done: bool) -> String {
    format!(
        "{{\"message\":{{\"role\":\"assistant\",\"content\":\"{}\"}},\"done\":{}}}\n",
        content, done
    )
}

#[test]
fn end_to_end_turn() {
    let mut t = Transcript::new();
    let req = begin_turn(&mut t, "llama3", "hi".to_string());
    assert_eq!(
        req.to_json(),
        "{\"model\":\"llama3\",\"messages\":[{\"role\":\"user\",\"content\":\"hi\"}],\"stream\":true}"
    );
    let body = format!("{}{}", record("Hi", false), record("!", true));
    let outcome = StreamOutcome::Received { chunks: vec![body.into_bytes()], interrupted: false };
    let tokens = settle_turn(&mut t, &outcome).unwrap();
    assert_eq!(tokens.concat(), "Hi!");
    assert_eq!(t.len(), 2);
    assert_eq!(t.turn(0).role, Role::User);
    assert_eq!(t.turn(0).content, "hi");
    assert_eq!(t.turn(1).role, Role::Assistant);
    assert_eq!(t.turn(1).content, "Hi!");
}

#[test]
fn deltas_accumulate_in_order() {
    let mut t = Transcript::new();
    begin_turn(&mut t, "m", "greet".to_string());
    let body = format!("{}{}{}{}", record("Hel", false), record("lo, ", false), record("world", false), "{\"done\":true}\n");
    let bytes = body.into_bytes();
    let chunks: Vec<Vec<u8>> = bytes.chunks(5).map(|c| c.to_vec()).collect();
    let tokens = settle_turn(&mut t, &StreamOutcome::Received { chunks, interrupted: false }).unwrap();
    assert_eq!(tokens, vec!["Hel", "lo, ", "world"]);
    assert_eq!(t.turn(1).content, "Hello, world");
}

#[test]
fn connection_failure_keeps_only_user_turn() {
    let mut t = Transcript::new();
    begin_turn(&mut t, "m", "first".to_string());
    let r = settle_turn(&mut t, &StreamOutcome::Refused);
    assert_eq!(r.unwrap_err(), SessionError::ConnectionError);
    assert_eq!(t.len(), 1);
    assert_eq!(t.turn(0).role, Role::User);
    assert_eq!(t.turn(0).content, "first");
}

#[test]
fn interrupted_stream_commits_nothing() {
    let mut t = Transcript::new();
    begin_turn(&mut t, "m", "q".to_string());
    let chunks = vec![record("part", false).into_bytes()];
    let r = settle_turn(&mut t, &StreamOutcome::Received { chunks, interrupted: true });
    assert_eq!(r.unwrap_err(), SessionError::StreamInterrupted);
    assert_eq!(t.len(), 1);
}

#[test]
fn nothing_after_done() {
    let mut s = TurnStream::new();
    let first = format!("{}{}", record("end", true), record("extra", false));
    assert_eq!(s.on_chunk(first.as_bytes()), vec!["end"]);
    assert!(s.finished());
    assert!(s.on_chunk(record("late", false).as_bytes()).is_empty());
    assert_eq!(s.reply_text(), "end");
}

#[test]
fn empty_reply_adds_no_turn() {
    let mut t = Transcript::new();
    begin_turn(&mut t, "m", "hello".to_string());
    let chunks = vec![b"garbage\n{\"done\":true}\n".to_vec()];
    let tokens = settle_turn(&mut t, &StreamOutcome::Received { chunks, interrupted: false }).unwrap();
    assert!(tokens.is_empty());
    assert_eq!(t.len(), 1);
}

#[test]
fn later_request_carries_whole_transcript() {
    let mut t = Transcript::new();
    begin_turn(&mut t, "m", "a\"b".to_string());
    let _ = settle_turn(&mut t, &StreamOutcome::Refused);
    let req = begin_turn(&mut t, "m", "c".to_string());
    assert_eq!(req.messages.len(), 2);
    assert!(req.stream);
    assert_eq!(
        req.to_json(),
        "{\"model\":\"m\",\"messages\":[{\"role\":\"user\",\"content\":\"a\\\"b\"},{\"role\":\"user\",\"content\":\"c\"}],\"stream\":true}"
    );
}

#[test]
fn invalid_lines_in_a_turn_are_skipped() {
    let mut t = Transcript::new();
    begin_turn(&mut t, "m", "p".to_string());
    let body = format!(
        "{}garbage\n{}{{bad\n{}",
        record("d1", false),
        record("d2", false),
        record("d3", true)
    );
    let tokens = settle_turn(&mut t, &StreamOutcome::Received { chunks: vec![body.into_bytes()], interrupted: false }).unwrap();
    assert_eq!(tokens, vec!["d1", "d2", "d3"]);
    assert_eq!(t.len(), 2);
    assert_eq!(t.turn(1).content, "d1d2d3");
}

#[test]
fn split_multibyte_reply_is_kept_whole() {
    let mut t = Transcript::new();
    begin_turn(&mut t, "m", "x".to_string());
    let body = record("caf\u{e9}", true).into_bytes();
    let cut = body.iter().position(|b| *b == 0xC3).unwrap() + 1;
    let chunks = vec![body[..cut].to_vec(), body[cut..].to_vec()];
    let tokens = settle_turn(&mut t, &StreamOutcome::Received { chunks, interrupted: false }).unwrap();
    assert_eq!(tokens, vec!["caf\u{e9}"]);
    assert_eq!(t.turn(1).content, "caf\u{e9}");
}

#[test]
fn control_characters_are_escaped_in_requests() {
    let mut t = Transcript::new();
    let req = begin_turn(&mut t, "m", "a\tb\u{1}\\".to_string());
    assert_eq!(
        req.to_json(),
        "{\"model\":\"m\",\"messages\":[{\"role\":\"user\",\"content\":\"a\\tb\\u0001\\\\\"}],\"stream\":true}"
    );
}
