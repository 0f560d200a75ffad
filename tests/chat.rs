use ollama_chat::chat::{classify_input, classify_trimmed, CandleChat, InputAction};

#[test]
fn quit_and_exit_end_the_loop() {
    assert!(matches!(classify_input("quit"), InputAction::Quit));
    assert!(matches!(classify_input("exit\n"), InputAction::Quit));
}

#[test]
fn blank_input_is_skipped() {
    assert!(matches!(classify_input("   \n"), InputAction::Skip));
    assert!(matches!(classify_input(""), InputAction::Skip));
}

#[test]
fn other_input_is_sent_trimmed() {
    match classify_input("  hi there \n") {
        InputAction::Send(s) => assert_eq!(s, "hi there"),
        other => panic!("unexpected {:?}", other),
    }
    assert!(matches!(classify_input("Quit"), InputAction::Send(_)));
}

#[test]
fn demo_reply_tokens() {
    let chat = CandleChat::new("/models/a.gguf");
    assert_eq!(chat.model_path(), "/models/a.gguf");
    let tokens = chat.response_tokens();
    assert_eq!(tokens.len(), 11);
    assert_eq!(tokens.concat(), "This would be generated directly from the GGUF model file!");
}

#[test]
fn trimmed_input_is_classified_directly() {
    assert!(matches!(classify_trimmed("quit"), InputAction::Quit));
    assert!(matches!(classify_trimmed(""), InputAction::Skip));
    assert!(matches!(classify_trimmed(" quit"), InputAction::Send(_)));
}
