use webview_app::encode::wide_null;
use webview_app::instance::{
    claim_outcome, listen_step, message_arg, ListenStep, mutex_name, pipe_message, pipe_name, pipe_payload,
    pipe_write_len, safe_app_id, trim_message, ClaimKind, PIPE_BUFFER_SIZE,
};

#[test]
fn app_ids_are_made_safe() {
    assert_eq!(safe_app_id("My App.v2"), "My-App-v2");
    assert_eq!(safe_app_id("ünï"), "-n-");
    assert_eq!(safe_app_id(""), "");
    assert_eq!(safe_app_id(&safe_app_id("a b")), "a-b");
}

#[test]
fn pipe_and_mutex_names() {
    assert_eq!(pipe_name("My App"), wide_null(r"\\.\pipe\nest-My-App"));
    assert_eq!(mutex_name("My App"), wide_null("Local\\nest-My-App-instance"));
    assert_ne!(pipe_name("a"), pipe_name("b"));
}

#[test]
fn claim_outcomes() {
    assert_eq!(claim_outcome(false, true, true), ClaimKind::Disabled);
    assert_eq!(claim_outcome(false, false, false), ClaimKind::Disabled);
    assert_eq!(claim_outcome(true, false, false), ClaimKind::Failed);
    assert_eq!(claim_outcome(true, true, true), ClaimKind::Secondary);
    assert_eq!(claim_outcome(true, true, false), ClaimKind::Primary);
}

#[test]
fn payload_and_write_length() {
    assert_eq!(pipe_payload(Some("héllo")), "héllo".as_bytes().to_vec());
    assert_eq!(pipe_payload(None), Vec::<u8>::new());
    assert_eq!(pipe_payload(Some("")), Vec::<u8>::new());
    assert_eq!(pipe_write_len(5), 5);
    assert_eq!(pipe_write_len(0), 0);
    assert_eq!(pipe_write_len(u32::MAX as usize), u32::MAX);
    if usize::BITS > 32 {
        assert_eq!(pipe_write_len(usize::MAX), u32::MAX);
    }
}

#[test]
fn messages_are_decoded_and_trimmed() {
    assert_eq!(pipe_message(b"hello\r\n"), "hello");
    assert_eq!(pipe_message(b"a\nb\n\r\n"), "a\nb");
    assert_eq!(pipe_message(b"\r\n"), "");
    assert_eq!(pipe_message(&[0x66, 0xFF]), "f\u{FFFD}");
    assert_eq!(trim_message(" x \r"), " x ");
    assert_eq!(message_arg(String::new()), None);
    assert_eq!(message_arg("mailto:a@b".to_string()), Some("mailto:a@b".to_string()));
}

#[test]
fn handover_round_trips() {
    for arg in [Some("mailto:bob@example.com"), Some("admin"), Some("ü 😀"), Some(""), None] {
        let payload = pipe_payload(arg);
        assert!(payload.len() <= PIPE_BUFFER_SIZE);
        let received = message_arg(pipe_message(&payload));
        let expected = arg.filter(|a| !a.is_empty()).map(|a| a.to_string());
        assert_eq!(received, expected);
    }
}

#[test]
fn listener_steps() {
    assert_eq!(listen_step(false, true, true), ListenStep::Stop);
    assert_eq!(listen_step(true, true, true), ListenStep::Deliver);
    assert_eq!(listen_step(true, false, false), ListenStep::Skip);
    assert_eq!(listen_step(true, true, false), ListenStep::Skip);
}
