use ws_relay::classify::Cmd;
use ws_relay::classify::TextClass;
use ws_relay::classify::classify_frame;
use ws_relay::classify::classify_text;
use ws_relay::frame::Frame;
use ws_relay::ident::KEEPALIVE_INTERVAL_SECS;
use ws_relay::ident::fresh_identity;
use ws_relay::registry::Registry;

#[test]
fn classify_register_message() {
    let c = classify_text("{\"type\": \"register\", \"connectionId\": \"X\"}");
    assert_eq!(c, TextClass::Register("X".to_string()));
}

#[test]
fn classify_register_without_connection_id() {
    assert_eq!(classify_text("{\"type\": \"register\"}"), TextClass::Plain);
    assert_eq!(
        classify_text("{\"type\": \"register\", \"connectionId\": 7}"),
        TextClass::Plain
    );
}

#[test]
fn classify_register_wins_over_target_id() {
    let c = classify_text(
        "{\"type\": \"register\", \"connectionId\": \"X\", \"target_id\": \"Y\"}",
    );
    assert_eq!(c, TextClass::Register("X".to_string()));
}

#[test]
fn classify_addressed_message() {
    let c = classify_text("{\"target_id\": \"Y\", \"msg\": \"hello\"}");
    assert_eq!(c, TextClass::Addressed("Y".to_string()));
}

#[test]
fn classify_addressed_with_other_type() {
    let c = classify_text("{\"type\": \"offer\", \"target_id\": \"Y\"}");
    assert_eq!(c, TextClass::Addressed("Y".to_string()));
}

#[test]
fn classify_rejects_invalid_json() {
    assert_eq!(classify_text("not json"), TextClass::Plain);
    assert_eq!(classify_text(""), TextClass::Plain);
    assert_eq!(classify_text("{\"target_id\": \"Y\""), TextClass::Plain);
}

#[test]
fn classify_rejects_irrelevant_json() {
    assert_eq!(classify_text("{\"msg\": \"hello\"}"), TextClass::Plain);
    assert_eq!(classify_text("[1, 2, 3]"), TextClass::Plain);
    assert_eq!(classify_text("\"register\""), TextClass::Plain);
    assert_eq!(classify_text("{\"target_id\": 5}"), TextClass::Plain);
    assert_eq!(classify_text("{\"type\": \"offer\"}"), TextClass::Plain);
}

#[test]
fn classify_frame_kinds() {
    assert_eq!(
        classify_frame(Frame::Text("{\"target_id\": \"Y\"}".to_string())),
        Cmd::Addressed("Y".to_string(), "{\"target_id\": \"Y\"}".to_string())
    );
    assert_eq!(classify_frame(Frame::Binary(vec![1])), Cmd::BinaryIn(vec![1]));
    assert_eq!(classify_frame(Frame::Close), Cmd::CloseIn);
    assert_eq!(classify_frame(Frame::Ping(vec![])), Cmd::Ignore);
    assert_eq!(classify_frame(Frame::Pong(vec![])), Cmd::Ignore);
}

#[test]
fn registry_last_writer_wins() {
    let mut reg: Registry<u64> = Registry::new();
    reg.register("X".to_string(), 1);
    reg.register("X".to_string(), 2);
    assert_eq!(reg.lookup(&"X".to_string()), Some(&2));
}

#[test]
fn registry_lookup_and_remove() {
    let mut reg: Registry<u64> = Registry::new();
    assert_eq!(reg.lookup(&"X".to_string()), None);
    reg.register("X".to_string(), 1);
    reg.register("Y".to_string(), 2);
    assert_eq!(reg.lookup(&"X".to_string()), Some(&1));
    assert_eq!(reg.lookup(&"Y".to_string()), Some(&2));
    reg.remove(&"X".to_string());
    assert_eq!(reg.lookup(&"X".to_string()), None);
    assert_eq!(reg.lookup(&"Y".to_string()), Some(&2));
    // Removing an absent identity is a no-op.
    reg.remove(&"X".to_string());
    assert_eq!(reg.lookup(&"Y".to_string()), Some(&2));
}

#[test]
fn fresh_identity_is_a_hyphenated_uuid() {
    let id = fresh_identity();
    assert_eq!(id.len(), 36);
    let hyphens: Vec<usize> = id
        .char_indices()
        .filter(|(_, ch)| *ch == '-')
        .map(|(i, _)| i)
        .collect();
    assert_eq!(hyphens, vec![8, 13, 18, 23]);
}

#[test]
fn keepalive_interval_is_thirty() {
    assert_eq!(KEEPALIVE_INTERVAL_SECS, 30);
}
