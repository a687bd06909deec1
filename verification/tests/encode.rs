use webhook_dispatch::dispatch::RabbitMessage;
use webhook_dispatch::encode::encode_message;

fn encoded(chat_id: i64, text: &str) -> String {
    encode_message(&RabbitMessage { chat_id, text: String::from(text) })
}

fn serde_reference(chat_id: i64, text: &str) -> String {
    let mut fields = serde_json::Map::new();
    fields.insert(String::from("chat_id"), serde_json::Value::from(chat_id));
    fields.insert(
        String::from("text"),
        serde_json::Value::String(String::from(text)),
    );
    serde_json::to_string(&serde_json::Value::Object(fields)).unwrap()
}

#[test]
fn encodes_plain_message() {
    assert_eq!(
        encoded(42, "hello"),
        "{\"chat_id\":42,\"text\":\"hello\"}"
    );
}

#[test]
fn encodes_zero_chat_id() {
    assert_eq!(encoded(0, ""), "{\"chat_id\":0,\"text\":\"\"}");
}

#[test]
fn encodes_negative_chat_id() {
    assert_eq!(encoded(-7, "x"), "{\"chat_id\":-7,\"text\":\"x\"}");
}

#[test]
fn encodes_extreme_chat_ids() {
    assert_eq!(
        encoded(i64::MAX, ""),
        "{\"chat_id\":9223372036854775807,\"text\":\"\"}"
    );
    assert_eq!(
        encoded(i64::MIN, ""),
        "{\"chat_id\":-9223372036854775808,\"text\":\"\"}"
    );
}

#[test]
fn escapes_quotes_and_backslashes() {
    assert_eq!(
        encoded(1, "a\"b\\c"),
        "{\"chat_id\":1,\"text\":\"a\\\"b\\\\c\"}"
    );
}

#[test]
fn escapes_named_control_characters() {
    assert_eq!(
        encoded(1, "a\nb\rc\td\u{8}e\u{c}f"),
        "{\"chat_id\":1,\"text\":\"a\\nb\\rc\\td\\be\\ff\"}"
    );
}

#[test]
fn escapes_other_control_characters_as_hex() {
    assert_eq!(
        encoded(1, "\u{1}\u{1f}"),
        "{\"chat_id\":1,\"text\":\"\\u0001\\u001f\"}"
    );
}

#[test]
fn keeps_non_ascii_text_unescaped() {
    assert_eq!(
        encoded(1, "déjà vu ✓"),
        "{\"chat_id\":1,\"text\":\"déjà vu ✓\"}"
    );
}

#[test]
fn matches_canonical_json_serializer() {
    let cases: Vec<(i64, &str)> = vec![
        (12345, "plain"),
        (-987654321, "quotes \" and \\ backslashes"),
        (0, "line\nbreaks\tand\rcontrols \u{2} \u{1e}"),
        (i64::MIN, "unicode: héllo wörld ✓"),
    ];
    for (chat_id, text) in cases {
        assert_eq!(encoded(chat_id, text), serde_reference(chat_id, text));
    }
}
