use webhook_dispatch::dispatch::{receive_message, Outcome, Queue};
use webhook_dispatch::json::JsonValue;

const HELP_TEXT: &str = "Type /songlinks, followed by up to 10 lines of song titles to get download links.\n/readimage with an attached image, to get the text from the image.\n/donate to get a QR code.";

fn obj(fields: Vec<(&str, JsonValue)>) -> JsonValue {
    JsonValue::Obj(fields.into_iter().map(|(k, v)| (String::from(k), v)).collect())
}

fn message_payload(inner: Vec<(&str, JsonValue)>) -> JsonValue {
    obj(vec![("message", obj(inner))])
}

fn with_chat(mut inner: Vec<(&str, JsonValue)>) -> JsonValue {
    let mut fields = vec![("chat", obj(vec![("id", JsonValue::Int(77))]))];
    fields.append(&mut inner);
    message_payload(fields)
}

fn photo(width: Option<i64>, file_id: &str) -> JsonValue {
    let mut fields = Vec::new();
    if let Some(w) = width {
        fields.push(("width", JsonValue::Int(w)));
    }
    fields.push(("file_id", JsonValue::Str(String::from(file_id))));
    obj(fields)
}

fn expect_publish(outcome: Outcome) -> (Queue, i64, String) {
    match outcome {
        Outcome::Publish { queue, message } => (queue, message.chat_id, message.text),
        Outcome::Reject => panic!("expected a publish, got a rejection"),
        Outcome::NoOp => panic!("expected a publish, got a no-op"),
    }
}

#[test]
fn missing_chat_id_is_rejected() {
    let payload = message_payload(vec![("text", JsonValue::Str(String::from("/help")))]);
    assert!(matches!(receive_message(&payload), Outcome::Reject));
}

#[test]
fn missing_message_object_is_rejected() {
    let payload = obj(vec![("other", JsonValue::Null)]);
    assert!(matches!(receive_message(&payload), Outcome::Reject));
}

#[test]
fn non_integer_chat_id_is_rejected() {
    let payload = message_payload(vec![(
        "chat",
        obj(vec![("id", JsonValue::Str(String::from("77")))]),
    )]);
    assert!(matches!(receive_message(&payload), Outcome::Reject));
}

#[test]
fn readimage_picks_widest_photo() {
    let payload = with_chat(vec![
        ("caption", JsonValue::Str(String::from("/readimage"))),
        (
            "photo",
            JsonValue::Arr(vec![
                photo(Some(90), "small"),
                photo(Some(800), "big"),
                photo(Some(320), "medium"),
            ]),
        ),
    ]);
    let (queue, chat_id, text) = expect_publish(receive_message(&payload));
    assert_eq!(queue, Queue::ImageToText);
    assert_eq!(chat_id, 77);
    assert_eq!(text, "big");
}

#[test]
fn readimage_tie_takes_first_widest_photo() {
    let payload = with_chat(vec![
        ("caption", JsonValue::Str(String::from("/readimage"))),
        (
            "photo",
            JsonValue::Arr(vec![
                photo(Some(100), "first"),
                photo(Some(800), "winner"),
                photo(Some(800), "later"),
            ]),
        ),
    ]);
    let (queue, _, text) = expect_publish(receive_message(&payload));
    assert_eq!(queue, Queue::ImageToText);
    assert_eq!(text, "winner");
}

#[test]
fn readimage_without_widths_takes_first_photo() {
    let payload = with_chat(vec![
        ("caption", JsonValue::Str(String::from("/readimage"))),
        (
            "photo",
            JsonValue::Arr(vec![photo(None, "a"), photo(None, "b")]),
        ),
    ]);
    let (_, _, text) = expect_publish(receive_message(&payload));
    assert_eq!(text, "a");
}

#[test]
fn readimage_with_empty_photo_array_is_rejected() {
    let payload = with_chat(vec![
        ("caption", JsonValue::Str(String::from("/readimage"))),
        ("photo", JsonValue::Arr(vec![])),
    ]);
    assert!(matches!(receive_message(&payload), Outcome::Reject));
}

#[test]
fn readimage_with_absent_photo_array_is_rejected() {
    let payload = with_chat(vec![("caption", JsonValue::Str(String::from("/readimage")))]);
    assert!(matches!(receive_message(&payload), Outcome::Reject));
}

#[test]
fn readimage_without_file_id_on_widest_is_rejected() {
    let widest = obj(vec![("width", JsonValue::Int(999))]);
    let payload = with_chat(vec![
        ("caption", JsonValue::Str(String::from("/readimage"))),
        ("photo", JsonValue::Arr(vec![photo(Some(10), "small"), widest])),
    ]);
    assert!(matches!(receive_message(&payload), Outcome::Reject));
}

#[test]
fn unknown_caption_is_a_no_op() {
    let payload = with_chat(vec![("caption", JsonValue::Str(String::from("/other")))]);
    assert!(matches!(receive_message(&payload), Outcome::NoOp));
}

#[test]
fn caption_takes_precedence_over_text() {
    let payload = with_chat(vec![
        ("caption", JsonValue::Str(String::from("/other"))),
        ("text", JsonValue::Str(String::from("/help"))),
    ]);
    assert!(matches!(receive_message(&payload), Outcome::NoOp));
}

#[test]
fn help_text_goes_to_reply_queue() {
    let payload = with_chat(vec![("text", JsonValue::Str(String::from("/help")))]);
    let (queue, chat_id, text) = expect_publish(receive_message(&payload));
    assert_eq!(queue, Queue::Reply);
    assert_eq!(chat_id, 77);
    assert_eq!(text, HELP_TEXT);
}

#[test]
fn help_with_trailing_text_is_a_no_op() {
    let payload = with_chat(vec![("text", JsonValue::Str(String::from("/help me")))]);
    assert!(matches!(receive_message(&payload), Outcome::NoOp));
}

#[test]
fn unknown_text_is_a_no_op() {
    let payload = with_chat(vec![("text", JsonValue::Str(String::from("hello there")))]);
    assert!(matches!(receive_message(&payload), Outcome::NoOp));
}

#[test]
fn message_without_caption_or_text_is_a_no_op() {
    let payload = with_chat(vec![]);
    assert!(matches!(receive_message(&payload), Outcome::NoOp));
}

#[test]
fn songlinks_joins_following_lines() {
    let payload = with_chat(vec![(
        "text",
        JsonValue::Str(String::from("/songlinks\nfirst song\nsecond song")),
    )]);
    let (queue, chat_id, text) = expect_publish(receive_message(&payload));
    assert_eq!(queue, Queue::Music);
    assert_eq!(chat_id, 77);
    assert_eq!(text, "first song\nsecond song");
}

#[test]
fn songlinks_without_lines_sends_empty_text() {
    let payload = with_chat(vec![("text", JsonValue::Str(String::from("/songlinks")))]);
    let (queue, _, text) = expect_publish(receive_message(&payload));
    assert_eq!(queue, Queue::Music);
    assert_eq!(text, "");
}

#[test]
fn songlinks_keeps_at_most_ten_lines() {
    let mut input = String::from("/songlinks");
    for i in 1..=12 {
        input.push_str(&format!("\nsong {}", i));
    }
    let payload = with_chat(vec![("text", JsonValue::Str(input))]);
    let (_, _, text) = expect_publish(receive_message(&payload));
    let lines: Vec<&str> = text.split('\n').collect();
    assert_eq!(lines.len(), 10);
    assert_eq!(lines[0], "song 1");
    assert_eq!(lines[9], "song 10");
}

#[test]
fn songlinks_truncates_lines_to_fifty_characters() {
    let long = "x".repeat(80);
    let payload = with_chat(vec![(
        "text",
        JsonValue::Str(format!("/songlinks\n{}\nshort", long)),
    )]);
    let (_, _, text) = expect_publish(receive_message(&payload));
    assert_eq!(text, format!("{}\nshort", "x".repeat(50)));
}

#[test]
fn songlinks_truncates_by_characters_not_bytes() {
    let long = "é".repeat(60);
    let payload = with_chat(vec![(
        "text",
        JsonValue::Str(format!("/songlinks\n{}", long)),
    )]);
    let (_, _, text) = expect_publish(receive_message(&payload));
    assert_eq!(text, "é".repeat(50));
}

#[test]
fn songlinks_ignores_a_trailing_newline() {
    let payload = with_chat(vec![(
        "text",
        JsonValue::Str(String::from("/songlinks\nonly song\n")),
    )]);
    let (_, _, text) = expect_publish(receive_message(&payload));
    assert_eq!(text, "only song");
}

#[test]
fn songlinks_strips_carriage_returns_before_newlines() {
    let payload = with_chat(vec![(
        "text",
        JsonValue::Str(String::from("/songlinks\r\nsong a\r\nsong b")),
    )]);
    let (_, _, text) = expect_publish(receive_message(&payload));
    assert_eq!(text, "song a\nsong b");
}

#[test]
fn songlinks_prefix_matches_longer_command_text() {
    let payload = with_chat(vec![(
        "text",
        JsonValue::Str(String::from("/songlinks please\nonly song")),
    )]);
    let (queue, _, text) = expect_publish(receive_message(&payload));
    assert_eq!(queue, Queue::Music);
    assert_eq!(text, "only song");
}

#[test]
fn queue_names_match_broker_destinations() {
    assert_eq!(Queue::ImageToText.name(), "ImageToText");
    assert_eq!(Queue::Reply.name(), "Reply");
    assert_eq!(Queue::Music.name(), "Music");
}
