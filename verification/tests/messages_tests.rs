use foamer::messages::{parse_message, sort_messages_newest_first, Message, MessageError};
use foamer::svc::{validate_message, MessageRejection, MAX_MESSAGE_LEN};

#[test]
fn new_message_keeps_content_and_gets_a_36_char_id() {
    let m = Message::new("hello, world!".to_string());
    assert_eq!(m.content, "hello, world!");
    assert_eq!(m.id.len(), 36);
    let n = Message::new("other".to_string());
    assert_ne!(m.id, n.id);
}

#[test]
fn parse_message_reads_back_a_stored_record() {
    let m = parse_message(
        Some("id-1".to_string()),
        Some("hello".to_string()),
        Some("1970-01-01T00:00:01+00:00".to_string()),
    )
    .expect("valid record");
    assert_eq!(m.id, "id-1");
    assert_eq!(m.content, "hello");
    assert_eq!(m.created_at, 1_000);
}

#[test]
fn parse_message_honours_the_timezone_offset() {
    let m = parse_message(
        Some("id-2".to_string()),
        Some("x".to_string()),
        Some("1970-01-01T01:00:00+01:00".to_string()),
    )
    .expect("valid record");
    assert_eq!(m.created_at, 0);
}

#[test]
fn parse_message_names_the_first_missing_field() {
    assert_eq!(
        parse_message(None, Some("x".to_string()), Some("1970-01-01T00:00:00Z".to_string()))
            .unwrap_err(),
        MessageError::MissingId
    );
    assert_eq!(
        parse_message(Some("i".to_string()), None, None).unwrap_err(),
        MessageError::MissingContent
    );
    assert_eq!(
        parse_message(Some("i".to_string()), Some("x".to_string()), None).unwrap_err(),
        MessageError::MissingCreatedAt
    );
    assert_eq!(
        parse_message(
            Some("i".to_string()),
            Some("x".to_string()),
            Some("yesterday at noon".to_string())
        )
        .unwrap_err(),
        MessageError::InvalidCreatedAt
    );
}

fn message(id: &str, created_at: i64) -> Message {
    Message { id: id.to_string(), content: id.to_string(), created_at }
}

#[test]
fn sorting_puts_the_newest_message_first() {
    let mut msgs = vec![message("first", 10), message("second", 30), message("third", 20)];
    sort_messages_newest_first(&mut msgs);
    let order: Vec<&str> = msgs.iter().map(|m| m.id.as_str()).collect();
    assert_eq!(order, vec!["second", "third", "first"]);
}

#[test]
fn sorting_keeps_every_message() {
    let mut msgs = vec![message("a", 5), message("b", 5), message("c", 1), message("d", 9)];
    sort_messages_newest_first(&mut msgs);
    assert_eq!(msgs.len(), 4);
    let mut ids: Vec<&str> = msgs.iter().map(|m| m.id.as_str()).collect();
    ids.sort();
    assert_eq!(ids, vec!["a", "b", "c", "d"]);
    for pair in msgs.windows(2) {
        assert!(pair[0].created_at >= pair[1].created_at);
    }
}

#[test]
fn messages_up_to_the_byte_cap_are_accepted() {
    assert_eq!(validate_message("hello, world!"), Ok(()));
    assert_eq!(validate_message(""), Ok(()));
    assert_eq!(validate_message(&"x".repeat(MAX_MESSAGE_LEN)), Ok(()));
}

#[test]
fn over_long_messages_are_rejected() {
    assert_eq!(
        validate_message(&"x".repeat(MAX_MESSAGE_LEN + 1)),
        Err(MessageRejection::TooLong)
    );
    // The cap counts bytes, not characters: 49 two-byte characters break it.
    assert_eq!(validate_message(&"é".repeat(49)), Err(MessageRejection::TooLong));
    // 48 of them fit exactly, and only then is the character set checked.
    assert_eq!(validate_message(&"é".repeat(48)), Err(MessageRejection::NotAscii));
}

#[test]
fn non_ascii_messages_are_rejected() {
    assert_eq!(validate_message("héllo"), Err(MessageRejection::NotAscii));
    // An over-long message is reported as too long even when also not ASCII.
    assert_eq!(validate_message(&"é".repeat(60)), Err(MessageRejection::TooLong));
}
