use holly::framing::{accept_commands, split_frames};
use holly::message::ChatMessage;

fn field(v: &serde_json::Value, key: &str) -> String {
    v.get(key).and_then(|x| x.as_str()).unwrap().to_string()
}

#[test]
fn two_coalesced_commands_decode_in_order() {
    let text = r#"{"sender":"a","content":"1","chat_id":"c"}{"sender":"a","content":"2","chat_id":"c"}"#;
    let frames = split_frames(text);
    assert_eq!(frames.len(), 2);
    let parsed: Vec<Option<ChatMessage>> = frames
        .iter()
        .map(|f| {
            serde_json::from_str::<serde_json::Value>(f)
                .ok()
                .map(|v| ChatMessage::new(field(&v, "sender"), field(&v, "content"), field(&v, "chat_id")))
        })
        .collect();
    let commands = accept_commands(parsed);
    assert_eq!(commands.len(), 2);
    assert_eq!(commands[0].content, "1");
    assert_eq!(commands[1].content, "2");
    assert_eq!(commands[0].sender, "a");
    assert_eq!(commands[1].chat_id, "c");
}

#[test]
fn single_object_is_one_frame() {
    assert_eq!(split_frames(r#"{"a":"b"}"#), vec![r#"{"a":"b"}"#.to_string()]);
}

#[test]
fn three_objects_get_their_braces_back() {
    assert_eq!(
        split_frames("{x}{y}{z}"),
        vec!["{x}".to_string(), "{y}".to_string(), "{z}".to_string()]
    );
}

#[test]
fn empty_read_is_one_empty_frame() {
    assert_eq!(split_frames(""), vec!["".to_string()]);
}

#[test]
fn separators_do_not_overlap() {
    assert_eq!(split_frames("}}{"), vec!["}}".to_string(), "{".to_string()]);
    assert_eq!(split_frames("}{}{"), vec!["}".to_string(), "{}".to_string(), "{".to_string()]);
}

#[test]
fn frames_split_inside_a_string_value() {
    let frames = split_frames(r#"{"content":"a}{b"}"#);
    assert_eq!(frames, vec![r#"{"content":"a}"#.to_string(), r#"{b"}"#.to_string()]);
}

#[test]
fn failed_frames_are_dropped_and_the_rest_cleaned() {
    let parsed = vec![
        None,
        Some(ChatMessage::new("s".to_string(), "étude".to_string(), "c".to_string())),
        None,
        Some(ChatMessage::new("t".to_string(), "plain".to_string(), "d".to_string())),
    ];
    let commands = accept_commands(parsed);
    assert_eq!(commands.len(), 2);
    assert_eq!(commands[0].content, "etude");
    assert_eq!(commands[0].sender, "s");
    assert_eq!(commands[1].content, "plain");
    assert_eq!(commands[1].chat_id, "d");
}
