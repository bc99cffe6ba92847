use holly::message::ChatMessage;

#[test]
fn clean_transliterates_content_only() {
    let mut m = ChatMessage::new("Zoë".to_string(), "Æneid 北亰".to_string(), "ç".to_string());
    m.clean();
    assert_eq!(m.content, "AEneid Bei Jing ");
    assert_eq!(m.sender, "Zoë");
    assert_eq!(m.chat_id, "ç");
}

#[test]
fn clean_keeps_ascii() {
    let mut m = ChatMessage::new("a".to_string(), "hello, world!".to_string(), "c".to_string());
    m.clean();
    assert_eq!(m.content, "hello, world!");
}

#[test]
fn equality_is_by_all_fields() {
    let a = ChatMessage::new("a".to_string(), "x".to_string(), "c".to_string());
    assert!(a == a.duplicate());
    assert!(a != ChatMessage::new("b".to_string(), "x".to_string(), "c".to_string()));
    assert!(a != ChatMessage::new("a".to_string(), "y".to_string(), "c".to_string()));
    assert!(a != ChatMessage::new("a".to_string(), "x".to_string(), "d".to_string()));
}

#[test]
fn preview_cuts_long_content() {
    let long: String = std::iter::repeat('é').take(60).collect();
    let m = ChatMessage::new("a".to_string(), long, "c".to_string());
    let expected: String = std::iter::repeat('é').take(50).collect::<String>() + "...";
    assert_eq!(m.preview(), expected);
    let exact: String = std::iter::repeat('x').take(50).collect();
    let m = ChatMessage::new("a".to_string(), exact.clone(), "c".to_string());
    assert_eq!(m.preview(), exact);
}
