use holly::scrape::{assemble_messages, chat_id_from_link, chat_id_from_path, enough_rows, strip_selectors, ScrapedRow};

fn row(content: &str, sender: Option<&str>) -> ScrapedRow {
    ScrapedRow { content: content.to_string(), sender: sender.map(|s| s.to_string()) }
}

#[test]
fn chat_id_is_the_last_path_segment() {
    assert_eq!(chat_id_from_path("/t/100012345/"), Some("100012345".to_string()));
    assert_eq!(chat_id_from_path("/t/100012345"), Some("100012345".to_string()));
    assert_eq!(chat_id_from_path("/e2ee/t/42//"), Some("42".to_string()));
    assert_eq!(chat_id_from_path("abc"), Some("abc".to_string()));
    assert_eq!(chat_id_from_path("/"), None);
    assert_eq!(chat_id_from_path(""), None);
}

#[test]
fn chat_id_from_side_bar_link() {
    assert_eq!(chat_id_from_link("/t/100012345/"), "100012345");
    assert_eq!(chat_id_from_link("/e2ee/t/7788/"), "7788");
    assert_eq!(chat_id_from_link("/e2e2ee/t/9/"), "e29");
    assert_eq!(chat_id_from_link(""), "");
}

#[test]
fn selectors_are_stripped() {
    assert_eq!(strip_selectors("\u{2764}\u{fe0f}"), "\u{2764}");
    assert_eq!(strip_selectors("a\u{fe0f}b\u{fe0f}\u{fe0f}c"), "abc");
    assert_eq!(strip_selectors("plain"), "plain");
}

#[test]
fn rows_take_the_next_shown_sender() {
    let rows = vec![
        row("one", None),
        row("two", Some("Ann")),
        row("three", Some("Bob")),
        row("four", None),
        row("five", None),
        row("six", Some("Cy")),
        row("seven", None),
    ];
    let msgs = assemble_messages(&rows, "c1");
    let got: Vec<(String, String)> = msgs.iter().map(|m| (m.sender.clone(), m.content.clone())).collect();
    let want: Vec<(String, String)> = [
        ("Ann", "one"),
        ("Ann", "two"),
        ("Bob", "three"),
        ("Cy", "four"),
        ("Cy", "five"),
        ("Cy", "six"),
    ]
    .iter()
    .map(|(s, c)| (s.to_string(), c.to_string()))
    .collect();
    assert_eq!(got, want);
    assert!(msgs.iter().all(|m| m.chat_id == "c1"));
}

#[test]
fn rows_without_any_sender_give_nothing() {
    assert!(assemble_messages(&vec![row("a", None), row("b", None)], "c").is_empty());
    assert!(assemble_messages(&Vec::new(), "c").is_empty());
}

#[test]
fn row_reads_stop_at_a_full_page_or_the_last_try() {
    assert!(!enough_rows(13, 5));
    assert!(enough_rows(14, 0));
    assert!(enough_rows(0, 6));
    assert!(!enough_rows(0, 0));
}
