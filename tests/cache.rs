use holly::cache::Cache;
use holly::message::ChatMessage;

fn msg(sender: &str, content: &str, chat: &str) -> ChatMessage {
    ChatMessage::new(sender.to_string(), content.to_string(), chat.to_string())
}

fn snapshot(items: &[(&str, &str)]) -> Vec<ChatMessage> {
    items.iter().map(|(s, c)| msg(s, c, "c1")).collect()
}

fn contents(v: &[ChatMessage]) -> Vec<String> {
    v.iter().map(|m| m.content.clone()).collect()
}

#[test]
fn repeated_snapshot_reports_nothing() {
    let mut cache = Cache::new();
    let a = snapshot(&[("ann", "hi"), ("bob", "yo"), ("ann", "ok")]);
    assert!(cache.check("c1", &a).is_none());
    assert!(cache.check("c1", &a).is_none());
    assert!(cache.check("c1", &a).is_none());
}

#[test]
fn first_snapshot_is_only_a_baseline() {
    let mut cache = Cache::new();
    assert!(!cache.check_key("c1"));
    let a = snapshot(&[("ann", "hi"), ("bob", "yo")]);
    assert!(cache.check("c1", &a).is_none());
    assert!(cache.check_key("c1"));
    assert!(!cache.check_key("c2"));
    assert!(cache.check("c2", &Vec::new()).is_none());
    assert!(cache.check_key("c2"));
}

#[test]
fn one_appended_message_after_two_matches_is_reported() {
    let mut cache = Cache::new();
    let a = snapshot(&[("ann", "hi"), ("bob", "yo")]);
    let mut b = a.clone();
    b.push(msg("ann", "new", "c1"));
    assert!(cache.check("c1", &a).is_none());
    let fresh = cache.check("c1", &b).expect("one new message");
    assert_eq!(fresh.len(), 1);
    assert!(fresh[0] == msg("ann", "new", "c1"));
}

#[test]
fn rolling_window_reports_the_new_tail() {
    let mut cache = Cache::new();
    let a = snapshot(&[("a", "1"), ("b", "2"), ("c", "3")]);
    let b = snapshot(&[("b", "2"), ("c", "3"), ("d", "4")]);
    assert!(cache.check("c1", &a).is_none());
    let fresh = cache.check("c1", &b).expect("new tail");
    assert_eq!(contents(&fresh), vec!["4".to_string()]);
}

#[test]
fn single_match_is_not_trusted() {
    let mut cache = Cache::new();
    let a = snapshot(&[("a", "1"), ("b", "2")]);
    let b = snapshot(&[("b", "2"), ("x", "9")]);
    assert!(cache.check("c1", &a).is_none());
    assert!(cache.check("c1", &b).is_none());
    // The new snapshot is still stored: checking it again reports nothing,
    // and one more message after it is reported.
    assert!(cache.check("c1", &b).is_none());
    let mut c = b.clone();
    c.push(msg("y", "10", "c1"));
    assert_eq!(contents(&cache.check("c1", &c).unwrap()), vec!["10".to_string()]);
}

#[test]
fn caller_changes_do_not_reach_the_cache() {
    let mut cache = Cache::new();
    let mut a = snapshot(&[("a", "1"), ("b", "2")]);
    assert!(cache.check("c1", &a).is_none());
    a[1].content = "changed".to_string();
    a.push(msg("c", "3", "c1"));
    let given = snapshot(&[("a", "1"), ("b", "2")]);
    assert!(cache.check("c1", &given).is_none());
    let mut next = given.clone();
    next.push(msg("c", "3", "c1"));
    assert_eq!(contents(&cache.check("c1", &next).unwrap()), vec!["3".to_string()]);
}

#[test]
fn single_element_baseline_hides_the_next_message() {
    let mut cache = Cache::new();
    assert!(cache.check("c1", &snapshot(&[("a", "hi")])).is_none());
    assert!(cache.check("c1", &snapshot(&[("a", "hi"), ("b", "there")])).is_none());
}

#[test]
fn empty_scrape_keeps_the_baseline() {
    let mut cache = Cache::new();
    let a = snapshot(&[("a", "1"), ("b", "2")]);
    assert!(cache.check("c1", &a).is_none());
    assert!(cache.check("c1", &Vec::new()).is_none());
    let mut b = a.clone();
    b.push(msg("c", "3", "c1"));
    assert_eq!(contents(&cache.check("c1", &b).unwrap()), vec!["3".to_string()]);
}

#[test]
fn empty_baseline_is_replaced() {
    let mut cache = Cache::new();
    assert!(cache.check("c1", &Vec::new()).is_none());
    let a = snapshot(&[("a", "1"), ("b", "2")]);
    assert!(cache.check("c1", &a).is_none());
    let mut b = a.clone();
    b.push(msg("c", "3", "c1"));
    assert_eq!(contents(&cache.check("c1", &b).unwrap()), vec!["3".to_string()]);
}

#[test]
fn repeated_messages_are_new_messages() {
    let mut cache = Cache::new();
    let a = snapshot(&[("a", "ok"), ("a", "ok")]);
    let b = snapshot(&[("a", "ok"), ("a", "ok"), ("a", "ok")]);
    assert!(cache.check("c1", &a).is_none());
    assert_eq!(contents(&cache.check("c1", &b).unwrap()), vec!["ok".to_string()]);
}

#[test]
fn shorter_scrape_matching_a_prefix_is_inconsistent() {
    let mut cache = Cache::new();
    let a = snapshot(&[("a", "1"), ("b", "2"), ("c", "3"), ("d", "4")]);
    let b = snapshot(&[("a", "1"), ("b", "2")]);
    assert!(cache.check("c1", &a).is_none());
    assert!(cache.check("c1", &b).is_none());
}

#[test]
fn match_running_to_the_end_gives_an_empty_tail() {
    let mut cache = Cache::new();
    let a = snapshot(&[("a", "1"), ("b", "2"), ("c", "3")]);
    let b = snapshot(&[("b", "2"), ("c", "3")]);
    assert!(cache.check("c1", &a).is_none());
    assert_eq!(cache.check("c1", &b).map(|v| v.len()), Some(0));
}

#[test]
fn chats_are_kept_apart() {
    let mut cache = Cache::new();
    let a = snapshot(&[("a", "1"), ("b", "2")]);
    assert!(cache.check("c1", &a).is_none());
    let mut b = a.clone();
    b.push(msg("c", "3", "c1"));
    assert!(cache.check("c2", &b).is_none());
    assert_eq!(contents(&cache.check("c1", &b).unwrap()), vec!["3".to_string()]);
}
