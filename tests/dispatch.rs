use holly::cache::Cache;
use holly::dispatch::{pick_chat, plan_command, Action, ErrorBudget, FAILURE_LIMIT};
use holly::message::ChatMessage;
use holly::scrape::SidebarEntry;

fn command(sender: &str, content: &str, chat: &str) -> ChatMessage {
    ChatMessage::new(sender.to_string(), content.to_string(), chat.to_string())
}

#[test]
fn restart_ends_the_loop_without_sending() {
    let a = plan_command(&command("<restart>", "hello", "c9"));
    assert!(matches!(a, Action::Restart));
    assert!(a.ends_loop());
    assert!(!a.sends());
}

#[test]
fn control_words_select_their_actions() {
    assert!(matches!(plan_command(&command("<screenshot>", "", "")), Action::Screenshot));
    assert!(matches!(plan_command(&command("<html>", "x", "c")), Action::HtmlDump));
    assert!(matches!(plan_command(&command("<refresh>", "x", "c")), Action::Refresh));
    match plan_command(&command("<file>", "/tmp/a.png", "c2")) {
        Action::SendFile { chat_id, path } => {
            assert_eq!(chat_id, "c2");
            assert_eq!(path, "/tmp/a.png");
        }
        _ => panic!("expected a file send"),
    }
}

#[test]
fn other_senders_send_text() {
    let a = plan_command(&command("ann", "hello", "c3"));
    assert!(a.sends());
    assert!(!a.ends_loop());
    match a {
        Action::SendText { chat_id, text } => {
            assert_eq!(chat_id, "c3");
            assert_eq!(text, "hello");
        }
        _ => panic!("expected a text send"),
    }
    assert!(matches!(plan_command(&command("<RESTART>", "", "c")), Action::SendText { .. }));
    assert!(matches!(plan_command(&command("restart", "", "c")), Action::SendText { .. }));
}

#[test]
fn budget_gives_up_after_the_limit() {
    let mut budget = ErrorBudget::new();
    for _ in 0..FAILURE_LIMIT {
        assert!(!budget.record_failure());
    }
    assert_eq!(budget.failures(), 10);
    assert!(budget.record_failure());
    assert_eq!(budget.failures(), 11);
}

#[test]
fn success_resets_the_budget() {
    let mut budget = ErrorBudget::new();
    for _ in 0..5 {
        budget.record_failure();
    }
    budget.record_success();
    assert_eq!(budget.failures(), 0);
    for _ in 0..10 {
        assert!(!budget.record_failure());
    }
}

#[test]
fn budget_count_stops_at_the_top() {
    let mut budget = ErrorBudget::new();
    for _ in 0..300 {
        budget.record_failure();
    }
    assert_eq!(budget.failures(), 255);
    assert!(budget.record_failure());
}

fn entry(id: &str, unread: bool) -> SidebarEntry {
    SidebarEntry { id: id.to_string(), unread }
}

#[test]
fn picks_first_unread_other_chat_or_unseen_chat() {
    let mut cache = Cache::new();
    let one = vec![command("a", "1", "c1")];
    cache.check("c1", &one);
    cache.check("c2", &one);
    cache.check("c3", &one);
    let chats = vec![entry("c1", true), entry("c2", false), entry("c3", true)];
    assert_eq!(pick_chat(&chats, "c1", &cache), Some(2));
    let chats = vec![entry("c1", true), entry("c2", false)];
    assert_eq!(pick_chat(&chats, "c1", &cache), None);
    let chats = vec![entry("c2", false), entry("c4", false)];
    assert_eq!(pick_chat(&chats, "c1", &cache), Some(1));
    assert_eq!(pick_chat(&Vec::new(), "c1", &cache), None);
}
