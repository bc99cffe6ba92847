//! Decisions of the event loop: what a subscriber's command asks of the
//! scraper, when the run of failures ends the session, and which chat to open.

use vstd::prelude::*;
use crate::cache::{Cache, CacheModel};
use crate::message::{ChatMessage, MessageView};
use crate::scrape::SidebarEntry;

verus! {

/// What the event loop does for one command.
pub enum Action {
    /// Save a screenshot of the page.
    Screenshot,
    /// Save the page's markup.
    HtmlDump,
    /// End the session cleanly.
    Restart,
    /// Reload the page.
    Refresh,
    /// Send the file at `path` into chat `chat_id`.
    SendFile { chat_id: String, path: String },
    /// Send `text` as a message into chat `chat_id`.
    SendText { chat_id: String, text: String },
}

/// The mathematical content of an [`Action`].
pub enum ActionView {
    Screenshot,
    HtmlDump,
    Restart,
    Refresh,
    SendFile { chat_id: Seq<char>, path: Seq<char> },
    SendText { chat_id: Seq<char>, text: Seq<char> },
}

impl View for Action {
    type V = ActionView;

    open spec fn view(&self) -> ActionView {
        match self {
            Action::Screenshot => ActionView::Screenshot,
            Action::HtmlDump => ActionView::HtmlDump,
            Action::Restart => ActionView::Restart,
            Action::Refresh => ActionView::Refresh,
            Action::SendFile { chat_id, path } => ActionView::SendFile {
                chat_id: chat_id@,
                path: path@,
            },
            Action::SendText { chat_id, text } => ActionView::SendText {
                chat_id: chat_id@,
                text: text@,
            },
        }
    }
}

/// The action that a command asks for. The sender field selects it: five
/// bracketed words are controls, any other sender is an ordinary message.
pub open spec fn action_for(m: MessageView) -> ActionView {
    if m.sender == "<screenshot>"@ {
        ActionView::Screenshot
    } else if m.sender == "<html>"@ {
        ActionView::HtmlDump
    } else if m.sender == "<restart>"@ {
        ActionView::Restart
    } else if m.sender == "<refresh>"@ {
        ActionView::Refresh
    } else if m.sender == "<file>"@ {
        ActionView::SendFile { chat_id: m.chat_id, path: m.content }
    } else {
        ActionView::SendText { chat_id: m.chat_id, text: m.content }
    }
}

/// Whether an action goes through the scraper's send path.
pub open spec fn sends(a: ActionView) -> bool {
    a is SendFile || a is SendText
}

/// Whether an action ends the event loop.
pub open spec fn ends_loop(a: ActionView) -> bool {
    a is Restart
}

impl Action {
    /// Whether this action ends the event loop.
    pub fn ends_loop(&self) -> (r: bool)
        ensures
            r == ends_loop(self@),
    {
        match self {
            Action::Restart => true,
            _ => false,
        }
    }

    /// Whether this action goes through the scraper's send path.
    pub fn sends(&self) -> (r: bool)
        ensures
            r == sends(self@),
    {
        match self {
            Action::SendFile { .. } => true,
            Action::SendText { .. } => true,
            _ => false,
        }
    }
}

/// Interprets a subscriber's command.
pub fn plan_command(m: &ChatMessage) -> (r: Action)
    ensures
        r@ == action_for(m@),
{
    if m.sender == String::from_str("<screenshot>") {
        Action::Screenshot
    } else if m.sender == String::from_str("<html>") {
        Action::HtmlDump
    } else if m.sender == String::from_str("<restart>") {
        Action::Restart
    } else if m.sender == String::from_str("<refresh>") {
        Action::Refresh
    } else if m.sender == String::from_str("<file>") {
        Action::SendFile { chat_id: m.chat_id.clone(), path: m.content.clone() }
    } else {
        Action::SendText { chat_id: m.chat_id.clone(), text: m.content.clone() }
    }
}

/// A command whose sender is `<restart>` ends the event loop and never goes
/// through the send path, whatever its content and chat.
pub proof fn lemma_restart_ends_without_sending(m: MessageView)
    requires
        m.sender == "<restart>"@,
    ensures
        action_for(m) == ActionView::Restart,
        ends_loop(action_for(m)),
        !sends(action_for(m)),
{
    assert("<restart>"@ != "<screenshot>"@) by {
        reveal_strlit("<restart>");
        reveal_strlit("<screenshot>");
        assert("<restart>"@[1] != "<screenshot>"@[1]);
    }
    assert("<restart>"@ != "<html>"@) by {
        reveal_strlit("<restart>");
        reveal_strlit("<html>");
        assert("<restart>"@[1] != "<html>"@[1]);
    }
}

/// The number of failures after which the session gives up.
pub const FAILURE_LIMIT: u8 = 10;

/// The run of scraper failures since the last success.
pub struct ErrorBudget {
    failures: u8,
}

impl View for ErrorBudget {
    type V = nat;

    closed spec fn view(&self) -> nat {
        self.failures as nat
    }
}

impl ErrorBudget {
    /// A budget with no failure yet.
    pub fn new() -> (r: ErrorBudget)
        ensures
            r@ == 0,
    {
        ErrorBudget { failures: 0 }
    }

    /// The failures counted so far.
    pub fn failures(&self) -> (r: u8)
        ensures
            r == self@,
    {
        self.failures
    }

    /// Counts one more failure; true once the count exceeds the limit, when
    /// the session must end. The count stops at the largest `u8`.
    pub fn record_failure(&mut self) -> (exhausted: bool)
        ensures
            final(self)@ == if old(self)@ < 255 {
                old(self)@ + 1
            } else {
                255
            },
            exhausted == (final(self)@ > FAILURE_LIMIT),
    {
        if self.failures < 255 {
            self.failures = self.failures + 1;
        }
        self.failures > FAILURE_LIMIT
    }

    /// A scraper call succeeded: the run of failures is over.
    pub fn record_success(&mut self)
        ensures
            final(self)@ == 0,
    {
        self.failures = 0;
    }
}

/// Whether the chat `id` of the side bar should be opened: it is flagged
/// unread and is not the chat being watched, or the cache has never seen it.
pub open spec fn worth_opening(id: Seq<char>, unread: bool, current: Seq<char>, seen: CacheModel) -> bool {
    (unread && id != current) || !seen.contains_key(id)
}

/// The first chat of the side bar that should be opened, if any.
pub fn pick_chat(chats: &Vec<SidebarEntry>, current: &str, cache: &Cache) -> (r: Option<usize>)
    requires
        cache.wf(),
    ensures
        match r {
            Some(i) => i < chats@.len() && worth_opening(
                chats@[i as int].id@,
                chats@[i as int].unread,
                current@,
                cache@,
            ) && forall|j: int|
                0 <= j < i ==> !worth_opening(
                    #[trigger] chats@[j].id@,
                    chats@[j].unread,
                    current@,
                    cache@,
                ),
            None => forall|j: int|
                0 <= j < chats@.len() ==> !worth_opening(
                    #[trigger] chats@[j].id@,
                    chats@[j].unread,
                    current@,
                    cache@,
                ),
        },
{
    let here = current.to_owned();
    let mut i: usize = 0;
    while i < chats.len()
        invariant
            cache.wf(),
            here@ == current@,
            i <= chats@.len(),
            forall|j: int|
                0 <= j < i ==> !worth_opening(
                    #[trigger] chats@[j].id@,
                    chats@[j].unread,
                    current@,
                    cache@,
                ),
        decreases chats.len() - i,
    {
        let c = &chats[i];
        let seen = cache.check_key(c.id.as_str());
        if (c.unread && c.id != here) || !seen {
            return Some(i);
        }
        i = i + 1;
    }
    None
}

} // verus!
