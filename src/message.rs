//! The chat message record shared by snapshots, events and commands.

use vstd::prelude::*;

verus! {

/// The mathematical content of a [`ChatMessage`]: its three text fields.
pub struct MessageView {
    pub sender: Seq<char>,
    pub content: Seq<char>,
    pub chat_id: Seq<char>,
}

/// A message found in a chat, or a command sent by a subscriber.
#[derive(Clone)]
pub struct ChatMessage {
    pub sender: String,
    pub content: String,
    pub chat_id: String,
}

impl View for ChatMessage {
    type V = MessageView;

    open spec fn view(&self) -> MessageView {
        MessageView { sender: self.sender@, content: self.content@, chat_id: self.chat_id@ }
    }
}

/// The views of a sequence of messages, position by position.
pub open spec fn views_of(s: Seq<ChatMessage>) -> Seq<MessageView> {
    s.map_values(|m: ChatMessage| m@)
}

/// True when every character of `s` is ASCII.
pub open spec fn all_ascii(s: Seq<char>) -> bool {
    forall|i: int| 0 <= i < s.len() ==> (#[trigger] s[i] as u32) < 128
}

/// The ASCII transliteration of a text, as the `unidecode` crate computes it.
pub uninterp spec fn transliterated(s: Seq<char>) -> Seq<char>;

/// Relies on `unidecode::unidecode`: its output is ASCII, and every ASCII
/// character maps to itself, so ASCII text comes back unchanged.
#[verifier::external_body]
fn transliterate(s: &str) -> (r: String)
    ensures
        r@ == transliterated(s@),
        all_ascii(r@),
        all_ascii(s@) ==> r@ == s@,
{
    unidecode::unidecode(s)
}

/// The number of characters of content that a preview shows.
pub const PREVIEW_CHARS: usize = 50;

/// The content as a log line shows it: cut after its first fifty characters,
/// with `...` to mark the cut.
pub open spec fn preview_of(s: Seq<char>) -> Seq<char> {
    if s.len() > PREVIEW_CHARS {
        s.take(PREVIEW_CHARS as int) + "..."@
    } else {
        s
    }
}

impl ChatMessage {
    pub fn new(sender: String, content: String, chat_id: String) -> (r: ChatMessage)
        ensures
            r.sender@ == sender@,
            r.content@ == content@,
            r.chat_id@ == chat_id@,
    {
        ChatMessage { sender, content, chat_id }
    }

    /// A field-by-field copy of the message.
    pub fn duplicate(&self) -> (r: ChatMessage)
        ensures
            r@ == self@,
    {
        ChatMessage {
            sender: self.sender.clone(),
            content: self.content.clone(),
            chat_id: self.chat_id.clone(),
        }
    }

    /// The content, shortened for a log line.
    pub fn preview(&self) -> (r: String)
        ensures
            r@ == preview_of(self.content@),
    {
        let s = self.content.as_str();
        if s.unicode_len() > PREVIEW_CHARS {
            let mut r = s.substring_char(0, PREVIEW_CHARS).to_owned();
            r.append("...");
            r
        } else {
            s.to_owned()
        }
    }

    /// Replaces the content by its ASCII transliteration, so that it can be
    /// typed into the destination.
    pub fn clean(&mut self)
        ensures
            final(self)@ == (MessageView { content: transliterated(old(self).content@), ..old(self)@ }),
            all_ascii(final(self).content@),
            all_ascii(old(self).content@) ==> final(self)@ == old(self)@,
    {
        self.content = transliterate(self.content.as_str());
    }
}

impl PartialEq for ChatMessage {
    fn eq(&self, other: &ChatMessage) -> (r: bool) {
        self.sender == other.sender && self.content == other.content && self.chat_id
            == other.chat_id
    }
}

impl vstd::std_specs::cmp::PartialEqSpecImpl for ChatMessage {
    open spec fn obeys_eq_spec() -> bool {
        true
    }

    open spec fn eq_spec(&self, other: &ChatMessage) -> bool {
        self@ == other@
    }
}

impl Eq for ChatMessage {

}

} // verus!
