//! What the scraper reads off the page, and the decisions made on it.

use vstd::prelude::*;
use thirtyfour::WebElement;
use crate::text::chars_of;
use crate::message::{ChatMessage, MessageView, views_of};
use crate::text::push_char;

verus! {

/// thirtyfour's `WebElement`, an element of the scraped page, held as an
/// opaque handle.
#[verifier::external_type_specification]
#[verifier::external_body]
pub struct ExWebElement(WebElement);

/// A chat found on the side bar, with whether it is flagged unread.
pub struct ChatOption {
    pub id: String,
    pub element: WebElement,
    pub unread: bool,
}

/// What the event loop reads of a side bar entry: its chat and its unread flag.
pub struct SidebarEntry {
    pub id: String,
    pub unread: bool,
}

impl ChatOption {
    /// The chat and the unread flag of this entry.
    pub fn entry(&self) -> (r: SidebarEntry)
        ensures
            r.id@ == self.id@,
            r.unread == self.unread,
    {
        SidebarEntry { id: self.id.clone(), unread: self.unread }
    }
}


/// A chat page shows at least this many rows once it has fully loaded.
pub const FULL_PAGE_ROWS: usize = 13;

/// The number of extra reads of a chat's rows before taking what is there.
pub const ROW_RETRIES: u32 = 5;

/// Whether the rows read so far are final: the page shows more than a full
/// page of rows, or the reads are used up.
pub fn enough_rows(found: usize, tries: u32) -> (r: bool)
    ensures
        r == (found > FULL_PAGE_ROWS || tries > ROW_RETRIES),
{
    found > FULL_PAGE_ROWS || tries > ROW_RETRIES
}

/// The end of the last segment of a path that ends at `e`: trailing slashes
/// are skipped.
pub open spec fn segment_end(s: Seq<char>, e: int) -> int
    decreases e,
{
    if e > 0 && s[e - 1] == '/' {
        segment_end(s, e - 1)
    } else {
        e
    }
}

/// The start of the run of non-slash characters that ends at `b`.
pub open spec fn segment_start(s: Seq<char>, b: int) -> int
    decreases b,
{
    if b > 0 && s[b - 1] != '/' {
        segment_start(s, b - 1)
    } else {
        b
    }
}

/// The last non-empty segment of a slash-separated path, if there is one.
pub open spec fn last_segment(s: Seq<char>) -> Option<Seq<char>> {
    let e = segment_end(s, s.len() as int);
    if e == 0 {
        None
    } else {
        Some(s.subrange(segment_start(s, e), e))
    }
}

/// The id of the chat that a page shows: the last non-empty segment of the
/// path of its address, if the path has one.
pub fn chat_id_from_path(path: &str) -> (r: Option<String>)
    ensures
        match r {
            Some(id) => last_segment(path@) == Some(id@),
            None => last_segment(path@) is None,
        },
{
    let cs = chars_of(path);
    let ghost s = path@;
    let mut e: usize = cs.len();
    while e > 0 && cs[e - 1] == '/'
        invariant
            cs@ == s,
            e <= s.len(),
            segment_end(s, e as int) == segment_end(s, s.len() as int),
        decreases e,
    {
        e = e - 1;
    }
    if e == 0 {
        return None;
    }
    let mut b: usize = e;
    while b > 0 && cs[b - 1] != '/'
        invariant
            cs@ == s,
            b <= e <= s.len(),
            segment_start(s, b as int) == segment_start(s, e as int),
        decreases b,
    {
        b = b - 1;
    }
    Some(path.substring_char(b, e).to_owned())
}

/// A text with every `e2ee` removed, matches taken from left to right.
pub open spec fn without_e2ee(s: Seq<char>) -> Seq<char>
    decreases s.len(),
{
    if s.len() == 0 {
        s
    } else if s.len() >= 4 && s[0] == 'e' && s[1] == '2' && s[2] == 'e' && s[3] == 'e' {
        without_e2ee(s.skip(4))
    } else {
        seq![s[0]] + without_e2ee(s.skip(1))
    }
}

/// The id of a chat from the link of its side bar entry: every `/` and `t`
/// is removed, then every `e2ee`.
pub open spec fn id_of_link(href: Seq<char>) -> Seq<char> {
    without_e2ee(href.filter(|c: char| c != '/' && c != 't'))
}

/// The characters of `cs` from `i` on, without `/` and `t`.
fn strip_link_chars(cs: &Vec<char>) -> (r: Vec<char>)
    ensures
        r@ == cs@.filter(|c: char| c != '/' && c != 't'),
{
    let ghost p = |c: char| c != '/' && c != 't';
    let mut r: Vec<char> = Vec::new();
    let mut i: usize = 0;
    while i < cs.len()
        invariant
            i <= cs@.len(),
            p == (|c: char| c != '/' && c != 't'),
            r@ == cs@.take(i as int).filter(p),
        decreases cs.len() - i,
    {
        proof {
            reveal(Seq::filter);
            assert(cs@.take(i as int + 1).drop_last() =~= cs@.take(i as int));
        }
        let c = cs[i];
        if c != '/' && c != 't' {
            r.push(c);
        }
        i = i + 1;
    }
    assert(cs@.take(cs@.len() as int) =~= cs@);
    r
}

/// The id of a chat from the link of its side bar entry.
pub fn chat_id_from_link(href: &str) -> (r: String)
    ensures
        r@ == id_of_link(href@),
{
    let cs = strip_link_chars(&chars_of(href));
    let ghost s = cs@;
    let n = cs.len();
    let mut r = String::new();
    let mut i: usize = 0;
    assert(s.skip(0) =~= s);
    assert(r@ + without_e2ee(s.skip(0)) =~= without_e2ee(s));
    while i < n
        invariant
            n == s.len(),
            cs@ == s,
            i <= n,
            without_e2ee(s) == r@ + without_e2ee(s.skip(i as int)),
        decreases n - i,
    {
        let ghost rest = s.skip(i as int);
        if n - i >= 4 && cs[i] == 'e' && cs[i + 1] == '2' && cs[i + 2] == 'e' && cs[i + 3] == 'e' {
            assert(rest.skip(4) =~= s.skip(i + 4));
            i = i + 4;
        } else {
            assert(rest.skip(1) =~= s.skip(i + 1));
            let ghost before = r@;
            push_char(&mut r, cs[i]);
            assert(r@ + without_e2ee(s.skip(i + 1)) =~= before + (seq![s[i as int]] + without_e2ee(rest.skip(1))));
            i = i + 1;
        }
    }
    assert(s.skip(n as int) =~= Seq::<char>::empty());
    r
}

/// The content of an emoji image's alt text: the text without the emoji
/// presentation selector U+FE0F.
pub open spec fn without_selector(s: Seq<char>) -> Seq<char> {
    s.filter(|c: char| c != '\u{fe0f}')
}

/// Removes every emoji presentation selector (U+FE0F) from a text.
pub fn strip_selectors(s: &str) -> (r: String)
    ensures
        r@ == without_selector(s@),
{
    let cs = chars_of(s);
    let ghost p = |c: char| c != '\u{fe0f}';
    let mut r = String::new();
    let mut i: usize = 0;
    while i < cs.len()
        invariant
            i <= cs@.len(),
            p == (|c: char| c != '\u{fe0f}'),
            r@ == cs@.take(i as int).filter(p),
        decreases cs.len() - i,
    {
        proof {
            reveal(Seq::filter);
            assert(cs@.take(i as int + 1).drop_last() =~= cs@.take(i as int));
        }
        let c = cs[i];
        if c != '\u{fe0f}' {
            push_char(&mut r, c);
        }
        i = i + 1;
    }
    assert(cs@.take(cs@.len() as int) =~= cs@);
    r
}


/// One message row read off the page: its text, and the sender where the row
/// shows one. A sender's consecutive messages show the sender only once, on
/// the last of them.
pub struct ScrapedRow {
    pub content: String,
    pub sender: Option<String>,
}

/// The text and the sender shown on a row.
pub open spec fn row_view(r: ScrapedRow) -> (Seq<char>, Option<Seq<char>>) {
    (
        r.content@,
        match r.sender {
            Some(s) => Some(s@),
            None => None,
        },
    )
}

/// The sender that the row at `i` belongs to: the first sender shown at or
/// after it.
pub open spec fn sender_at(rows: Seq<(Seq<char>, Option<Seq<char>>)>, i: int) -> Option<Seq<char>>
    decreases rows.len() - i,
{
    if i < 0 || i >= rows.len() {
        None
    } else if rows[i].1 is Some {
        rows[i].1
    } else {
        sender_at(rows, i + 1)
    }
}

/// The messages of the first `n` rows: each row whose sender is known, in
/// order; rows after the last shown sender are left out.
pub open spec fn assembled(rows: Seq<(Seq<char>, Option<Seq<char>>)>, chat_id: Seq<char>, n: int) -> Seq<MessageView>
    decreases n,
{
    if n <= 0 {
        Seq::empty()
    } else {
        let rest = assembled(rows, chat_id, n - 1);
        match sender_at(rows, n - 1) {
            Some(s) => rest.push(MessageView { sender: s, content: rows[n - 1].0, chat_id }),
            None => rest,
        }
    }
}

proof fn lemma_sender_carries_back(rows: Seq<(Seq<char>, Option<Seq<char>>)>, j: int, i: int)
    requires
        0 <= j <= i < rows.len(),
        forall|k: int| j <= k < i ==> (#[trigger] rows[k]).1 is None,
    ensures
        sender_at(rows, j) == sender_at(rows, i),
    decreases i - j,
{
    if j < i {
        lemma_sender_carries_back(rows, j + 1, i);
    }
}

proof fn lemma_unclaimed_tail(rows: Seq<(Seq<char>, Option<Seq<char>>)>, chat_id: Seq<char>, j: int, n: int)
    requires
        0 <= j <= n <= rows.len(),
        forall|k: int| j <= k < rows.len() ==> (#[trigger] rows[k]).1 is None,
    ensures
        assembled(rows, chat_id, n) == assembled(rows, chat_id, j),
    decreases n - j,
{
    if n > j {
        lemma_no_sender_after(rows, n - 1);
        lemma_unclaimed_tail(rows, chat_id, j, n - 1);
    }
}

proof fn lemma_no_sender_after(rows: Seq<(Seq<char>, Option<Seq<char>>)>, i: int)
    requires
        0 <= i,
        forall|k: int| i <= k < rows.len() ==> (#[trigger] rows[k]).1 is None,
    ensures
        sender_at(rows, i) is None,
    decreases rows.len() - i,
{
    if i < rows.len() {
        lemma_no_sender_after(rows, i + 1);
    }
}

/// Turns the rows of one chat into its messages: each row without a sender
/// takes the sender of the next row that shows one; rows after the last shown
/// sender are dropped.
pub fn assemble_messages(rows: &Vec<ScrapedRow>, chat_id: &str) -> (r: Vec<ChatMessage>)
    ensures
        views_of(r@) == assembled(rows@.map_values(|x: ScrapedRow| row_view(x)), chat_id@, rows@.len() as int),
{
    let ghost v = rows@.map_values(|x: ScrapedRow| row_view(x));
    let mut res: Vec<ChatMessage> = Vec::new();
    let mut homeless: Vec<String> = Vec::new();
    let mut i: usize = 0;
    while i < rows.len()
        invariant
            v == rows@.map_values(|x: ScrapedRow| row_view(x)),
            i <= rows@.len(),
            homeless@.len() <= i,
            views_of(res@) == assembled(v, chat_id@, i - homeless@.len()),
            forall|k: int| 0 <= k < homeless@.len() ==> {
                &&& (#[trigger] homeless@[k])@ == v[i - homeless@.len() + k].0
                &&& v[i - homeless@.len() + k].1 is None
            },
        decreases rows.len() - i,
    {
        let row = &rows[i];
        assert(v[i as int] == row_view(*row));
        match &row.sender {
            None => {
                homeless.push(row.content.clone());
            },
            Some(sender) => {
                let h = homeless.len();
                let ghost base = i - h;
                let mut k: usize = 0;
                while k < h
                    invariant
                        v == rows@.map_values(|x: ScrapedRow| row_view(x)),
                        i < rows@.len(),
                        v.len() == rows@.len(),
                        h == homeless@.len(),
                        h <= i,
                        base == i - h,
                        k <= h,
                        v[i as int].1 == Some(sender@),
                        views_of(res@) == assembled(v, chat_id@, base + k),
                        forall|q: int| 0 <= q < homeless@.len() ==> {
                            &&& (#[trigger] homeless@[q])@ == v[base + q].0
                            &&& v[base + q].1 is None
                        },
                    decreases h - k,
                {
                    proof {
                        assert forall|q: int| base + k <= q < i implies (#[trigger] v[q]).1 is None by {
                            assert(homeless@[q - base]@ == v[q].0);
                        }
                        lemma_sender_carries_back(v, base + k, i as int);
                    }
                    let m = ChatMessage {
                        sender: sender.clone(),
                        content: homeless[k].clone(),
                        chat_id: chat_id.to_owned(),
                    };
                    let ghost before = res@;
                    res.push(m);
                    assert(views_of(res@) =~= views_of(before).push(m@));
                    k = k + 1;
                }
                let m = ChatMessage {
                    sender: sender.clone(),
                    content: row.content.clone(),
                    chat_id: chat_id.to_owned(),
                };
                let ghost before = res@;
                res.push(m);
                assert(views_of(res@) =~= views_of(before).push(m@));
                homeless = Vec::new();
            },
        }
        i = i + 1;
    }
    proof {
        let j = i - homeless@.len();
        assert forall|k: int| j <= k < v.len() implies (#[trigger] v[k]).1 is None by {
            assert(homeless@[k - j]@ == v[k].0);
        }
        lemma_unclaimed_tail(v, chat_id@, j, v.len() as int);
    }
    res
}

} // verus!
