//! Snapshot cache: decides which part of a freshly scraped message list is new
//! since the previous scrape of the same chat.
//!
//! Scraped snapshots are short rolling windows and may legitimately hold
//! repeated messages, so newness is decided by aligning the stored snapshot
//! against the new one rather than by looking messages up.

use vstd::prelude::*;
use crate::message::{ChatMessage, MessageView, views_of};

verus! {

/// What the cache knows: for each chat seen so far, its latest snapshot.
pub type CacheModel = Map<Seq<char>, Seq<MessageView>>;

/// The suffix-extension scan. Walks the old snapshot from position `k` on with
/// `matched` elements of the new snapshot matched so far: a position of the old
/// snapshot equal to the next unmatched element of the new one extends the
/// match, any other position resets it to zero. Gives the match length once the
/// old snapshot is used up, or `None` where the match covers the whole new
/// snapshot before that (an inconsistent scrape).
pub open spec fn scan_from(o: Seq<MessageView>, n: Seq<MessageView>, k: nat, matched: nat) -> Option<nat>
    decreases o.len() - k,
{
    if k >= o.len() {
        Some(matched)
    } else {
        let next: nat = if matched < n.len() && o[k as int] == n[matched as int] {
            matched + 1
        } else {
            0
        };
        if k + 1 == o.len() {
            Some(next)
        } else if next == n.len() {
            None
        } else {
            scan_from(o, n, k + 1, next)
        }
    }
}

/// The messages of `n` that are new relative to `o`: the tail after the match,
/// trusted only where at least two elements matched.
pub open spec fn fresh_tail(o: Seq<MessageView>, n: Seq<MessageView>) -> Option<Seq<MessageView>> {
    match scan_from(o, n, 0, 0) {
        Some(m) => if m > 1 {
            Some(n.subrange(m as int, n.len() as int))
        } else {
            None
        },
        None => None,
    }
}

/// What `check` reports for chat `id` and snapshot `n` against `model`.
pub open spec fn check_result(model: CacheModel, id: Seq<char>, n: Seq<MessageView>) -> Option<Seq<MessageView>> {
    if !model.contains_key(id) {
        None
    } else if model[id].len() == 0 || n.len() == 0 || model[id] == n {
        None
    } else {
        fresh_tail(model[id], n)
    }
}

/// What the cache holds after `check` of chat `id` with snapshot `n`: the new
/// snapshot, except that an empty scrape never replaces a non-empty baseline.
pub open spec fn check_store(model: CacheModel, id: Seq<char>, n: Seq<MessageView>) -> CacheModel {
    if model.contains_key(id) && model[id].len() != 0 && n.len() == 0 {
        model
    } else {
        model.insert(id, n)
    }
}

/// When the new snapshot repeats the old one from position `k` on, the scan
/// started there with `k` matched runs to the end of the old snapshot.
proof fn lemma_scan_along_extension(a: Seq<MessageView>, b: Seq<MessageView>, k: nat)
    requires
        k < a.len(),
        a.len() < b.len(),
        a == b.subrange(0, a.len() as int),
    ensures
        scan_from(a, b, k, k) == Some(a.len()),
    decreases a.len() - k,
{
    assert(a[k as int] == b[k as int]);
    if k + 1 < a.len() {
        lemma_scan_along_extension(a, b, k + 1);
    }
}

/// Checking the same snapshot twice in a row reports nothing the second time.
pub proof fn lemma_repeat_check_reports_nothing(model: CacheModel, id: Seq<char>, a: Seq<MessageView>)
    ensures
        check_result(check_store(model, id, a), id, a) is None,
{
}

/// The first snapshot of a chat is only recorded as its baseline: nothing is
/// reported, whatever it holds.
pub proof fn lemma_first_check_reports_nothing(model: CacheModel, id: Seq<char>, a: Seq<MessageView>)
    requires
        !model.contains_key(id),
    ensures
        check_result(model, id, a) is None,
        check_store(model, id, a) == model.insert(id, a),
{
}

/// After a snapshot of at least two messages, a snapshot that repeats it and
/// adds one message reports exactly that message.
pub proof fn lemma_one_appended_is_reported(
    model: CacheModel,
    id: Seq<char>,
    a: Seq<MessageView>,
    x: MessageView,
)
    requires
        a.len() >= 2,
    ensures
        check_result(check_store(model, id, a), id, a.push(x)) == Some(seq![x]),
{
    let b = a.push(x);
    assert(a =~= b.subrange(0, a.len() as int));
    assert(a != b) by {
        assert(a.len() != b.len());
    }
    lemma_scan_along_extension(a, b, 0);
    assert(b.subrange(a.len() as int, b.len() as int) =~= seq![x]);
}

/// What a later check compares against is the value of the snapshot as it was
/// handed over: the cache holds that value itself, so changes that the caller
/// makes to its own copy afterwards do not reach it.
pub proof fn lemma_stored_snapshot_is_the_given_value(
    model: CacheModel,
    id: Seq<char>,
    a: Seq<MessageView>,
)
    requires
        a.len() > 0,
    ensures
        check_store(model, id, a).contains_key(id),
        check_store(model, id, a)[id] == a,
{
}

/// The stored snapshot of one chat.
struct CacheEntry {
    chat_id: String,
    snapshot: Vec<ChatMessage>,
}

/// Latest known snapshot of every chat seen so far.
pub struct Cache {
    entries: Vec<CacheEntry>,
    model: Ghost<CacheModel>,
}

impl View for Cache {
    type V = CacheModel;

    closed spec fn view(&self) -> CacheModel {
        self.model@
    }
}

/// A copy of a snapshot, message by message.
fn copy_snapshot(v: &Vec<ChatMessage>, from: usize) -> (r: Vec<ChatMessage>)
    requires
        from <= v.len(),
    ensures
        views_of(r@) == views_of(v@).subrange(from as int, v@.len() as int),
{
    let mut r: Vec<ChatMessage> = Vec::new();
    let mut i: usize = from;
    while i < v.len()
        invariant
            from <= i <= v.len(),
            views_of(r@) == views_of(v@).subrange(from as int, i as int),
        decreases v.len() - i,
    {
        let m = v[i].duplicate();
        let ghost prev = r@;
        r.push(m);
        assert(r@ == prev.push(m));
        assert(views_of(r@) =~= views_of(prev).push(m@));
        i = i + 1;
        assert(views_of(r@) =~= views_of(v@).subrange(from as int, i as int));
    }
    r
}

/// Whether two snapshots hold equal messages in the same order.
fn same_snapshot(a: &Vec<ChatMessage>, b: &Vec<ChatMessage>) -> (r: bool)
    ensures
        r == (views_of(a@) == views_of(b@)),
{
    if a.len() != b.len() {
        assert(views_of(a@).len() != views_of(b@).len());
        return false;
    }
    let mut i: usize = 0;
    while i < a.len()
        invariant
            a.len() == b.len(),
            i <= a.len(),
            forall|j: int| 0 <= j < i ==> views_of(a@)[j] == views_of(b@)[j],
        decreases a.len() - i,
    {
        if a[i] != b[i] {
            assert(views_of(a@)[i as int] != views_of(b@)[i as int]);
            return false;
        }
        i = i + 1;
    }
    assert(views_of(a@) =~= views_of(b@));
    true
}

/// Runs the suffix-extension scan of `new` against `old`.
fn scan(old: &Vec<ChatMessage>, new: &Vec<ChatMessage>) -> (r: Option<usize>)
    requires
        old.len() > 0,
        new.len() > 0,
    ensures
        (match r {
            Some(m) => scan_from(views_of(old@), views_of(new@), 0, 0) == Some(m as nat),
            None => scan_from(views_of(old@), views_of(new@), 0, 0) is None,
        }),
        r matches Some(m) ==> m <= new.len(),
{
    let ghost o = views_of(old@);
    let ghost n = views_of(new@);
    let mut new_count: usize = 0;
    let mut old_count: usize = 0;
    loop
        invariant
            old_count < old.len(),
            new_count < new.len(),
            o == views_of(old@),
            n == views_of(new@),
            scan_from(o, n, old_count as nat, new_count as nat) == scan_from(o, n, 0, 0),
        decreases old.len() - old_count,
    {
        if old[old_count] == new[new_count] {
            new_count = new_count + 1;
        } else {
            new_count = 0;
        }
        old_count = old_count + 1;
        if old_count == old.len() {
            return Some(new_count);
        }
        if new_count == new.len() {
            return None;
        }
    }
}

impl Cache {
    /// The cache's internal consistency: one entry per chat, each entry
    /// holding the snapshot that the model gives for its chat.
    pub closed spec fn wf(&self) -> bool {
        &&& forall|i: int, j: int|
            0 <= i < j < self.entries@.len() ==> self.entries@[i].chat_id@
                != self.entries@[j].chat_id@
        &&& forall|i: int|
            0 <= i < self.entries@.len() ==> self.model@.contains_key(
                (#[trigger] self.entries@[i]).chat_id@,
            ) && self.model@[self.entries@[i].chat_id@] == views_of(self.entries@[i].snapshot@)
        &&& forall|k: Seq<char>|
            #[trigger] self.model@.contains_key(k) ==> exists|i: int|
                0 <= i < self.entries@.len() && self.entries@[i].chat_id@ == k
    }

    /// An empty cache: no chat seen yet.
    pub fn new() -> (r: Cache)
        ensures
            r.wf(),
            r@ == Map::<Seq<char>, Seq<MessageView>>::empty(),
    {
        Cache { entries: Vec::new(), model: Ghost(Map::empty()) }
    }

    /// The position of the entry for `id`, if the chat was seen.
    fn find(&self, id: &String) -> (r: Option<usize>)
        requires
            self.wf(),
        ensures
            r matches Some(i) ==> i < self.entries@.len() && self.entries@[i as int].chat_id@
                == id@,
            r is None <==> !self@.contains_key(id@),
    {
        let mut i: usize = 0;
        while i < self.entries.len()
            invariant
                self.wf(),
                i <= self.entries@.len(),
                forall|j: int| 0 <= j < i ==> self.entries@[j].chat_id@ != id@,
            decreases self.entries.len() - i,
        {
            if self.entries[i].chat_id == *id {
                return Some(i);
            }
            i = i + 1;
        }
        proof {
            if self@.contains_key(id@) {
                let k = choose|j: int|
                    0 <= j < self.entries@.len() && self.entries@[j].chat_id@ == id@;
                assert(self.entries@[k].chat_id@ == id@);
            }
        }
        None
    }

    /// Records `snapshot` as the latest one of chat `id`.
    fn store(&mut self, id: String, snapshot: Vec<ChatMessage>)
        requires
            old(self).wf(),
        ensures
            final(self).wf(),
            final(self)@ == old(self)@.insert(id@, views_of(snapshot@)),
    {
        let ghost snap = views_of(snapshot@);
        let ghost key = id@;
        let ghost at: int;
        match self.find(&id) {
            Some(i) => {
                self.entries[i] = CacheEntry { chat_id: id, snapshot };
                proof {
                    at = i as int;
                }
            },
            None => {
                self.entries.push(CacheEntry { chat_id: id, snapshot });
                proof {
                    at = self.entries@.len() - 1;
                    assert forall|j: int| 0 <= j < at implies old(self).entries@[j].chat_id@
                        != key by {
                        if old(self).entries@[j].chat_id@ == key {
                            assert(old(self).model@.contains_key(old(self).entries@[j].chat_id@));
                        }
                    }
                }
            },
        }
        self.model = Ghost(self.model@.insert(key, snap));
        assert(self.entries@[at].chat_id@ == key);
        assert forall|k: Seq<char>| #[trigger] self.model@.contains_key(k) implies exists|i: int|
            0 <= i < self.entries@.len() && self.entries@[i].chat_id@ == k by {
            if k != key {
                let j = choose|j: int|
                    0 <= j < old(self).entries@.len() && old(self).entries@[j].chat_id@ == k;
                assert(self.entries@[j].chat_id@ == k);
            } else {
                assert(self.entries@[at].chat_id@ == k);
            }
        }
    }

    /// Whether chat `id` has been seen.
    pub fn check_key(&self, id: &str) -> (r: bool)
        requires
            self.wf(),
        ensures
            r == self@.contains_key(id@),
    {
        let key = id.to_owned();
        self.find(&key).is_some()
    }

    /// Compares a fresh snapshot of chat `chat_id` with the stored one and
    /// returns the messages that arrived since, if the alignment is confident.
    /// The first snapshot of a chat is its baseline and yields nothing. The
    /// stored snapshot becomes an independent copy of `new_messages`, unless
    /// that is empty while a non-empty baseline is stored.
    pub fn check(&mut self, chat_id: &str, new_messages: &Vec<ChatMessage>) -> (r: Option<Vec<ChatMessage>>)
        requires
            old(self).wf(),
        ensures
            final(self).wf(),
            final(self)@ == check_store(old(self)@, chat_id@, views_of(new_messages@)),
            (match r {
                Some(v) => check_result(old(self)@, chat_id@, views_of(new_messages@)) == Some(views_of(v@)),
                None => check_result(old(self)@, chat_id@, views_of(new_messages@)) is None,
            }),
    {
        let ghost n = views_of(new_messages@);
        let id = chat_id.to_owned();
        let idx = self.find(&id);
        match idx {
            None => {
                self.store(id, copy_snapshot(new_messages, 0));
                assert(views_of(new_messages@).subrange(0, new_messages@.len() as int) =~= n);
                None
            },
            Some(i) => {
                let ghost o = self@[chat_id@];
                assert(o == views_of(self.entries@[i as int].snapshot@));
                if self.entries[i].snapshot.len() == 0 {
                    self.store(id, copy_snapshot(new_messages, 0));
                    assert(views_of(new_messages@).subrange(0, new_messages@.len() as int) =~= n);
                    return None;
                }
                if new_messages.len() == 0 {
                    return None;
                }
                if same_snapshot(&self.entries[i].snapshot, new_messages) {
                    assert(self@.insert(chat_id@, n) =~= self@);
                    return None;
                }
                let outcome = scan(&self.entries[i].snapshot, new_messages);
                self.store(id, copy_snapshot(new_messages, 0));
                assert(views_of(new_messages@).subrange(0, new_messages@.len() as int) =~= n);
                match outcome {
                    Some(m) => {
                        if m > 1 {
                            Some(copy_snapshot(new_messages, m))
                        } else {
                            None
                        }
                    },
                    None => None,
                }
            },
        }
    }
}

} // verus!
