//! Framing of the command stream: one read from a subscriber may hold several
//! JSON objects written back to back, which are told apart at each `}{`.

use vstd::prelude::*;
use crate::message::{ChatMessage, MessageView, views_of, transliterated};
use crate::text::chars_of;

verus! {

/// The pieces of `s` from position `i` on, where the piece being read began at
/// `start`: each occurrence of `}{`, taken from left to right without overlap,
/// ends one piece, and the next piece begins after it.
pub open spec fn pieces_from(s: Seq<char>, start: int, i: int) -> Seq<Seq<char>>
    decreases s.len() - i,
{
    if i + 2 > s.len() {
        seq![s.subrange(start, s.len() as int)]
    } else if s[i] == '}' && s[i + 1] == '{' {
        seq![s.subrange(start, i)] + pieces_from(s, i + 2, i + 2)
    } else {
        pieces_from(s, start, i + 1)
    }
}

/// `s` split at every `}{`.
pub open spec fn pieces(s: Seq<char>) -> Seq<Seq<char>> {
    pieces_from(s, 0, 0)
}

/// The candidate JSON objects that the pieces stand for: each piece but the
/// first gets back the `{` that the split took, each piece but the last its `}`.
pub open spec fn framed(p: Seq<Seq<char>>) -> Seq<Seq<char>> {
    Seq::new(
        p.len(),
        |i: int|
            (if i > 0 {
                seq!['{']
            } else {
                Seq::<char>::empty()
            }) + p[i] + (if i < p.len() - 1 {
                seq!['}']
            } else {
                Seq::<char>::empty()
            }),
    )
}

/// The frames of the text of one read.
pub open spec fn frames(s: Seq<char>) -> Seq<Seq<char>> {
    framed(pieces(s))
}

proof fn lemma_pieces_from_nonempty(s: Seq<char>, start: int, i: int)
    ensures
        pieces_from(s, start, i).len() >= 1,
    decreases s.len() - i,
{
    if i + 2 > s.len() {
    } else if s[i] == '}' && s[i + 1] == '{' {
        lemma_pieces_from_nonempty(s, i + 2, i + 2);
    } else {
        lemma_pieces_from_nonempty(s, start, i + 1);
    }
}

/// Pieces joined again, with `}{` between each two.
pub open spec fn joined(p: Seq<Seq<char>>) -> Seq<char>
    decreases p.len(),
{
    if p.len() == 0 {
        Seq::empty()
    } else if p.len() == 1 {
        p[0]
    } else {
        p[0] + seq!['}', '{'] + joined(p.skip(1))
    }
}

proof fn lemma_pieces_from_rejoin(s: Seq<char>, start: int, i: int)
    requires
        0 <= start <= i <= s.len(),
    ensures
        joined(pieces_from(s, start, i)) == s.subrange(start, s.len() as int),
    decreases s.len() - i,
{
    if i + 2 > s.len() {
    } else if s[i] == '}' && s[i + 1] == '{' {
        let rest = pieces_from(s, i + 2, i + 2);
        lemma_pieces_from_nonempty(s, i + 2, i + 2);
        lemma_pieces_from_rejoin(s, i + 2, i + 2);
        let p = seq![s.subrange(start, i)] + rest;
        assert(p.skip(1) =~= rest);
        assert(p[0] == s.subrange(start, i));
        assert(s.subrange(start, i) + seq!['}', '{'] + s.subrange(i + 2, s.len() as int) =~= s.subrange(
            start,
            s.len() as int,
        ));
    } else {
        lemma_pieces_from_rejoin(s, start, i + 1);
    }
}

/// Splitting loses nothing: the pieces joined again with `}{` give back the
/// text.
pub proof fn lemma_split_is_lossless(s: Seq<char>)
    ensures
        joined(pieces(s)) == s,
{
    lemma_pieces_from_rejoin(s, 0, 0);
    assert(s.subrange(0, s.len() as int) =~= s);
}

/// Whether the `}{` separator starts at position `k` of `s`.
pub open spec fn separator_at(s: Seq<char>, k: int) -> bool {
    0 <= k && k + 1 < s.len() && s[k] == '}' && s[k + 1] == '{'
}

/// A text that frames as one object: it opens with `{`, closes with `}`, and
/// holds no `}{`.
pub open spec fn is_object(o: Seq<char>) -> bool {
    &&& o.len() >= 2
    &&& o[0] == '{'
    &&& o[o.len() - 1] == '}'
    &&& forall|k: int| 0 <= k < o.len() ==> !separator_at(o, k)
}

/// Texts written one after the other.
pub open spec fn concat(os: Seq<Seq<char>>) -> Seq<char>
    decreases os.len(),
{
    if os.len() == 0 {
        Seq::empty()
    } else {
        os[0] + concat(os.skip(1))
    }
}

/// The pieces that back-to-back objects split into: the first loses `d`
/// leading characters, each later one its `{`, and each but the last its `}`.
pub open spec fn trimmed(os: Seq<Seq<char>>, d: int) -> Seq<Seq<char>> {
    Seq::new(
        os.len(),
        |k: int|
            os[k].subrange(
                if k == 0 {
                    d
                } else {
                    1
                },
                if k == os.len() - 1 {
                    os[k].len() as int
                } else {
                    os[k].len() - 1
                },
            ),
    )
}

proof fn lemma_scan_inside(s: Seq<char>, start: int, i: int, j: int)
    requires
        0 <= start <= i <= j,
        forall|k: int| i <= k < j ==> !separator_at(s, k),
    ensures
        pieces_from(s, start, i) == pieces_from(s, start, j),
    decreases j - i,
{
    if i < j && i + 2 <= s.len() {
        assert(!separator_at(s, i));
        lemma_scan_inside(s, start, i + 1, j);
    } else if i < j {
        assert(j + 2 > s.len());
    }
}

proof fn lemma_objects_split(s: Seq<char>, os: Seq<Seq<char>>, b: int, d: int)
    requires
        os.len() >= 1,
        forall|k: int| 0 <= k < os.len() ==> is_object(#[trigger] os[k]),
        0 <= b <= s.len(),
        0 <= d <= 1,
        s.subrange(b, s.len() as int) == concat(os),
    ensures
        pieces_from(s, b + d, b + d) == trimmed(os, d),
    decreases os.len(),
{
    let a = os[0];
    let la = a.len() as int;
    let rest = os.skip(1);
    assert(is_object(a));
    assert(concat(os) == a + concat(rest));
    assert forall|k: int| 0 <= k < la implies s[b + k] == a[k] by {
        assert(s.subrange(b, s.len() as int)[k] == s[b + k]);
    }
    assert forall|k: int| b + d <= k < b + la - 1 implies !separator_at(s, k) by {
        assert(!separator_at(a, k - b));
        assert(s[k] == a[k - b]);
        assert(s[k + 1] == a[k - b + 1]);
    }
    lemma_scan_inside(s, b + d, b + d, b + la - 1);
    if os.len() == 1 {
        assert(concat(rest) =~= Seq::<char>::empty());
        assert(s.len() == b + la);
        assert(s.subrange(b + d, s.len() as int) =~= a.subrange(d, la));
        assert(trimmed(os, d) =~= seq![a.subrange(d, la)]);
    } else {
        let c = rest[0];
        assert(is_object(c));
        assert(concat(rest) == c + concat(rest.skip(1)));
        assert(s.subrange(b + la, s.len() as int) =~= concat(rest)) by {
            assert(s.subrange(b, s.len() as int).subrange(la, s.len() - b) =~= s.subrange(
                b + la,
                s.len() as int,
            ));
        }
        assert(s[b + la] == c[0]) by {
            assert(s.subrange(b + la, s.len() as int)[0] == s[b + la]);
        }
        assert(s[b + la - 1] == a[la - 1]);
        assert(separator_at(s, b + la - 1));
        lemma_objects_split(s, rest, b + la, 1);
        assert(s.subrange(b + d, b + la - 1) =~= a.subrange(d, la - 1)) by {
            assert forall|k: int| 0 <= k < la - 1 - d implies #[trigger] s.subrange(b + d, b + la - 1)[k]
                == a.subrange(d, la - 1)[k] by {
                assert(s[b + d + k] == a[d + k]);
            }
        }
        assert(trimmed(os, d) =~= seq![a.subrange(d, la - 1)] + trimmed(rest, 1));
    }
}

/// Objects written back to back in one read come out as frames exactly as
/// they were written, in order, when each opens with `{`, closes with `}` and
/// holds no `}{`.
pub proof fn lemma_back_to_back_objects(os: Seq<Seq<char>>)
    requires
        os.len() >= 1,
        forall|k: int| 0 <= k < os.len() ==> is_object(#[trigger] os[k]),
    ensures
        frames(concat(os)) == os,
{
    let s = concat(os);
    assert(s.subrange(0, s.len() as int) =~= s);
    lemma_objects_split(s, os, 0, 0);
    let t = trimmed(os, 0);
    assert forall|k: int| 0 <= k < os.len() implies #[trigger] framed(t)[k] == os[k] by {
        let o = os[k];
        assert(is_object(o));
        let head: Seq<char> = if k > 0 {
            seq!['{']
        } else {
            Seq::<char>::empty()
        };
        let tail: Seq<char> = if k < os.len() - 1 {
            seq!['}']
        } else {
            Seq::<char>::empty()
        };
        assert(head + t[k] + tail =~= o);
    }
    assert(framed(t) =~= os);
}

/// Splits the text of one read into its candidate JSON objects, in order.
pub fn split_frames(text: &str) -> (r: Vec<String>)
    ensures
        r@.len() == frames(text@).len(),
        forall|i: int| 0 <= i < r@.len() ==> #[trigger] r@[i]@ == frames(text@)[i],
{
    let cs = chars_of(text);
    let ghost s = text@;
    let n = cs.len();
    let mut raw: Vec<String> = Vec::new();
    let mut start: usize = 0;
    let mut i: usize = 0;
    while n >= 2 && i <= n - 2
        invariant
            s == text@,
            cs@ == s,
            n == s.len(),
            start <= i <= n,
            pieces(s) =~= raw@.map_values(|p: String| p@) + pieces_from(s, start as int, i as int),
        decreases n - i,
    {
        if cs[i] == '}' && cs[i + 1] == '{' {
            let piece = text.substring_char(start, i).to_owned();
            let ghost before = raw@;
            raw.push(piece);
            assert(raw@.map_values(|p: String| p@) =~= before.map_values(|p: String| p@).push(
                s.subrange(start as int, i as int),
            ));
            i = i + 2;
            start = i;
        } else {
            i = i + 1;
        }
    }
    let last = text.substring_char(start, n).to_owned();
    let ghost before = raw@;
    raw.push(last);
    assert(raw@.map_values(|p: String| p@) =~= before.map_values(|p: String| p@).push(
        s.subrange(start as int, n as int),
    ));
    let ghost p = raw@.map_values(|q: String| q@);
    assert(pieces(s) =~= p);
    let count = raw.len();
    let mut r: Vec<String> = Vec::new();
    let mut k: usize = 0;
    while k < count
        invariant
            count == raw@.len(),
            p == raw@.map_values(|q: String| q@),
            pieces(s) == p,
            k <= count,
            r@.len() == k,
            forall|j: int| 0 <= j < k ==> #[trigger] r@[j]@ == framed(p)[j],
        decreases count - k,
    {
        let mut f = if k > 0 {
            String::from_str("{")
        } else {
            String::new()
        };
        f.append(raw[k].as_str());
        if k + 1 < count {
            f.append("}");
        }
        proof {
            reveal_strlit("{");
            reveal_strlit("}");
            assert(raw@[k as int]@ == p[k as int]);
            assert(f@ =~= framed(p)[k as int]);
        }
        r.push(f);
        k = k + 1;
    }
    r
}


/// A command as it is queued: its content transliterated to ASCII.
pub open spec fn cleaned(m: MessageView) -> MessageView {
    MessageView { content: transliterated(m.content), ..m }
}

/// The views of the outcomes of decoding each frame.
pub open spec fn outcome_views(p: Seq<Option<ChatMessage>>) -> Seq<Option<MessageView>> {
    p.map_values(
        |o: Option<ChatMessage>|
            match o {
                Some(m) => Some(m@),
                None => None,
            },
    )
}

/// The commands that the decoding outcomes `p` give, in order: each frame that
/// did not decode is dropped, each one that did is cleaned.
pub open spec fn accepted(p: Seq<Option<MessageView>>) -> Seq<MessageView>
    decreases p.len(),
{
    if p.len() == 0 {
        Seq::empty()
    } else {
        let rest = accepted(p.drop_last());
        match p.last() {
            Some(m) => rest.push(cleaned(m)),
            None => rest,
        }
    }
}

/// Turns the decoding outcomes of the frames of one read into the commands to
/// queue: frames that did not decode are dropped, the others are cleaned.
pub fn accept_commands(parsed: Vec<Option<ChatMessage>>) -> (r: Vec<ChatMessage>)
    ensures
        views_of(r@) == accepted(outcome_views(parsed@)),
{
    let ghost p = outcome_views(parsed@);
    let mut r: Vec<ChatMessage> = Vec::new();
    let mut i: usize = 0;
    let n = parsed.len();
    while i < n
        invariant
            n == parsed@.len(),
            p == outcome_views(parsed@),
            i <= n,
            views_of(r@) == accepted(p.take(i as int)),
        decreases n - i,
    {
        assert(p.take(i as int + 1).drop_last() =~= p.take(i as int));
        match &parsed[i] {
            Some(m) => {
                let mut c = m.duplicate();
                c.clean();
                let ghost before = r@;
                r.push(c);
                assert(views_of(r@) =~= views_of(before).push(c@));
            },
            None => {},
        }
        i = i + 1;
    }
    assert(p.take(n as int) =~= p);
    r
}

} // verus!
