//! The items of the chat view: the stored messages and the lines of the chat
//! texts, in the order of their times.
use vstd::prelude::*;

use super::state::{ChatMessageEntry, UIState};
use super::text::{char_views, chars_of, lines_of, string_from_chars, text_lines};

verus! {

/// What a chat view item shows.
pub enum ChatItemKind {
    /// The stored message at this position of `UIState::messages`.
    Message(usize),
    /// A line of a chat text.
    Line(String),
}

/// A chat view item and the time (ms since the Unix epoch) it is ordered by.
pub struct ChatItem {
    pub at: i64,
    pub kind: ChatItemKind,
}

/// What a chat view item shows, as plain values.
pub enum ItemView {
    Message(usize),
    Line(Seq<char>),
}

/// An item as its time and what it shows.
pub open spec fn item_view(c: ChatItem) -> (i64, ItemView) {
    (
        c.at,
        match c.kind {
            ChatItemKind::Message(i) => ItemView::Message(i),
            ChatItemKind::Line(s) => ItemView::Line(s@),
        },
    )
}

/// The items of `v` as plain values.
pub open spec fn item_views(v: Seq<ChatItem>) -> Seq<(i64, ItemView)> {
    v.map_values(|c: ChatItem| item_view(c))
}

/// One item for each stored message: its arrival time and its position.
pub open spec fn message_items(m: Seq<ChatMessageEntry>) -> Seq<(i64, ItemView)> {
    Seq::new(m.len(), |i: int| (m[i].received_at, ItemView::Message(i as usize)))
}

/// The lines of the chat text `text` of time `at`, as items.
pub open spec fn text_items(at: i64, text: Seq<char>) -> Seq<(i64, ItemView)> {
    text_lines(text).map_values(|l: Seq<char>| (at, ItemView::Line(l)))
}

/// One item for each line of each chat text, in order.
pub open spec fn line_items(cm: Seq<(i64, String)>) -> Seq<(i64, ItemView)>
    decreases cm.len(),
{
    if cm.len() == 0 {
        Seq::empty()
    } else {
        line_items(cm.drop_last()) + text_items(cm.last().0, cm.last().1@)
    }
}

/// The items of the chat view of `state` before ordering: the messages, then
/// the lines of the chat texts.
pub open spec fn unordered_items(state: UIState) -> Seq<(i64, ItemView)> {
    message_items(state.messages@) + line_items(state.chat_messages@)
}

/// The items of `s` at time `k`, in order.
pub open spec fn at_time(s: Seq<(i64, ItemView)>, k: i64) -> Seq<(i64, ItemView)>
    decreases s.len(),
{
    if s.len() == 0 {
        Seq::empty()
    } else {
        at_time(s.drop_last(), k) + (if s.last().0 == k {
            seq![s.last()]
        } else {
            Seq::empty()
        })
    }
}

/// The items of `s` come in the order of their times.
pub open spec fn ordered_by_time(s: Seq<(i64, ItemView)>) -> bool {
    forall|i: int, j: int| 0 <= i < j < s.len() ==> s[i].0 <= s[j].0
}

/// `r` is `s` ordered by time, items of the same time kept in their order
/// (a stable sort): ordered, with the same items at each time.
pub open spec fn stably_ordered(r: Seq<(i64, ItemView)>, s: Seq<(i64, ItemView)>) -> bool {
    &&& ordered_by_time(r)
    &&& forall|k: i64| #[trigger] at_time(r, k) == at_time(s, k)
}

proof fn lemma_at_time_push(s: Seq<(i64, ItemView)>, x: (i64, ItemView), k: i64)
    ensures
        at_time(s.push(x), k) == at_time(s, k) + (if x.0 == k {
            seq![x]
        } else {
            Seq::empty()
        }),
{
    assert(s.push(x).drop_last() =~= s);
}

proof fn lemma_at_time_add(a: Seq<(i64, ItemView)>, b: Seq<(i64, ItemView)>, k: i64)
    ensures
        at_time(a + b, k) == at_time(a, k) + at_time(b, k),
    decreases b.len(),
{
    if b.len() == 0 {
        assert(a + b =~= a);
        assert(at_time(a, k) + at_time(b, k) =~= at_time(a, k));
    } else {
        lemma_at_time_add(a, b.drop_last(), k);
        assert((a + b).drop_last() =~= a + b.drop_last());
        assert((a + b).last() == b.last());
        assert(at_time(a, k) + at_time(b, k) =~= at_time(a, k) + at_time(b.drop_last(), k) + (if b.last().0 == k {
            seq![b.last()]
        } else {
            Seq::empty()
        }));
    }
}

proof fn lemma_at_time_none(s: Seq<(i64, ItemView)>, k: i64)
    requires
        forall|i: int| 0 <= i < s.len() ==> s[i].0 != k,
    ensures
        at_time(s, k) == Seq::<(i64, ItemView)>::empty(),
    decreases s.len(),
{
    if s.len() > 0 {
        lemma_at_time_none(s.drop_last(), k);
    }
}

/// Puts `x` after the items of `r` of its time or before, and before the
/// later ones.
fn insert_by_time(r: &mut Vec<ChatItem>, x: ChatItem)
    requires
        ordered_by_time(item_views(old(r)@)),
    ensures
        ordered_by_time(item_views(final(r)@)),
        forall|k: i64|
            #[trigger] at_time(item_views(final(r)@), k) == at_time(item_views(old(r)@).push(item_view(x)), k),
{
    let ghost s = item_views(r@);
    let mut p: usize = 0;
    while p < r.len() && r[p].at <= x.at
        invariant
            p <= r.len(),
            s == item_views(r@),
            forall|i: int| 0 <= i < p ==> s[i].0 <= x.at,
        decreases r.len() - p,
    {
        p += 1;
    }
    let ghost xv = item_view(x);
    r.insert(p, x);
    proof {
        let n = item_views(r@);
        assert(n =~= s.take(p as int) + seq![xv] + s.skip(p as int));
        assert forall|i: int| p <= i < s.len() implies s[i].0 > x.at by {
            assert(s[p as int].0 > x.at);
            assert(s[p as int].0 <= s[i].0);
        }
        assert forall|i: int, j: int| 0 <= i < j < n.len() implies n[i].0 <= n[j].0 by {
            if j < p {
                assert(n[i] == s[i] && n[j] == s[j]);
            } else if j == p {
                assert(n[i] == s[i]);
            } else if i < p {
                assert(n[i] == s[i] && n[j] == s[j - 1]);
            } else if i == p {
                assert(n[j] == s[j - 1]);
            } else {
                assert(n[i] == s[i - 1] && n[j] == s[j - 1]);
            }
        }
        assert forall|k: i64| #[trigger] at_time(n, k) == at_time(s.push(xv), k) by {
            let a = s.take(p as int);
            let b = s.skip(p as int);
            assert(s =~= a + b);
            lemma_at_time_add(a + seq![xv], b, k);
            lemma_at_time_add(a, seq![xv], k);
            lemma_at_time_add(a, b, k);
            lemma_at_time_push(s, xv, k);
            assert(seq![xv] =~= Seq::<(i64, ItemView)>::empty().push(xv));
            lemma_at_time_push(Seq::<(i64, ItemView)>::empty(), xv, k);
            assert(at_time(Seq::<(i64, ItemView)>::empty(), k) =~= Seq::<(i64, ItemView)>::empty());
            if k <= x.at {
                assert forall|i: int| 0 <= i < b.len() implies b[i].0 != k by {
                    assert(b[i] == s[i + p]);
                }
                lemma_at_time_none(b, k);
                if k < x.at {
                    assert(at_time(n, k) =~= at_time(s.push(xv), k));
                } else {
                    assert(at_time(n, k) =~= at_time(s.push(xv), k));
                }
            } else {
                assert forall|i: int| 0 <= i < a.len() implies a[i].0 != k by {
                    assert(a[i] == s[i]);
                }
                lemma_at_time_none(a, k);
                assert(at_time(n, k) =~= at_time(s.push(xv), k));
            }
        }
    }
}

/// The items of the chat view of `state`: its messages and the lines of its
/// chat texts, ordered by time, items of the same time in the order of
/// `unordered_items` (messages first, then the texts' lines in order).
pub fn chat_view_items(state: &UIState) -> (r: Vec<ChatItem>)
    ensures
        stably_ordered(item_views(r@), unordered_items(*state)),
{
    let mut r: Vec<ChatItem> = Vec::new();
    let ghost m = message_items(state.messages@);
    let mut i: usize = 0;
    proof {
        assert(item_views(r@) =~= Seq::<(i64, ItemView)>::empty());
        assert(m.take(0) =~= Seq::<(i64, ItemView)>::empty());
    }
    while i < state.messages.len()
        invariant
            i <= state.messages@.len(),
            m == message_items(state.messages@),
            ordered_by_time(item_views(r@)),
            forall|k: i64| #[trigger] at_time(item_views(r@), k) == at_time(m.take(i as int), k),
        decreases state.messages@.len() - i,
    {
        let x = ChatItem { at: state.messages[i].received_at, kind: ChatItemKind::Message(i) };
        let ghost before = item_views(r@);
        insert_by_time(&mut r, x);
        proof {
            assert(m.take(i + 1) =~= m.take(i as int).push(item_view(x)));
            assert forall|k: i64| #[trigger] at_time(item_views(r@), k) == at_time(m.take(i + 1), k) by {
                lemma_at_time_push(before, item_view(x), k);
                lemma_at_time_push(m.take(i as int), item_view(x), k);
            }
        }
        i += 1;
    }
    let ghost cm = state.chat_messages@;
    let mut j: usize = 0;
    proof {
        assert(m.take(i as int) =~= m);
        assert(cm.take(0) =~= Seq::<(i64, String)>::empty());
        assert(m + line_items(cm.take(0)) =~= m);
    }
    while j < state.chat_messages.len()
        invariant
            j <= cm.len(),
            cm == state.chat_messages@,
            m == message_items(state.messages@),
            ordered_by_time(item_views(r@)),
            forall|k: i64| #[trigger] at_time(item_views(r@), k) == at_time(m + line_items(cm.take(j as int)), k),
        decreases cm.len() - j,
    {
        let at = state.chat_messages[j].0;
        let cs = chars_of(state.chat_messages[j].1.as_str());
        let lines = lines_of(&cs);
        let ghost done = m + line_items(cm.take(j as int));
        let ghost t = text_items(at, cm[j as int].1@);
        let mut l: usize = 0;
        proof {
            assert(done + t.take(0) =~= done);
        }
        while l < lines.len()
            invariant
                l <= lines@.len(),
                char_views(lines@) == text_lines(cm[j as int].1@),
                t == text_items(at, cm[j as int].1@),
                ordered_by_time(item_views(r@)),
                forall|k: i64| #[trigger] at_time(item_views(r@), k) == at_time(done + t.take(l as int), k),
            decreases lines@.len() - l,
        {
            let text = string_from_chars(&lines[l]);
            let x = ChatItem { at, kind: ChatItemKind::Line(text) };
            let ghost before = item_views(r@);
            insert_by_time(&mut r, x);
            proof {
                assert(char_views(lines@)[l as int] == lines@[l as int]@);
                assert(item_view(x) == t[l as int]);
                assert(done + t.take(l + 1) =~= (done + t.take(l as int)).push(item_view(x)));
                assert forall|k: i64| #[trigger] at_time(item_views(r@), k) == at_time(done + t.take(l + 1), k) by {
                    lemma_at_time_push(before, item_view(x), k);
                    lemma_at_time_push(done + t.take(l as int), item_view(x), k);
                }
            }
            l += 1;
        }
        proof {
            assert(t.take(l as int) =~= t);
            assert(cm.take(j + 1).drop_last() =~= cm.take(j as int));
            assert(line_items(cm.take(j + 1)) == line_items(cm.take(j as int)) + t);
            assert(done + t =~= m + line_items(cm.take(j + 1)));
        }
        j += 1;
    }
    proof {
        assert(cm.take(j as int) =~= cm);
    }
    r
}

} // verus!
