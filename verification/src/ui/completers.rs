//! Completion of what the user types in chat mode: command names, then the
//! friends or discovered peers that a command takes.
use vstd::prelude::*;
use vstd::utf8::encode_utf8;

use super::text::{
    chars_of, has_prefix, lowercase, same_chars, split_words, starts_with, string_from_chars,
    string_views, to_lowercase, words,
};

verus! {

/// How many leading characters of `p` are matched, one after the other, by
/// scanning `t` from the start.
pub open spec fn greedy_matched(p: Seq<char>, t: Seq<char>) -> nat
    decreases t.len(),
{
    if t.len() == 0 {
        0
    } else {
        let m = greedy_matched(p, t.drop_last());
        if m < p.len() && t.last() == p[m as int] {
            m + 1
        } else {
            m
        }
    }
}

/// The length of `s` in UTF-8 bytes, as `str::len` reports it.
pub open spec fn utf8_len(s: Seq<char>) -> usize {
    encode_utf8(s).len() as usize
}

/// `p` fuzzily matches `t`: it is no longer in UTF-8 bytes, and its
/// characters occur in `t` in order.
pub open spec fn fuzzy_matches(p: Seq<char>, t: Seq<char>) -> bool {
    utf8_len(p) <= utf8_len(t) && greedy_matched(p, t) == p.len()
}

/// The names of `names` that start with `prefix`, in order.
pub open spec fn starting_with(names: Seq<Seq<char>>, prefix: Seq<char>) -> Seq<Seq<char>>
    decreases names.len(),
{
    if names.len() == 0 {
        Seq::empty()
    } else {
        let r = starting_with(names.drop_last(), prefix);
        if has_prefix(names.last(), prefix) {
            r.push(names.last())
        } else {
            r
        }
    }
}

/// The names of `names` that do not start with `prefix` but match it
/// fuzzily, in order.
pub open spec fn fuzzy_only(names: Seq<Seq<char>>, prefix: Seq<char>) -> Seq<Seq<char>>
    decreases names.len(),
{
    if names.len() == 0 {
        Seq::empty()
    } else {
        let r = fuzzy_only(names.drop_last(), prefix);
        let n = names.last();
        if !has_prefix(n, prefix) && fuzzy_matches(prefix, n) {
            r.push(n)
        } else {
            r
        }
    }
}

/// The command names that start with `prefix`, then those that only match
/// it fuzzily.
pub open spec fn command_matches(cmds: Seq<Seq<char>>, prefix: Seq<char>) -> Seq<Seq<char>> {
    starting_with(cmds, prefix) + fuzzy_only(cmds, prefix)
}

/// `head`, a space and `tail`.
pub open spec fn joined(head: Seq<char>, tail: Seq<char>) -> Seq<char> {
    head + seq![' '] + tail
}

/// Each name of `names` whose lower-case form starts with `prefix`, after
/// `head` and a space, in order.
pub open spec fn named_starting(names: Seq<Seq<char>>, head: Seq<char>, prefix: Seq<char>) -> Seq<Seq<char>>
    decreases names.len(),
{
    if names.len() == 0 {
        Seq::empty()
    } else {
        let r = named_starting(names.drop_last(), head, prefix);
        let n = names.last();
        if has_prefix(lowercase(n), prefix) {
            r.push(joined(head, n))
        } else {
            r
        }
    }
}

/// Each name of `names` whose lower-case form does not start with `prefix`
/// but matches it fuzzily, after `head` and a space, in order.
pub open spec fn named_fuzzy(names: Seq<Seq<char>>, head: Seq<char>, prefix: Seq<char>) -> Seq<Seq<char>>
    decreases names.len(),
{
    if names.len() == 0 {
        Seq::empty()
    } else {
        let r = named_fuzzy(names.drop_last(), head, prefix);
        let n = names.last();
        if !has_prefix(lowercase(n), prefix) && fuzzy_matches(prefix, lowercase(n)) {
            r.push(joined(head, n))
        } else {
            r
        }
    }
}

/// The names whose lower-case form starts with `prefix`, then those whose
/// lower-case form only matches it fuzzily, each after `head` and a space.
pub open spec fn name_matches(names: Seq<Seq<char>>, head: Seq<char>, prefix: Seq<char>) -> Seq<Seq<char>> {
    named_starting(names, head, prefix) + named_fuzzy(names, head, prefix)
}

/// The peers whose lower-case form starts with `prefix`, each after `head`
/// and a space; a placeholder when there is none.
pub open spec fn peer_matches(peers: Seq<Seq<char>>, head: Seq<char>, prefix: Seq<char>) -> Seq<Seq<char>> {
    let found = named_starting(peers, head, prefix);
    if found.len() == 0 {
        seq![head + " <peer_id>"@]
    } else {
        found
    }
}

/// A name that starts with the prefix is matched fuzzily too: its first
/// characters are the prefix's characters, in order.
pub proof fn law_prefix_is_fuzzy(t: Seq<char>, p: Seq<char>)
    requires
        has_prefix(t, p),
    ensures
        greedy_matched(p, t) == p.len(),
{
    lemma_greedy_prefix(t, p, p.len() as int);
    lemma_greedy_mono(p, t.take(p.len() as int), t);
    assert(t.take(p.len() as int) =~= p);
}

/// Scanning the first `k` characters of a text starting with `p` matches
/// `k` characters of `p`.
proof fn lemma_greedy_prefix(t: Seq<char>, p: Seq<char>, k: int)
    requires
        has_prefix(t, p),
        0 <= k <= p.len(),
    ensures
        greedy_matched(p, t.take(k)) == k,
    decreases k,
{
    if k > 0 {
        lemma_greedy_prefix(t, p, k - 1);
        assert(t.take(k).drop_last() =~= t.take(k - 1));
        assert(t.take(k).last() == t[k - 1]);
        assert(t.subrange(0, p.len() as int)[k - 1] == p[k - 1]);
    }
}

/// Scanning more text never matches fewer characters, and never more than
/// the pattern has.
proof fn lemma_greedy_mono(p: Seq<char>, a: Seq<char>, t: Seq<char>)
    requires
        a.len() <= t.len(),
        a == t.take(a.len() as int),
        greedy_matched(p, a) == p.len(),
    ensures
        greedy_matched(p, t) == p.len(),
    decreases t.len() - a.len(),
{
    if a.len() < t.len() {
        let b = t.take((a.len() + 1) as int);
        assert(b.drop_last() =~= a);
        lemma_greedy_mono(p, b, t);
    } else {
        assert(a =~= t);
    }
}

/// `idx` places the characters of `p` in `t`, in order.
pub open spec fn embeds(p: Seq<char>, t: Seq<char>, idx: Seq<int>) -> bool {
    &&& idx.len() == p.len()
    &&& forall|i: int| 0 <= i < idx.len() ==> 0 <= #[trigger] idx[i] < t.len() && t[idx[i]] == p[i]
    &&& forall|i: int, j: int| 0 <= i < j < idx.len() ==> #[trigger] idx[i] < #[trigger] idx[j]
}

/// The characters of `p` occur in `t` in order.
pub open spec fn is_subsequence(p: Seq<char>, t: Seq<char>) -> bool {
    exists|idx: Seq<int>| #[trigger] embeds(p, t, idx)
}

/// No more characters are matched than the pattern has.
proof fn lemma_greedy_bounded(p: Seq<char>, t: Seq<char>)
    ensures
        greedy_matched(p, t) <= p.len(),
    decreases t.len(),
{
    if t.len() > 0 {
        lemma_greedy_bounded(p, t.drop_last());
    }
}

/// Scanning further never matches fewer characters.
proof fn lemma_greedy_monotone(p: Seq<char>, t: Seq<char>, a: int, b: int)
    requires
        0 <= a <= b <= t.len(),
    ensures
        greedy_matched(p, t.take(a)) <= greedy_matched(p, t.take(b)),
    decreases b - a,
{
    if a < b {
        lemma_greedy_monotone(p, t, a, b - 1);
        assert(t.take(b).drop_last() =~= t.take(b - 1));
    }
}

/// What the scan has matched of `p` in `t` is placed in `t` in order.
proof fn lemma_greedy_sound(p: Seq<char>, t: Seq<char>) -> (idx: Seq<int>)
    ensures
        embeds(p.take(greedy_matched(p, t) as int), t, idx),
    decreases t.len(),
{
    lemma_greedy_bounded(p, t);
    if t.len() == 0 {
        let idx = Seq::<int>::empty();
        assert(p.take(0) =~= Seq::<char>::empty());
        idx
    } else {
        let d = t.drop_last();
        let prev = lemma_greedy_sound(p, d);
        lemma_greedy_bounded(p, d);
        let m = greedy_matched(p, d);
        if m < p.len() && t.last() == p[m as int] {
            let idx = prev.push(t.len() - 1);
            assert forall|i: int| 0 <= i < idx.len() implies 0 <= #[trigger] idx[i] < t.len() && t[idx[i]]
                == p.take((m + 1) as int)[i] by {
                if i < prev.len() {
                    assert(d[prev[i]] == p.take(m as int)[i]);
                    assert(t[prev[i]] == d[prev[i]]);
                }
            }
            assert forall|i: int, j: int| 0 <= i < j < idx.len() implies #[trigger] idx[i] < #[trigger] idx[j] by {
                if j < prev.len() {
                    assert(prev[i] < prev[j]);
                } else {
                    assert(0 <= prev[i] < d.len());
                }
            }
            idx
        } else {
            assert forall|i: int| 0 <= i < prev.len() implies 0 <= #[trigger] prev[i] < t.len() && t[prev[i]]
                == p.take(m as int)[i] by {
                assert(d[prev[i]] == p.take(m as int)[i]);
                assert(t[prev[i]] == d[prev[i]]);
            }
            prev
        }
    }
}

/// When `p` is placed in `t` in order, scanning up to the place of its
/// `k`-th character matches more than `k` characters.
proof fn lemma_greedy_complete_step(p: Seq<char>, t: Seq<char>, idx: Seq<int>, k: int)
    requires
        embeds(p, t, idx),
        0 <= k < p.len(),
    ensures
        greedy_matched(p, t.take(idx[k] + 1)) >= k + 1,
    decreases k,
{
    let pos = idx[k];
    assert(0 <= pos < t.len() && t[pos] == p[k]);
    if k > 0 {
        lemma_greedy_complete_step(p, t, idx, k - 1);
        assert(idx[k - 1] < idx[k]);
        lemma_greedy_monotone(p, t, idx[k - 1] + 1, pos);
    }
    let g = greedy_matched(p, t.take(pos));
    assert(t.take(pos + 1).drop_last() =~= t.take(pos));
    assert(t.take(pos + 1).last() == t[pos]);
    if g >= k + 1 {
        lemma_greedy_monotone(p, t, pos, pos + 1);
    }
}

/// Encoding a concatenation encodes its parts one after the other.
proof fn lemma_encode_concat(a: Seq<char>, b: Seq<char>)
    ensures
        encode_utf8(a + b) == encode_utf8(a) + encode_utf8(b),
    decreases a.len(),
{
    if a.len() == 0 {
        assert(a + b =~= b);
        assert(encode_utf8(a) + encode_utf8(b) =~= encode_utf8(b));
    } else {
        lemma_encode_concat(a.drop_first(), b);
        assert((a + b).drop_first() =~= a.drop_first() + b);
        assert((a + b)[0] == a[0]);
        assert(encode_utf8(a + b) =~= encode_utf8(a) + encode_utf8(b));
    }
}

/// Encoding one character more adds its bytes.
proof fn lemma_encode_push(s: Seq<char>, c: char)
    ensures
        encode_utf8(s.push(c)).len() == encode_utf8(s).len() + encode_utf8(seq![c]).len(),
{
    lemma_encode_concat(s, seq![c]);
    assert(s.push(c) =~= s + seq![c]);
}

/// The part of `p` that the greedy scan matches in `t` is no longer in UTF-8
/// bytes than `t`.
proof fn lemma_greedy_bytes(p: Seq<char>, t: Seq<char>)
    ensures
        greedy_matched(p, t) <= p.len(),
        encode_utf8(p.take(greedy_matched(p, t) as int)).len() <= encode_utf8(t).len(),
    decreases t.len(),
{
    lemma_greedy_bounded(p, t);
    if t.len() == 0 {
        assert(p.take(0) =~= Seq::<char>::empty());
    } else {
        let t0 = t.drop_last();
        let m0 = greedy_matched(p, t0);
        lemma_greedy_bytes(p, t0);
        assert(t =~= t0.push(t.last()));
        lemma_encode_push(t0, t.last());
        if m0 < p.len() && t.last() == p[m0 as int] {
            assert(p.take(m0 + 1int) =~= p.take(m0 as int).push(t.last()));
            lemma_encode_push(p.take(m0 as int), t.last());
        }
    }
}

/// The fuzzy match is the subsequence relation: a pattern matches a text
/// exactly when its characters occur in the text in order (the text's UTF-8
/// length fitting in `usize`, as a string's does).
pub proof fn law_fuzzy_match_is_subsequence(p: Seq<char>, t: Seq<char>)
    requires
        encode_utf8(t).len() <= usize::MAX,
    ensures
        fuzzy_matches(p, t) <==> is_subsequence(p, t),
{
    law_greedy_scan_is_subsequence(p, t);
    lemma_greedy_bytes(p, t);
    if greedy_matched(p, t) == p.len() {
        assert(p.take(p.len() as int) =~= p);
    }
}

/// Fuzzy matching scans the text once, matching the pattern's characters
/// in turn; it finds them all exactly when they occur in the text in order.
pub proof fn law_greedy_scan_is_subsequence(p: Seq<char>, t: Seq<char>)
    ensures
        (greedy_matched(p, t) == p.len()) <==> is_subsequence(p, t),
{
    lemma_greedy_bounded(p, t);
    if greedy_matched(p, t) == p.len() {
        let idx = lemma_greedy_sound(p, t);
        assert(p.take(p.len() as int) =~= p);
        assert(embeds(p, t, idx));
    }
    if is_subsequence(p, t) {
        let idx = choose|idx: Seq<int>| #[trigger] embeds(p, t, idx);
        if p.len() > 0 {
            lemma_greedy_complete_step(p, t, idx, p.len() - 1);
            let last = idx[p.len() - 1];
            lemma_greedy_monotone(p, t, last + 1, t.len() as int);
            assert(t.take(t.len() as int) =~= t);
        }
    }
}

/// The names starting with the prefix are names of the list that start
/// with it, each once when the list has each once.
proof fn lemma_starting_with(names: Seq<Seq<char>>, p: Seq<char>)
    ensures
        forall|i: int|
            0 <= i < starting_with(names, p).len() ==> has_prefix(#[trigger] starting_with(names, p)[i], p)
                && names.contains(starting_with(names, p)[i]),
        names.no_duplicates() ==> starting_with(names, p).no_duplicates(),
    decreases names.len(),
{
    if names.len() > 0 {
        let d = names.drop_last();
        lemma_starting_with(d, p);
        let r = starting_with(d, p);
        assert forall|i: int| 0 <= i < r.len() implies names.contains(#[trigger] r[i]) by {
            let k = choose|k: int| 0 <= k < d.len() && d[k] == r[i];
            assert(names[k] == r[i]);
        }
        if names.no_duplicates() {
            assert(d.no_duplicates()) by {
                assert forall|a: int, b: int| 0 <= a < d.len() && 0 <= b < d.len() && a != b implies d[a] != d[b] by {
                    assert(names[a] == d[a] && names[b] == d[b]);
                }
            }
            if has_prefix(names.last(), p) {
                assert(!r.contains(names.last())) by {
                    if r.contains(names.last()) {
                        let i = choose|i: int| 0 <= i < r.len() && r[i] == names.last();
                        let k = choose|k: int| 0 <= k < d.len() && d[k] == r[i];
                        assert(names[k] == names[names.len() - 1]);
                    }
                }
            }
        }
        assert(names.last() == names[names.len() - 1]);
    }
}

/// The names only matching the prefix fuzzily are names of the list that do
/// not start with it, each once when the list has each once.
proof fn lemma_fuzzy_only(names: Seq<Seq<char>>, p: Seq<char>)
    ensures
        forall|i: int|
            0 <= i < fuzzy_only(names, p).len() ==> !has_prefix(#[trigger] fuzzy_only(names, p)[i], p)
                && names.contains(fuzzy_only(names, p)[i]),
        names.no_duplicates() ==> fuzzy_only(names, p).no_duplicates(),
    decreases names.len(),
{
    if names.len() > 0 {
        let d = names.drop_last();
        lemma_fuzzy_only(d, p);
        let r = fuzzy_only(d, p);
        assert forall|i: int| 0 <= i < r.len() implies names.contains(#[trigger] r[i]) by {
            let k = choose|k: int| 0 <= k < d.len() && d[k] == r[i];
            assert(names[k] == r[i]);
        }
        if names.no_duplicates() {
            assert(d.no_duplicates()) by {
                assert forall|a: int, b: int| 0 <= a < d.len() && 0 <= b < d.len() && a != b implies d[a] != d[b] by {
                    assert(names[a] == d[a] && names[b] == d[b]);
                }
            }
            assert(!r.contains(names.last())) by {
                if r.contains(names.last()) {
                    let i = choose|i: int| 0 <= i < r.len() && r[i] == names.last();
                    let k = choose|k: int| 0 <= k < d.len() && d[k] == r[i];
                    assert(names[k] == names[names.len() - 1]);
                }
            }
        }
        assert(names.last() == names[names.len() - 1]);
    }
}

/// Completing a command never offers the same command twice: those starting
/// with the prefix come first, the fuzzy ones after, and no command is both.
pub proof fn law_command_matches_distinct(cmds: Seq<Seq<char>>, prefix: Seq<char>)
    requires
        cmds.no_duplicates(),
    ensures
        command_matches(cmds, prefix).no_duplicates(),
{
    lemma_starting_with(cmds, prefix);
    lemma_fuzzy_only(cmds, prefix);
    let a = starting_with(cmds, prefix);
    let b = fuzzy_only(cmds, prefix);
    let c = a + b;
    assert forall|i: int, j: int| 0 <= i < c.len() && 0 <= j < c.len() && i != j implies c[i] != c[j] by {
        if i < a.len() && j >= a.len() {
            assert(has_prefix(a[i], prefix));
            assert(!has_prefix(b[j - a.len()], prefix));
        } else if j < a.len() && i >= a.len() {
            assert(has_prefix(a[j], prefix));
            assert(!has_prefix(b[i - a.len()], prefix));
        } else if i < a.len() {
            assert(a[i] != a[j]);
        } else {
            assert(b[i - a.len()] != b[j - a.len()]);
        }
    }
}

/// Pushing a string adds its characters to the views.
proof fn lemma_views_push(v: Seq<String>, s: String)
    ensures
        string_views(v.push(s)) == string_views(v).push(s@),
{
    assert(string_views(v.push(s)) =~= string_views(v).push(s@));
}

/// Completes command names, friends and discovered peers.
#[derive(Clone)]
pub struct ChatCompleter {
    commands: Vec<String>,
    friends: Vec<String>,
    discovered_peers: Vec<String>,
}

impl ChatCompleter {
    /// The command names.
    pub closed spec fn commands_view(&self) -> Seq<Seq<char>> {
        string_views(self.commands@)
    }

    /// The friends.
    pub closed spec fn friends_view(&self) -> Seq<Seq<char>> {
        string_views(self.friends@)
    }

    /// The discovered peers.
    pub closed spec fn peers_view(&self) -> Seq<Seq<char>> {
        string_views(self.discovered_peers@)
    }

    /// The completions of `input`.
    pub open spec fn spec_suggestions(&self, input: Seq<char>) -> Seq<Seq<char>> {
        let parts = split_words(input);
        if parts.len() == 0 {
            self.commands_view()
        } else if parts.len() == 1 {
            command_matches(self.commands_view(), lowercase(parts[0]))
        } else if parts.len() == 2 {
            if parts[0] == "send"@ || parts[0] == "history"@ {
                name_matches(self.friends_view(), parts[0], lowercase(parts[1]))
            } else if parts[0] == "friend"@ {
                peer_matches(self.peers_view(), parts[0], lowercase(parts[1]))
            } else {
                Seq::empty()
            }
        } else if parts.len() == 3 && parts[0] == "friend"@ {
            seq![joined(parts[0], parts[1]) + " <e2e_public_key>"@]
        } else if parts.len() == 4 && parts[0] == "friend"@ {
            seq![joined(joined(parts[0], parts[1]), parts[2]) + " <optional_nickname>"@]
        } else {
            Seq::empty()
        }
    }

    /// A completer for the given friends, with the commands `send`,
    /// `history`, `friends`, `friend`, `peers`, `info`, `check`, `help` and
    /// `exit`, and no discovered peers.
    pub fn new(friends: Vec<String>) -> (c: Self)
        ensures
            c.commands_view() == seq![
                "send"@,
                "history"@,
                "friends"@,
                "friend"@,
                "peers"@,
                "info"@,
                "check"@,
                "help"@,
                "exit"@,
            ],
            c.friends_view() == string_views(friends@),
            c.peers_view().len() == 0,
    {
        let mut commands: Vec<String> = Vec::new();
        commands.push(String::from_str("send"));
        commands.push(String::from_str("history"));
        commands.push(String::from_str("friends"));
        commands.push(String::from_str("friend"));
        commands.push(String::from_str("peers"));
        commands.push(String::from_str("info"));
        commands.push(String::from_str("check"));
        commands.push(String::from_str("help"));
        commands.push(String::from_str("exit"));
        let c = ChatCompleter { commands, friends, discovered_peers: Vec::new() };
        assert(c.commands_view() =~= seq![
            "send"@,
            "history"@,
            "friends"@,
            "friend"@,
            "peers"@,
            "info"@,
            "check"@,
            "help"@,
            "exit"@,
        ]);
        assert(c.peers_view() =~= Seq::<Seq<char>>::empty());
        c
    }

    /// Replaces the friends.
    pub fn update_friends(&mut self, friends: Vec<String>)
        ensures
            final(self).friends_view() == string_views(friends@),
            final(self).commands_view() == old(self).commands_view(),
            final(self).peers_view() == old(self).peers_view(),
    {
        self.friends = friends;
    }

    /// Replaces the discovered peers.
    pub fn update_discovered_peers(&mut self, peers: Vec<String>)
        ensures
            final(self).peers_view() == string_views(peers@),
            final(self).commands_view() == old(self).commands_view(),
            final(self).friends_view() == old(self).friends_view(),
    {
        self.discovered_peers = peers;
    }

    /// Whether the characters of `pattern` occur in `text` in order, given
    /// that `pattern` is no longer than `text` in UTF-8 bytes.
    pub fn fuzzy_match(&self, pattern: &str, text: &str) -> (r: bool)
        ensures
            r == fuzzy_matches(pattern@, text@),
    {
        if pattern.len() > text.len() {
            return false;
        }
        let p = chars_of(pattern);
        let t = chars_of(text);
        let mut m: usize = 0;
        let mut i: usize = 0;
        while i < t.len()
            invariant
                i <= t.len(),
                m == greedy_matched(p@, t@.take(i as int)),
                m <= p.len(),
            decreases t.len() - i,
        {
            proof {
                assert(t@.take(i + 1).drop_last() =~= t@.take(i as int));
            }
            if m < p.len() && t[i] == p[m] {
                m = m + 1;
            }
            i += 1;
        }
        proof {
            assert(t@.take(t.len() as int) =~= t@);
        }
        m == p.len()
    }

    /// The command names matching `prefix`: those that start with it, then
    /// those that match it fuzzily.
    fn match_commands(&self, prefix: &Vec<char>) -> (r: Vec<String>)
        ensures
            string_views(r@) == command_matches(self.commands_view(), prefix@),
    {
        let ghost cmds = self.commands_view();
        let ps = string_from_chars(prefix);
        let mut out: Vec<String> = Vec::new();
        let mut i: usize = 0;
        while i < self.commands.len()
            invariant
                cmds == string_views(self.commands@),
                i <= self.commands.len(),
                string_views(out@) == starting_with(cmds.take(i as int), prefix@),
            decreases self.commands.len() - i,
        {
            let cv = chars_of(self.commands[i].as_str());
            proof {
                assert(cmds.take(i + 1).drop_last() =~= cmds.take(i as int));
                assert(cmds.take(i + 1).last() == cv@);
            }
            if starts_with(&cv, prefix) {
                let ghost before = out@;
                out.push(self.commands[i].clone());
                proof {
                    lemma_views_push(before, self.commands@[i as int]);
                }
            }
            i += 1;
        }
        let ghost first = string_views(out@);
        assert(cmds.take(self.commands.len() as int) =~= cmds);
        let mut j: usize = 0;
        while j < self.commands.len()
            invariant
                cmds == string_views(self.commands@),
                first == starting_with(cmds, prefix@),
                ps@ == prefix@,
                j <= self.commands.len(),
                string_views(out@) == first + fuzzy_only(cmds.take(j as int), prefix@),
            decreases self.commands.len() - j,
        {
            let cv = chars_of(self.commands[j].as_str());
            proof {
                assert(cmds.take(j + 1).drop_last() =~= cmds.take(j as int));
                assert(cmds.take(j + 1).last() == cv@);
            }
            if !starts_with(&cv, prefix) && self.fuzzy_match(ps.as_str(), self.commands[j].as_str()) {
                let ghost before = out@;
                out.push(self.commands[j].clone());
                proof {
                    lemma_views_push(before, self.commands@[j as int]);
                    assert(string_views(out@) =~= first + fuzzy_only(cmds.take(j + 1), prefix@));
                }
            }
            j += 1;
        }
        assert(cmds.take(self.commands.len() as int) =~= cmds);
        out
    }

    /// `head`, a space and `tail`.
    fn join(head: &Vec<char>, tail: &Vec<char>) -> (r: Vec<char>)
        ensures
            r@ == joined(head@, tail@),
    {
        let mut out: Vec<char> = Vec::new();
        let mut i: usize = 0;
        while i < head.len()
            invariant
                i <= head.len(),
                out@ == head@.take(i as int),
            decreases head.len() - i,
        {
            out.push(head[i]);
            assert(out@ =~= head@.take(i + 1));
            i += 1;
        }
        out.push(' ');
        let mut j: usize = 0;
        while j < tail.len()
            invariant
                j <= tail.len(),
                i == head.len(),
                out@ == head@ + seq![' '] + tail@.take(j as int),
            decreases tail.len() - j,
        {
            out.push(tail[j]);
            assert(out@ =~= head@ + seq![' '] + tail@.take(j + 1));
            j += 1;
        }
        assert(tail@.take(tail.len() as int) =~= tail@);
        assert(head@.take(head.len() as int) =~= head@);
        out
    }

    /// `chars` followed by `suffix`.
    fn append_str(chars: &Vec<char>, suffix: &str) -> (r: String)
        ensures
            r@ == chars@ + suffix@,
    {
        let mut out: Vec<char> = Vec::new();
        let tail = chars_of(suffix);
        let mut i: usize = 0;
        while i < chars.len()
            invariant
                i <= chars.len(),
                out@ == chars@.take(i as int),
            decreases chars.len() - i,
        {
            out.push(chars[i]);
            assert(out@ =~= chars@.take(i + 1));
            i += 1;
        }
        let mut j: usize = 0;
        while j < tail.len()
            invariant
                j <= tail.len(),
                i == chars.len(),
                out@ == chars@.take(i as int) + tail@.take(j as int),
            decreases tail.len() - j,
        {
            out.push(tail[j]);
            assert(out@ =~= chars@.take(i as int) + tail@.take(j + 1));
            j += 1;
        }
        assert(tail@.take(tail.len() as int) =~= tail@);
        assert(chars@.take(chars.len() as int) =~= chars@);
        string_from_chars(&out)
    }

    /// The names in `names` matching `prefix` in lower case, each after `head`
    /// and a space: those that start with it, then those that match it
    /// fuzzily.
    fn match_names(&self, names: &Vec<String>, head: &Vec<char>, prefix: &Vec<char>) -> (r: Vec<String>)
        ensures
            string_views(r@) == name_matches(string_views(names@), head@, prefix@),
    {
        let ghost ns = string_views(names@);
        let first = Self::match_starting(names, head, prefix);
        let mut out = first;
        let ghost first_v = string_views(out@);
        let ps = string_from_chars(prefix);
        let mut k: usize = 0;
        while k < names.len()
            invariant
                ns == string_views(names@),
                first_v == named_starting(ns, head@, prefix@),
                ps@ == prefix@,
                k <= names.len(),
                string_views(out@) == first_v + named_fuzzy(ns.take(k as int), head@, prefix@),
            decreases names.len() - k,
        {
            let nv = chars_of(names[k].as_str());
            let lower_s = to_lowercase(names[k].as_str());
            let lower = chars_of(lower_s.as_str());
            proof {
                assert(ns.take(k + 1).drop_last() =~= ns.take(k as int));
                assert(ns.take(k + 1).last() == nv@);
            }
            if !starts_with(&lower, prefix) && self.fuzzy_match(ps.as_str(), lower_s.as_str()) {
                let jn = Self::join(head, &nv);
                let item = string_from_chars(&jn);
                let ghost before = out@;
                out.push(item);
                proof {
                    lemma_views_push(before, item);
                    assert(string_views(out@) =~= first_v + named_fuzzy(ns.take(k + 1), head@, prefix@));
                }
            }
            k += 1;
        }
        assert(ns.take(names.len() as int) =~= ns);
        out
    }

    /// Each name of `names` whose lower-case form starts with `prefix`, after
    /// `head` and a space.
    fn match_starting(names: &Vec<String>, head: &Vec<char>, prefix: &Vec<char>) -> (r: Vec<String>)
        ensures
            string_views(r@) == named_starting(string_views(names@), head@, prefix@),
    {
        let ghost ns = string_views(names@);
        let mut out: Vec<String> = Vec::new();
        let mut i: usize = 0;
        while i < names.len()
            invariant
                ns == string_views(names@),
                i <= names.len(),
                string_views(out@) == named_starting(ns.take(i as int), head@, prefix@),
            decreases names.len() - i,
        {
            let nv = chars_of(names[i].as_str());
            let lower = chars_of(to_lowercase(names[i].as_str()).as_str());
            proof {
                assert(ns.take(i + 1).drop_last() =~= ns.take(i as int));
                assert(ns.take(i + 1).last() == nv@);
            }
            if starts_with(&lower, prefix) {
                let jn = Self::join(head, &nv);
                let item = string_from_chars(&jn);
                let ghost before = out@;
                out.push(item);
                proof {
                    lemma_views_push(before, item);
                }
            }
            i += 1;
        }
        assert(ns.take(names.len() as int) =~= ns);
        out
    }

    /// The discovered peers matching `prefix` in lower case, each after
    /// `head` and a space; a placeholder when there is none.
    fn match_peers(&self, head: &Vec<char>, prefix: &Vec<char>) -> (r: Vec<String>)
        ensures
            string_views(r@) == peer_matches(self.peers_view(), head@, prefix@),
    {
        let mut out = Self::match_starting(&self.discovered_peers, head, prefix);
        if out.len() == 0 {
            let item = Self::append_str(head, " <peer_id>");
            out.push(item);
            assert(string_views(out@) =~= seq![head@ + " <peer_id>"@]);
        }
        out
    }

    /// The completions of `input`. Blank input gets every command; one word
    /// gets the commands it starts or fuzzily matches; after `send` or
    /// `history`, the friends matching the second word; after `friend`, the
    /// discovered peers matching it, then placeholders for the key and the
    /// nickname.
    pub fn get_suggestions(&self, input: &str) -> (r: Vec<String>)
        ensures
            string_views(r@) == self.spec_suggestions(input@),
    {
        let chars = chars_of(input);
        let parts = words(&chars);
        proof {
            assert(parts@.len() == split_words(input@).len());
        }
        if parts.len() == 0 {
            let mut out: Vec<String> = Vec::new();
            let mut i: usize = 0;
            while i < self.commands.len()
                invariant
                    i <= self.commands.len(),
                    string_views(out@) == string_views(self.commands@).take(i as int),
                decreases self.commands.len() - i,
            {
                let ghost before = out@;
                out.push(self.commands[i].clone());
                proof {
                    lemma_views_push(before, self.commands@[i as int]);
                    assert(string_views(out@) =~= string_views(self.commands@).take(i + 1));
                }
                i += 1;
            }
            assert(string_views(self.commands@).take(i as int) =~= string_views(self.commands@));
            return out;
        }
        assert(parts@[0]@ == split_words(input@)[0]);
        let send = chars_of("send");
        let history = chars_of("history");
        let friend = chars_of("friend");
        if parts.len() == 1 {
            let prefix = super::text::lowercase_chars(&parts[0]);
            return self.match_commands(&prefix);
        }
        assert(parts@[1]@ == split_words(input@)[1]);
        if parts.len() == 2 {
            let prefix = super::text::lowercase_chars(&parts[1]);
            if same_chars(&parts[0], &send) || same_chars(&parts[0], &history) {
                return self.match_names(&self.friends, &parts[0], &prefix);
            } else if same_chars(&parts[0], &friend) {
                return self.match_peers(&parts[0], &prefix);
            } else {
                return Vec::new();
            }
        }
        if !same_chars(&parts[0], &friend) || parts.len() > 4 {
            return Vec::new();
        }
        let mut out: Vec<String> = Vec::new();
        let j01 = Self::join(&parts[0], &parts[1]);
        if parts.len() == 3 {
            let item = Self::append_str(&j01, " <e2e_public_key>");
            out.push(item);
            proof {
                lemma_views_push(Seq::empty(), item);
                assert(Seq::<String>::empty().push(item) =~= out@);
            }
        } else {
            assert(parts@[2]@ == split_words(input@)[2]);
            let j012 = Self::join(&j01, &parts[2]);
            let item = Self::append_str(&j012, " <optional_nickname>");
            out.push(item);
            proof {
                lemma_views_push(Seq::empty(), item);
                assert(Seq::<String>::empty().push(item) =~= out@);
            }
        }
        out
    }
}

/// Each of `tails` after `head`.
pub open spec fn after_head(head: Seq<char>, tails: Seq<Seq<char>>) -> Seq<Seq<char>> {
    tails.map_values(|t: Seq<char>| head + t)
}

proof fn lemma_after_head_push(head: Seq<char>, tails: Seq<Seq<char>>, n: Seq<char>)
    ensures
        after_head(head, tails.push(joined(Seq::empty(), n))) == after_head(head, tails).push(joined(head, n)),
{
    assert(head + joined(Seq::empty(), n) =~= joined(head, n));
    assert(after_head(head, tails.push(joined(Seq::empty(), n))) =~= after_head(head, tails).push(joined(head, n)));
}

proof fn lemma_name_matches_heads(names: Seq<Seq<char>>, head: Seq<char>, p: Seq<char>)
    ensures
        named_starting(names, head, p) == after_head(head, named_starting(names, Seq::empty(), p)),
        named_fuzzy(names, head, p) == after_head(head, named_fuzzy(names, Seq::empty(), p)),
        name_matches(names, head, p) == after_head(head, name_matches(names, Seq::empty(), p)),
    decreases names.len(),
{
    let e = Seq::<char>::empty();
    if names.len() == 0 {
        assert(after_head(head, Seq::<Seq<char>>::empty()) =~= Seq::<Seq<char>>::empty());
    } else {
        lemma_name_matches_heads(names.drop_last(), head, p);
        let n = names.last();
        if has_prefix(lowercase(n), p) {
            lemma_after_head_push(head, named_starting(names.drop_last(), e, p), n);
        }
        if !has_prefix(lowercase(n), p) && fuzzy_matches(p, lowercase(n)) {
            lemma_after_head_push(head, named_fuzzy(names.drop_last(), e, p), n);
        }
    }
    assert(after_head(head, named_starting(names, e, p) + named_fuzzy(names, e, p)) =~= after_head(
        head,
        named_starting(names, e, p),
    ) + after_head(head, named_fuzzy(names, e, p)));
}

impl ChatCompleter {
    /// `history <word>` completes friends as `send <word>` does: the same
    /// completions (friends whose name starts with the word, then those that
    /// match it fuzzily), in the same order, after `history` in place of
    /// `send`.
    pub proof fn law_history_completes_like_send(&self, send_input: Seq<char>, history_input: Seq<char>, word: Seq<char>)
        requires
            split_words(send_input) == seq!["send"@, word],
            split_words(history_input) == seq!["history"@, word],
        ensures
            ({
                let tails = name_matches(self.friends_view(), Seq::empty(), lowercase(word));
                &&& self.spec_suggestions(send_input) == after_head("send"@, tails)
                &&& self.spec_suggestions(history_input) == after_head("history"@, tails)
            }),
    {
        lemma_name_matches_heads(self.friends_view(), "send"@, lowercase(word));
        lemma_name_matches_heads(self.friends_view(), "history"@, lowercase(word));
    }
}

} // verus!
