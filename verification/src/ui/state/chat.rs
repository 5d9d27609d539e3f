//! What the chat view shows, and how it scrolls.
use vstd::prelude::*;

use crate::clock::utc_now_millis;
use crate::types::Message;
use crate::ui::mode::UIMode;
use crate::ui::text::{blank, chars_of, count_lines, is_blank, lines_of, string_from_chars, text_lines};

use super::{ChatMessageEntry, UIState};

verus! {

/// The mark put before each line of command output that is not blank.
pub open spec fn history_mark() -> Seq<char> {
    "__HISTORY_OUTPUT__"@
}

/// How many lines the texts of `msgs` take.
pub open spec fn chat_lines_total(msgs: Seq<(i64, String)>) -> nat
    decreases msgs.len(),
{
    if msgs.len() == 0 {
        0
    } else {
        chat_lines_total(msgs.drop_last()) + text_lines(msgs.last().1@).len()
    }
}

/// How far a view of `total` lines on a terminal `height` lines high can be
/// scrolled up: two lines go to the input and status lines.
pub open spec fn max_scroll(total: int, height: int) -> int {
    let visible = if height >= 2 {
        height - 2
    } else {
        0
    };
    if total > visible {
        total - visible
    } else {
        0
    }
}

/// Scrolling `s` lines up, kept within a view of `total` lines on a
/// terminal `height` lines high.
pub open spec fn clamp_scroll(s: int, total: int, height: int) -> int {
    let m = max_scroll(total, height);
    if s < m {
        s
    } else {
        m
    }
}

/// A line of command output as shown: marked unless blank.
pub open spec fn marked_line(l: Seq<char>) -> Seq<char> {
    if is_blank(l) {
        l
    } else {
        history_mark() + l
    }
}

/// A prefix of the texts takes no more lines than all of them.
pub proof fn lemma_chat_lines_prefix(msgs: Seq<(i64, String)>, i: int)
    requires
        0 <= i <= msgs.len(),
    ensures
        chat_lines_total(msgs.take(i)) <= chat_lines_total(msgs),
    decreases msgs.len() - i,
{
    if i < msgs.len() {
        lemma_chat_lines_prefix(msgs, i + 1);
        assert(msgs.take(i + 1).drop_last() =~= msgs.take(i));
    } else {
        assert(msgs.take(i) =~= msgs);
    }
}

/// No two entries show messages with the same id.
pub open spec fn distinct_ids(entries: Seq<ChatMessageEntry>) -> bool {
    forall|i: int, j: int|
        0 <= i < j < entries.len() ==> (#[trigger] entries[i]).message.id != (#[trigger] entries[j]).message.id
}

impl UIState {
    /// How many lines the chat view has: one per message, and the lines of the
    /// other texts.
    pub open spec fn total_chat_items(&self) -> nat {
        self.messages@.len() + chat_lines_total(self.chat_messages@)
    }

    /// Only the chat scrolling may differ in `other`.
    pub open spec fn same_but_chat_scroll(&self, other: &UIState) -> bool {
        &&& other.mode == self.mode
        &&& other.last_log_mode == self.last_log_mode
        &&& self.same_content(other)
        &&& other.log_scroll_offset == self.log_scroll_offset
        &&& other.is_at_bottom_log == self.is_at_bottom_log
    }

    /// The chat scrolling after something new arrived that takes `added`
    /// lines: stay at the bottom, or keep the same lines in sight.
    pub open spec fn chat_scroll_after(&self, added: int, total: int) -> (usize, bool) {
        if self.mode is Chat {
            if self.is_at_bottom_chat {
                (0, true)
            } else {
                let s = if self.scroll_offset + added > usize::MAX {
                    usize::MAX as int
                } else {
                    self.scroll_offset + added
                };
                let m = max_scroll(total, self.terminal_size.1 as int);
                let s2 = if s < m {
                    s
                } else {
                    m
                };
                (s2 as usize, s2 == 0)
            }
        } else {
            (self.scroll_offset, self.is_at_bottom_chat)
        }
    }

    /// How many lines the chat view has.
    pub fn calculate_total_chat_items(&self) -> (n: usize)
        requires
            self.total_chat_items() <= usize::MAX,
        ensures
            n == self.total_chat_items(),
    {
        let mut sum: usize = 0;
        let mut i: usize = 0;
        while i < self.chat_messages.len()
            invariant
                i <= self.chat_messages.len(),
                sum == chat_lines_total(self.chat_messages@.take(i as int)),
                self.messages@.len() + chat_lines_total(self.chat_messages@) <= usize::MAX,
            decreases self.chat_messages.len() - i,
        {
            proof {
                assert(self.chat_messages@.take(i + 1).drop_last() =~= self.chat_messages@.take(i as int));
                lemma_chat_lines_prefix(self.chat_messages@, i + 1);
            }
            let n = count_lines(self.chat_messages[i].1.as_str());
            sum = sum + n;
            i += 1;
        }
        proof {
            assert(self.chat_messages@.take(i as int) =~= self.chat_messages@);
        }
        self.messages.len() + sum
    }

    /// Keeps the chat scrolling within the view for a terminal
    /// `terminal_height` lines high; the view is at its bottom when not
    /// scrolled.
    pub fn update_chat_scroll_state(&mut self, terminal_height: usize)
        requires
            old(self).total_chat_items() <= usize::MAX,
        ensures
            final(self).scroll_offset == (if old(self).scroll_offset < max_scroll(
                old(self).total_chat_items() as int,
                terminal_height as int,
            ) {
                old(self).scroll_offset as int
            } else {
                max_scroll(old(self).total_chat_items() as int, terminal_height as int)
            }),
            final(self).is_at_bottom_chat == (final(self).scroll_offset == 0),
            old(self).same_but_chat_scroll(&*final(self)),
    {
        let total = self.calculate_total_chat_items();
        let visible = terminal_height.saturating_sub(2);
        let max = if total > visible {
            total - visible
        } else {
            0
        };
        if self.scroll_offset > max {
            self.scroll_offset = max;
        }
        self.is_at_bottom_chat = self.scroll_offset == 0;
    }

    /// Goes to the bottom of the chat view.
    pub fn jump_to_bottom_chat(&mut self)
        ensures
            final(self).scroll_offset == 0,
            final(self).is_at_bottom_chat,
            old(self).same_but_chat_scroll(&*final(self)),
    {
        self.scroll_offset = 0;
        self.is_at_bottom_chat = true;
    }

    /// Moves the chat scrolling after something new that takes `added` lines
    /// arrived.
    fn follow_new_chat_lines(&mut self, added: usize)
        requires
            old(self).total_chat_items() <= usize::MAX,
        ensures
            (final(self).scroll_offset, final(self).is_at_bottom_chat) == old(self).chat_scroll_after(
                added as int,
                old(self).total_chat_items() as int,
            ),
            old(self).same_but_chat_scroll(&*final(self)),
    {
        if self.mode.is_chat() {
            if self.is_at_bottom_chat {
                self.scroll_offset = 0;
            } else {
                self.scroll_offset = self.scroll_offset.saturating_add(added);
                let h = self.terminal_size.1 as usize;
                self.update_chat_scroll_state(h);
            }
        }
    }

    /// Shows `message` as arrived at clock reading `now`, unless a message
    /// with its id is shown already; the chat view follows it if it was at its
    /// bottom.
    pub fn add_message_at(&mut self, message: Message, now: i64)
        requires
            old(self).total_chat_items() < usize::MAX,
        ensures
            distinct_ids(old(self).messages@) ==> distinct_ids(final(self).messages@),
            (exists|i: int| 0 <= i < old(self).messages@.len() && (#[trigger] old(self).messages@[i]).message.id == message.id)
                ==> *final(self) == *old(self),
            !(exists|i: int| 0 <= i < old(self).messages@.len() && (#[trigger] old(self).messages@[i]).message.id == message.id)
                ==> {
                &&& final(self).messages@ == old(self).messages@.push(ChatMessageEntry { message, received_at: now })
                &&& (final(self).scroll_offset, final(self).is_at_bottom_chat) == old(self).chat_scroll_after(
                    1,
                    (old(self).total_chat_items() + 1) as int,
                )
                &&& final(self).mode == old(self).mode
                &&& final(self).chat_messages == old(self).chat_messages
                &&& final(self).logs == old(self).logs
                &&& final(self).input_buffer == old(self).input_buffer
                &&& final(self).cursor_pos == old(self).cursor_pos
                &&& final(self).log_scroll_offset == old(self).log_scroll_offset
            },
    {
        if self.contains_message(message.id) {
            return;
        }
        self.messages.push(ChatMessageEntry { message, received_at: now });
        self.follow_new_chat_lines(1);
    }

    /// Shows `message` as arrived now, unless a message with its id is shown
    /// already.
    pub fn add_message(&mut self, message: Message)
        requires
            old(self).total_chat_items() < usize::MAX,
        ensures
            distinct_ids(old(self).messages@) ==> distinct_ids(final(self).messages@),
            (exists|i: int| 0 <= i < old(self).messages@.len() && (#[trigger] old(self).messages@[i]).message.id == message.id)
                ==> *final(self) == *old(self),
            !(exists|i: int| 0 <= i < old(self).messages@.len() && (#[trigger] old(self).messages@[i]).message.id == message.id)
                ==> {
                &&& final(self).messages@ == old(self).messages@.push(
                    ChatMessageEntry { message, received_at: final(self).messages@.last().received_at },
                )
                &&& (final(self).scroll_offset, final(self).is_at_bottom_chat) == old(self).chat_scroll_after(
                    1,
                    (old(self).total_chat_items() + 1) as int,
                )
                &&& final(self).mode == old(self).mode
                &&& final(self).chat_messages == old(self).chat_messages
                &&& final(self).logs == old(self).logs
                &&& final(self).input_buffer == old(self).input_buffer
                &&& final(self).cursor_pos == old(self).cursor_pos
            },
    {
        let now = utc_now_millis();
        self.add_message_at(message, now);
    }

    /// Shows the text `message` as arrived at clock reading `now`; the chat
    /// view follows it if it was at its bottom.
    pub fn add_chat_message_at(&mut self, message: String, now: i64)
        requires
            old(self).total_chat_items() + text_lines(message@).len() <= usize::MAX,
        ensures
            final(self).chat_messages@ == old(self).chat_messages@.push((now, message)),
            (final(self).scroll_offset, final(self).is_at_bottom_chat) == old(self).chat_scroll_after(
                text_lines(message@).len() as int,
                (old(self).total_chat_items() + text_lines(message@).len()) as int,
            ),
            final(self).mode == old(self).mode,
            final(self).messages == old(self).messages,
            final(self).logs == old(self).logs,
            final(self).input_buffer == old(self).input_buffer,
            final(self).cursor_pos == old(self).cursor_pos,
            final(self).log_scroll_offset == old(self).log_scroll_offset,
    {
        let line_count = count_lines(message.as_str());
        let ghost m = message;
        self.chat_messages.push((now, message));
        proof {
            assert(self.chat_messages@.drop_last() =~= old(self).chat_messages@);
        }
        self.follow_new_chat_lines(line_count);
    }

    /// Shows the text `message` as arrived now.
    pub fn add_chat_message(&mut self, message: String)
        requires
            old(self).total_chat_items() + text_lines(message@).len() <= usize::MAX,
        ensures
            final(self).chat_messages@ == old(self).chat_messages@.push(
                (final(self).chat_messages@.last().0, message),
            ),
            (final(self).scroll_offset, final(self).is_at_bottom_chat) == old(self).chat_scroll_after(
                text_lines(message@).len() as int,
                (old(self).total_chat_items() + text_lines(message@).len()) as int,
            ),
            final(self).mode == old(self).mode,
            final(self).messages == old(self).messages,
            final(self).logs == old(self).logs,
            final(self).input_buffer == old(self).input_buffer,
            final(self).cursor_pos == old(self).cursor_pos,
    {
        let now = utc_now_millis();
        self.add_chat_message_at(message, now);
    }

    /// Shows the output of a command, line by line as arrived now, each line
    /// that is not blank marked as command output.
    pub fn add_history_output(&mut self, message: String)
        requires
            old(self).total_chat_items() + text_lines(message@).len() <= usize::MAX,
        ensures
            final(self).chat_messages@.len() == old(self).chat_messages@.len() + text_lines(message@).len(),
            final(self).chat_messages@.take(old(self).chat_messages@.len() as int) == old(self).chat_messages@,
            forall|i: int|
                0 <= i < text_lines(message@).len() ==> {
                    let e = #[trigger] final(self).chat_messages@[old(self).chat_messages@.len() + i];
                    e.0 == final(self).chat_messages@[old(self).chat_messages@.len() as int].0 && e.1@
                        == marked_line(text_lines(message@)[i])
                },
            (final(self).scroll_offset, final(self).is_at_bottom_chat) == old(self).chat_scroll_after(
                text_lines(message@).len() as int,
                final(self).total_chat_items() as int,
            ),
            final(self).mode == old(self).mode,
            final(self).messages == old(self).messages,
            final(self).logs == old(self).logs,
            final(self).input_buffer == old(self).input_buffer,
            final(self).cursor_pos == old(self).cursor_pos,
    {
        let now = utc_now_millis();
        let ghost lines = text_lines(message@);
        self.add_history_output_at(message, now);
        proof {
            if lines.len() > 0 {
                let e0 = self.chat_messages@[old(self).chat_messages@.len() + 0int];
                assert(e0.0 == now);
            }
        }
    }

    /// Shows the output of a command, line by line at clock reading `now`,
    /// each line that is not blank marked as command output; the chat view
    /// follows it if it was at its bottom.
    pub fn add_history_output_at(&mut self, message: String, now: i64)
        requires
            old(self).total_chat_items() + text_lines(message@).len() <= usize::MAX,
        ensures
            final(self).chat_messages@.len() == old(self).chat_messages@.len() + text_lines(message@).len(),
            final(self).chat_messages@.take(old(self).chat_messages@.len() as int) == old(self).chat_messages@,
            forall|i: int|
                0 <= i < text_lines(message@).len() ==> {
                    let e = #[trigger] final(self).chat_messages@[old(self).chat_messages@.len() + i];
                    e.0 == now && e.1@ == marked_line(text_lines(message@)[i])
                },
            (final(self).scroll_offset, final(self).is_at_bottom_chat) == old(self).chat_scroll_after(
                text_lines(message@).len() as int,
                final(self).total_chat_items() as int,
            ),
            final(self).mode == old(self).mode,
            final(self).messages == old(self).messages,
            final(self).logs == old(self).logs,
            final(self).input_buffer == old(self).input_buffer,
            final(self).cursor_pos == old(self).cursor_pos,
    {
        let chars = chars_of(message.as_str());
        let lines = lines_of(&chars);
        let mark = chars_of("__HISTORY_OUTPUT__");
        let ghost ls = text_lines(message@);
        let ghost n0 = self.chat_messages@.len();
        let mut i: usize = 0;
        while i < lines.len()
            invariant
                ls == text_lines(message@),
                mark@ == history_mark(),
                crate::ui::text::char_views(lines@) == ls,
                n0 == old(self).chat_messages@.len(),
                i <= lines.len(),
                self.chat_messages@.len() == n0 + i,
                self.chat_messages@.take(n0 as int) == old(self).chat_messages@,
                chat_lines_total(self.chat_messages@) <= chat_lines_total(old(self).chat_messages@) + i,
                old(self).total_chat_items() + ls.len() <= usize::MAX,
                forall|k: int|
                    0 <= k < i ==> {
                        let e = #[trigger] self.chat_messages@[n0 + k];
                        e.0 == now && e.1@ == marked_line(ls[k])
                    },
                self.messages == old(self).messages,
                self.mode == old(self).mode,
                self.logs == old(self).logs,
                self.input_buffer == old(self).input_buffer,
                self.cursor_pos == old(self).cursor_pos,
                self.scroll_offset == old(self).scroll_offset,
                self.is_at_bottom_chat == old(self).is_at_bottom_chat,
                self.terminal_size == old(self).terminal_size,
                self.last_log_mode == old(self).last_log_mode,
                self.log_scroll_offset == old(self).log_scroll_offset,
                self.is_at_bottom_log == old(self).is_at_bottom_log,
                self.max_log_entries == old(self).max_log_entries,
                self.connected_peers_count == old(self).connected_peers_count,
                self.horizontal_scroll_offset == old(self).horizontal_scroll_offset,
            decreases lines.len() - i,
        {
            assert(lines@[i as int]@ == ls[i as int]);
            let text = if blank(&lines[i]) {
                string_from_chars(&lines[i])
            } else {
                let mut marked: Vec<char> = Vec::new();
                let mut j: usize = 0;
                while j < mark.len()
                    invariant
                        j <= mark.len(),
                        marked@ == mark@.take(j as int),
                    decreases mark.len() - j,
                {
                    marked.push(mark[j]);
                    assert(marked@ =~= mark@.take(j + 1));
                    j += 1;
                }
                let mut k: usize = 0;
                while k < lines[i].len()
                    invariant
                        i < lines.len(),
                        j == mark.len(),
                        k <= lines@[i as int].len(),
                        marked@ == mark@.take(j as int) + lines@[i as int]@.take(k as int),
                    decreases lines@[i as int].len() - k,
                {
                    marked.push(lines[i][k]);
                    assert(marked@ =~= mark@.take(j as int) + lines@[i as int]@.take(k + 1));
                    k += 1;
                }
                assert(marked@ =~= mark@ + lines@[i as int]@);
                string_from_chars(&marked)
            };
            proof {
                crate::ui::text::lemma_lines_no_newline(message@);
                assert(crate::ui::text::no_newline(ls[i as int]));
                assert(crate::ui::text::no_newline(text@)) by {
                    if !is_blank(ls[i as int]) {
                        assert forall|t: int| 0 <= t < text@.len() implies #[trigger] text@[t] != '\n' by {
                            if t >= history_mark().len() {
                                assert(text@[t] == ls[i as int][t - history_mark().len()]);
                            } else {
                                reveal_strlit("__HISTORY_OUTPUT__");
                            }
                        }
                    }
                }
                crate::ui::text::lemma_one_line(text@);
            }
            let ghost before = self.chat_messages@;
            self.chat_messages.push((now, text));
            proof {
                assert(self.chat_messages@.take(n0 as int) =~= old(self).chat_messages@);
                assert(self.chat_messages@.drop_last() =~= before);
            }
            i += 1;
        }
        self.follow_new_chat_lines(lines.len());
    }
}

} // verus!
