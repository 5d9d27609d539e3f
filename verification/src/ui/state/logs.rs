//! What the log view shows, and how it scrolls.
use vstd::prelude::*;

use crate::ui::mode::{LogEntry, LogLevel, UIMode};
use crate::ui::text::{chars_of, contains_chars, has_substring};

use super::chat::max_scroll;
use super::UIState;

verus! {

/// Whether `e` is shown under `filter` and `level`: it is at `level` or more
/// important, and, when there is a filter, its module does not contain the
/// filter's text after a leading `-`, or else its module or its text contains
/// the filter.
pub open spec fn entry_shown(e: LogEntry, filter: Option<String>, level: LogLevel) -> bool {
    &&& e.level.rank() <= level.rank()
    &&& match filter {
        None => true,
        Some(f) => if f@.len() > 0 && f@[0] == '-' {
            !has_substring(e.module@, f@.drop_first())
        } else {
            has_substring(e.module@, f@) || has_substring(e.message@, f@)
        },
    }
}

/// The entries of `logs` shown under `filter` and `level`, in order.
pub open spec fn shown_entries(logs: Seq<LogEntry>, filter: Option<String>, level: LogLevel) -> Seq<LogEntry>
    decreases logs.len(),
{
    if logs.len() == 0 {
        Seq::empty()
    } else {
        let r = shown_entries(logs.drop_last(), filter, level);
        if entry_shown(logs.last(), filter, level) {
            r.push(logs.last())
        } else {
            r
        }
    }
}

/// `logs` after `e` arrives with room for `max` entries: the oldest entry
/// goes when the log is full.
pub open spec fn push_bounded(logs: Seq<LogEntry>, e: LogEntry, max: usize) -> Seq<LogEntry> {
    if logs.len() >= max && logs.len() > 0 {
        logs.drop_first().push(e)
    } else {
        logs.push(e)
    }
}

/// `logs` after `entries` arrive one by one with room for `max` entries.
pub open spec fn append_bounded(logs: Seq<LogEntry>, entries: Seq<LogEntry>, max: usize) -> Seq<LogEntry>
    decreases entries.len(),
{
    if entries.len() == 0 {
        logs
    } else {
        push_bounded(append_bounded(logs, entries.drop_last(), max), entries.last(), max)
    }
}

impl LogEntry {
    /// A copy of the entry.
    pub fn duplicate(&self) -> (r: LogEntry)
        ensures
            r == *self,
    {
        LogEntry {
            timestamp: self.timestamp,
            level: self.level,
            module: self.module.clone(),
            message: self.message.clone(),
        }
    }
}

/// Whether `e` is shown under `filter` and `level`.
pub fn is_entry_shown(e: &LogEntry, filter: &Option<String>, level: &LogLevel) -> (r: bool)
    ensures
        r == entry_shown(*e, *filter, *level),
{
    if !e.level.is_shown_at(level) {
        return false;
    }
    match filter {
        None => true,
        Some(f) => {
            let fc = chars_of(f.as_str());
            let module = chars_of(e.module.as_str());
            if fc.len() > 0 && fc[0] == '-' {
                let mut rest: Vec<char> = Vec::new();
                let mut i: usize = 1;
                while i < fc.len()
                    invariant
                        1 <= i <= fc.len(),
                        rest@ == fc@.subrange(1, i as int),
                    decreases fc.len() - i,
                {
                    rest.push(fc[i]);
                    assert(rest@ =~= fc@.subrange(1, i + 1));
                    i += 1;
                }
                assert(rest@ =~= fc@.drop_first());
                !contains_chars(&module, &rest)
            } else {
                let message = chars_of(e.message.as_str());
                contains_chars(&module, &fc) || contains_chars(&message, &fc)
            }
        },
    }
}

impl UIState {
    /// The log entries shown: in log mode those its filter and level let
    /// through, otherwise all.
    pub open spec fn spec_filtered_logs(&self) -> Seq<LogEntry> {
        match self.mode {
            UIMode::Logs { filter, level } => shown_entries(self.logs@, filter, level),
            UIMode::Chat => self.logs@,
        }
    }

    /// Only the log scrolling may differ in `other`.
    pub open spec fn same_but_log_scroll(&self, other: &UIState) -> bool {
        &&& other.mode == self.mode
        &&& other.last_log_mode == self.last_log_mode
        &&& self.same_content(other)
        &&& other.scroll_offset == self.scroll_offset
        &&& other.is_at_bottom_chat == self.is_at_bottom_chat
    }

    /// The log entries shown, oldest first.
    pub fn filtered_logs(&self) -> (r: Vec<LogEntry>)
        ensures
            r@ == self.spec_filtered_logs(),
    {
        let mut out: Vec<LogEntry> = Vec::new();
        let mut i: usize = 0;
        while i < self.logs.len()
            invariant
                i <= self.logs@.len(),
                out@ == match self.mode {
                    UIMode::Logs { filter, level } => shown_entries(self.logs@.take(i as int), filter, level),
                    UIMode::Chat => self.logs@.take(i as int),
                },
            decreases self.logs@.len() - i,
        {
            proof {
                assert(self.logs@.take(i + 1).drop_last() =~= self.logs@.take(i as int));
            }
            let e = &self.logs[i];
            let keep = match &self.mode {
                UIMode::Logs { filter, level } => is_entry_shown(e, filter, level),
                UIMode::Chat => true,
            };
            if keep {
                out.push(e.duplicate());
            }
            proof {
                if self.mode is Chat {
                    assert(out@ =~= self.logs@.take(i + 1));
                }
            }
            i += 1;
        }
        proof {
            assert(self.logs@.take(i as int) =~= self.logs@);
        }
        out
    }

    /// Keeps the log scrolling within the view for a terminal
    /// `terminal_height` lines high; the view is at its bottom when not
    /// scrolled.
    pub fn update_log_scroll_state(&mut self, terminal_height: usize)
        ensures
            final(self).log_scroll_offset == (if old(self).log_scroll_offset < max_scroll(
                old(self).spec_filtered_logs().len() as int,
                terminal_height as int,
            ) {
                old(self).log_scroll_offset as int
            } else {
                max_scroll(old(self).spec_filtered_logs().len() as int, terminal_height as int)
            }),
            final(self).is_at_bottom_log == (final(self).log_scroll_offset == 0),
            old(self).same_but_log_scroll(&*final(self)),
    {
        let total = self.filtered_logs().len();
        let visible = terminal_height.saturating_sub(2);
        let max = if total > visible {
            total - visible
        } else {
            0
        };
        if self.log_scroll_offset > max {
            self.log_scroll_offset = max;
        }
        self.is_at_bottom_log = self.log_scroll_offset == 0;
    }

    /// Goes to the bottom of the log view.
    pub fn jump_to_bottom_log(&mut self)
        ensures
            final(self).log_scroll_offset == 0,
            final(self).is_at_bottom_log,
            old(self).same_but_log_scroll(&*final(self)),
    {
        self.log_scroll_offset = 0;
        self.is_at_bottom_log = true;
    }

    /// Goes to the bottom of the log view when in log mode.
    pub fn refresh_logs(&mut self)
        ensures
            old(self).mode is Logs ==> final(self).log_scroll_offset == 0 && final(self).is_at_bottom_log,
            old(self).mode is Chat ==> *final(self) == *old(self),
            old(self).same_but_log_scroll(&*final(self)),
    {
        if !self.mode.is_chat() {
            self.log_scroll_offset = 0;
            self.is_at_bottom_log = true;
        }
    }

    /// Adds `entries` to the logs one by one, the oldest entry going when
    /// the log is full; in log mode the view follows them if it was at its
    /// bottom, and otherwise keeps the same entries in sight.
    pub fn add_log_batch(&mut self, entries: Vec<LogEntry>)
        ensures
            final(self).logs@ == append_bounded(old(self).logs@, entries@, old(self).max_log_entries),
            old(self).mode is Logs && old(self).is_at_bottom_log ==> final(self).log_scroll_offset == 0,
            old(self).mode is Chat ==> final(self).log_scroll_offset == old(self).log_scroll_offset
                && final(self).is_at_bottom_log == old(self).is_at_bottom_log,
            final(self).mode == old(self).mode,
            final(self).messages == old(self).messages,
            final(self).chat_messages == old(self).chat_messages,
            final(self).input_buffer == old(self).input_buffer,
            final(self).cursor_pos == old(self).cursor_pos,
            final(self).scroll_offset == old(self).scroll_offset,
            final(self).max_log_entries == old(self).max_log_entries,
    {
        let n = entries.len();
        let mut i: usize = 0;
        while i < entries.len()
            invariant
                i <= entries.len(),
                self.logs@ == append_bounded(old(self).logs@, entries@.take(i as int), old(self).max_log_entries),
                self.max_log_entries == old(self).max_log_entries,
                self.mode == old(self).mode,
                self.messages == old(self).messages,
                self.chat_messages == old(self).chat_messages,
                self.input_buffer == old(self).input_buffer,
                self.cursor_pos == old(self).cursor_pos,
                self.scroll_offset == old(self).scroll_offset,
                self.log_scroll_offset == old(self).log_scroll_offset,
                self.is_at_bottom_log == old(self).is_at_bottom_log,
            decreases entries.len() - i,
        {
            proof {
                assert(entries@.take(i + 1).drop_last() =~= entries@.take(i as int));
            }
            let ghost before = self.logs@;
            if self.logs.len() >= self.max_log_entries {
                self.logs.pop_front();
            }
            self.logs.push_back(entries[i].duplicate());
            proof {
                if before.len() >= self.max_log_entries && before.len() > 0 {
                    assert(self.logs@ =~= before.drop_first().push(entries@[i as int]));
                } else {
                    assert(self.logs@ =~= before.push(entries@[i as int]));
                }
            }
            i += 1;
        }
        proof {
            assert(entries@.take(i as int) =~= entries@);
        }
        if !self.mode.is_chat() {
            if self.is_at_bottom_log {
                self.log_scroll_offset = 0;
            } else {
                self.log_scroll_offset = self.log_scroll_offset.saturating_add(n);
                let h = self.terminal_size.1 as usize;
                self.update_log_scroll_state(h);
            }
        }
    }
}

/// The log never holds more than its limit once it is within it: each entry
/// that arrives into a full log pushes out the oldest.
pub proof fn law_log_stays_within_limit(logs: Seq<LogEntry>, entries: Seq<LogEntry>, max: usize)
    requires
        max >= 1,
        logs.len() <= max,
    ensures
        append_bounded(logs, entries, max).len() <= max,
        append_bounded(logs, entries, max).len() == if logs.len() + entries.len() <= max {
            (logs.len() + entries.len()) as int
        } else {
            max as int
        },
    decreases entries.len(),
{
    if entries.len() > 0 {
        law_log_stays_within_limit(logs, entries.drop_last(), max);
    }
}

/// The log after a batch, at once: the newest `min(max, |logs| + |entries|)`
/// of the old entries followed by the new ones, in order.
pub proof fn law_batch_keeps_the_newest(logs: Seq<LogEntry>, entries: Seq<LogEntry>, max: usize)
    requires
        max >= 1,
        logs.len() <= max,
    ensures
        ({
            let all = logs + entries;
            let kept: int = if all.len() <= max {
                all.len() as int
            } else {
                max as int
            };
            append_bounded(logs, entries, max) == all.skip(all.len() - kept)
        }),
    decreases entries.len(),
{
    let all = logs + entries;
    let kept: int = if all.len() <= max {
        all.len() as int
    } else {
        max as int
    };
    if entries.len() == 0 {
        assert(all =~= logs);
        assert(all.skip(0) =~= logs);
    } else {
        let e0 = entries.drop_last();
        law_batch_keeps_the_newest(logs, e0, max);
        law_log_stays_within_limit(logs, e0, max);
        let all0 = logs + e0;
        let kept0: int = if all0.len() <= max {
            all0.len() as int
        } else {
            max as int
        };
        let a0 = append_bounded(logs, e0, max);
        assert(a0 == all0.skip(all0.len() - kept0));
        assert(all =~= all0.push(entries.last()));
        if a0.len() >= max && a0.len() > 0 {
            assert(a0.drop_first().push(entries.last()) =~= all.skip(all.len() - kept));
        } else {
            assert(a0.push(entries.last()) =~= all.skip(all.len() - kept));
        }
    }
}

/// The newest entry that arrived is the last one in the log.
pub proof fn law_newest_entry_last(logs: Seq<LogEntry>, entries: Seq<LogEntry>, max: usize)
    requires
        entries.len() > 0,
    ensures
        append_bounded(logs, entries, max).last() == entries.last(),
{
}

} // verus!
