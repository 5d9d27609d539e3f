//! Log mode: typing commands that set the level and filter of the log view,
//! clear it or keep its tail, walking back through earlier commands, and
//! scrolling the logs.
use vstd::prelude::*;

use super::keys::{next_history_index, step_history_index, Key, KeyPress};
use super::mode::{LogLevel, UIMode};
use super::state::chat::clamp_scroll;
use super::state::input::{after_backspace, after_delete, after_insert};
use super::state::UIState;
use super::view::level_column;
use super::text::{
    blank, char_views, chars_of, is_blank, join_words, join_words_from, lowercase, lowercase_chars,
    parse_usize, parsed_usize, same_chars, split_words, string_from_chars, string_views, words,
};

verus! {

/// The level named by `w`, if it names one.
pub open spec fn level_named(w: Seq<char>) -> Option<LogLevel> {
    if w == "trace"@ {
        Some(LogLevel::Trace)
    } else if w == "debug"@ {
        Some(LogLevel::Debug)
    } else if w == "info"@ {
        Some(LogLevel::Info)
    } else if w == "warn"@ {
        Some(LogLevel::Warn)
    } else if w == "error"@ {
        Some(LogLevel::Error)
    } else {
        None
    }
}

/// The mode after the log command `parts` in mode `mode`, for every command
/// but a filter with text: in log mode, `level` sets the level it names and
/// a bare `filter` clears the filter.
pub open spec fn mode_after_command(mode: UIMode, parts: Seq<Seq<char>>) -> UIMode {
    match mode {
        UIMode::Logs { filter, level } => if parts.len() >= 2 && parts[0] == "level"@ {
            match level_named(lowercase(parts[1])) {
                Some(l) => UIMode::Logs { filter, level: l },
                None => mode,
            }
        } else if parts.len() == 1 && parts[0] == "filter"@ {
            UIMode::Logs { filter: None, level }
        } else {
            mode
        },
        UIMode::Chat => mode,
    }
}

/// `new` is log mode `old` with its filter set to `text`, keeping its level.
pub open spec fn filter_set(old: UIMode, new: UIMode, text: Seq<char>) -> bool {
    match (old, new) {
        (UIMode::Logs { level: l0, .. }, UIMode::Logs { filter: Some(f), level }) => f@ == text && level == l0,
        _ => false,
    }
}

/// Which log entries are left after `tail` with the count `n`: the last `n`.
pub open spec fn tail_kept(len: nat, n: usize) -> nat {
    if n < len {
        n as nat
    } else {
        len
    }
}

/// What the log command `input` does to the state `before`, giving
/// `after`: `level <name>` sets the level, `filter <text>` sets the filter
/// and `filter` alone clears it (both in log mode only), `clear` empties the
/// logs, `tail <n>` keeps the last `n` entries; the other commands change
/// neither the mode nor the logs. The chat, the other scrolling, the mode
/// kept for returning to the logs and the peer count stay.
pub open spec fn log_command_effect(before: UIState, after: UIState, input: Seq<char>) -> bool {
    let parts = split_words(input);
    &&& parts.len() >= 2 && parts[0] == "filter"@ && before.mode is Logs ==> filter_set(
        before.mode,
        after.mode,
        join_words(parts.subrange(1, parts.len() as int)),
    )
    &&& parts.len() >= 2 && parts[0] == "filter"@ && before.mode is Chat ==> after.mode == before.mode
    &&& !(parts.len() >= 2 && parts[0] == "filter"@) ==> after.mode == mode_after_command(before.mode, parts)
    &&& parts.len() >= 1 && parts[0] == "clear"@ ==> after.logs@.len() == 0 && after.log_scroll_offset == 0
    &&& parts.len() >= 2 && parts[0] == "tail"@ ==> match parsed_usize(parts[1]) {
        Some(n) => {
            let keep = tail_kept(before.logs@.len(), n);
            &&& after.logs@ == before.logs@.subrange(before.logs@.len() - keep, before.logs@.len() as int)
            &&& after.log_scroll_offset == 0
        },
        None => after.logs == before.logs && after.log_scroll_offset == before.log_scroll_offset,
    }
    &&& !(parts.len() >= 1 && parts[0] == "clear"@) && !(parts.len() >= 2 && parts[0] == "tail"@)
        ==> after.logs == before.logs && after.log_scroll_offset == before.log_scroll_offset
    &&& after.messages == before.messages
    &&& after.chat_messages == before.chat_messages
    &&& after.last_log_mode == before.last_log_mode
    &&& after.scroll_offset == before.scroll_offset
    &&& after.horizontal_scroll_offset == before.horizontal_scroll_offset
    &&& after.is_at_bottom_chat == before.is_at_bottom_chat
    &&& after.is_at_bottom_log == before.is_at_bottom_log
    &&& after.connected_peers_count == before.connected_peers_count
    &&& after.max_log_entries == before.max_log_entries
    &&& after.terminal_size == before.terminal_size
}

/// Log mode.
pub struct LogMode {
    input_history: Vec<String>,
    history_index: Option<usize>,
}

impl LogMode {
    /// The commands entered, oldest first.
    pub closed spec fn history(&self) -> Seq<Seq<char>> {
        string_views(self.input_history@)
    }

    /// Where the walk through the history is, if walking.
    pub closed spec fn index(&self) -> Option<usize> {
        self.history_index
    }

    /// The walk through the history is within it.
    pub closed spec fn wf(&self) -> bool {
        self.history_index matches Some(i) ==> i < self.input_history.len()
    }

    /// Log mode with no history.
    pub fn new() -> (m: Self)
        ensures
            m.wf(),
            m.history().len() == 0,
            m.index() is None,
    {
        let m = LogMode { input_history: Vec::new(), history_index: None };
        assert(m.history() =~= Seq::<Seq<char>>::empty());
        m
    }

    /// Runs the log command `input` on `state`: `level <name>` sets the level,
    /// `filter <text>` sets the filter and `filter` alone clears it (both in
    /// log mode only), `clear` empties the logs, `tail <n>` keeps the last `n`
    /// entries; the other commands change nothing.
    pub fn execute_log_command(&self, input: &str, state: &mut UIState)
        ensures
            log_command_effect(*old(state), *final(state), input@),
            final(state).input_buffer == old(state).input_buffer,
            final(state).cursor_pos == old(state).cursor_pos,
    {
        let chars = chars_of(input);
        let parts = words(&chars);
        if parts.len() == 0 {
            return;
        }
        proof {
            assert(char_views(parts@)[0] == parts@[0]@);
            reveal_strlit("level");
            reveal_strlit("filter");
            reveal_strlit("clear");
            reveal_strlit("tail");
            assert("level"@[0] != "clear"@[0]);
        }
        let level_word = chars_of("level");
        let filter_word = chars_of("filter");
        let clear_word = chars_of("clear");
        let tail_word = chars_of("tail");
        if same_chars(&parts[0], &level_word) {
            if parts.len() >= 2 {
                proof {
                    assert(char_views(parts@)[1] == parts@[1]@);
                }
                let name = lowercase_chars(&parts[1]);
                let named = if same_chars(&name, &chars_of("trace")) {
                    Some(LogLevel::Trace)
                } else if same_chars(&name, &chars_of("debug")) {
                    Some(LogLevel::Debug)
                } else if same_chars(&name, &chars_of("info")) {
                    Some(LogLevel::Info)
                } else if same_chars(&name, &chars_of("warn")) {
                    Some(LogLevel::Warn)
                } else if same_chars(&name, &chars_of("error")) {
                    Some(LogLevel::Error)
                } else {
                    None
                };
                match named {
                    Some(l) => {
                        let next = match &state.mode {
                            UIMode::Logs { filter, .. } => Some(
                                UIMode::Logs { filter: super::mode::copy_filter(filter), level: l },
                            ),
                            UIMode::Chat => None,
                        };
                        match next {
                            Some(m) => {
                                state.mode = m;
                            },
                            None => {},
                        }
                    },
                    None => {},
                }
            }
        } else if same_chars(&parts[0], &filter_word) {
            if parts.len() >= 2 {
                let text = string_from_chars(&join_words_from(&parts, 1));
                let next = match &state.mode {
                    UIMode::Logs { level, .. } => Some(UIMode::Logs { filter: Some(text), level: *level }),
                    UIMode::Chat => None,
                };
                match next {
                    Some(m) => {
                        state.mode = m;
                    },
                    None => {},
                }
            } else {
                let next = match &state.mode {
                    UIMode::Logs { level, .. } => Some(UIMode::Logs { filter: None, level: *level }),
                    UIMode::Chat => None,
                };
                match next {
                    Some(m) => {
                        state.mode = m;
                    },
                    None => {},
                }
            }
        } else if same_chars(&parts[0], &clear_word) {
            state.logs.clear();
            state.log_scroll_offset = 0;
        } else if same_chars(&parts[0], &tail_word) {
            if parts.len() >= 2 {
                proof {
                    assert(char_views(parts@)[1] == parts@[1]@);
                }
                match parse_usize(&parts[1]) {
                    Some(count) => {
                        let len = state.logs.len();
                        let keep = if count < len {
                            count
                        } else {
                            len
                        };
                        let remove = len - keep;
                        let ghost before = state.logs@;
                        let mut k: usize = 0;
                        while k < remove
                            invariant
                                k <= remove,
                                remove <= before.len(),
                                state.logs@ == before.subrange(k as int, before.len() as int),
                                state.messages == old(state).messages,
                                state.chat_messages == old(state).chat_messages,
                                state.input_buffer == old(state).input_buffer,
                                state.cursor_pos == old(state).cursor_pos,
                                state.scroll_offset == old(state).scroll_offset,
                                state.last_log_mode == old(state).last_log_mode,
                                state.horizontal_scroll_offset == old(state).horizontal_scroll_offset,
                                state.is_at_bottom_chat == old(state).is_at_bottom_chat,
                                state.connected_peers_count == old(state).connected_peers_count,
                                state.is_at_bottom_log == old(state).is_at_bottom_log,
                                state.max_log_entries == old(state).max_log_entries,
                                state.terminal_size == old(state).terminal_size,
                                state.mode == old(state).mode,
                            decreases remove - k,
                        {
                            state.logs.pop_front();
                            assert(state.logs@ =~= before.subrange(k + 1, before.len() as int));
                            k += 1;
                        }
                        state.log_scroll_offset = 0;
                    },
                    None => {},
                }
            }
        }
    }

    /// Walks the history up (older) or down (newer), showing the entry
    /// reached with the cursor at its end, or an empty line after the newest.
    fn navigate_history(&mut self, state: &mut UIState, up: bool)
        requires
            old(self).wf(),
        ensures
            final(self).wf(),
            old(self).history().len() == 0 ==> final(self).index() == old(self).index() && *final(state)
                == *old(state),
            old(self).history().len() > 0 ==> {
                &&& final(self).index() == next_history_index(old(self).history().len(), old(self).index(), up)
                &&& match final(self).index() {
                    Some(i) => final(state).input_buffer@ == old(self).history()[i as int]
                        && final(state).cursor_pos == old(self).history()[i as int].len(),
                    None => final(state).input_buffer@.len() == 0 && final(state).cursor_pos == 0,
                }
                &&& old(state).same_but_input(&*final(state))
            },
            final(self).history() == old(self).history(),
    {
        if self.input_history.len() == 0 {
            return;
        }
        let next = step_history_index(self.input_history.len(), self.history_index, up);
        self.history_index = next;
        match next {
            Some(i) => {
                proof {
                    assert(string_views(self.input_history@)[i as int] == self.input_history@[i as int]@);
                }
                state.set_input(self.input_history[i].clone());
            },
            None => {
                state.clear_input();
            },
        }
    }

    /// Handles a key press: editing the input line, walking the history with
    /// Control and the arrows, scrolling the logs, or entering the line, which
    /// runs it as a log command.
    pub fn handle_key(&mut self, state: &mut UIState, key: KeyPress)
        requires
            old(self).wf(),
            key.code is Char ==> old(state).cursor_pos < usize::MAX,
        ensures
            final(self).wf(),
            key.code is Enter ==> if is_blank(old(state).input_buffer@) {
                &&& *final(state) == *old(state)
                &&& final(self).history() == old(self).history()
            } else {
                &&& final(self).history() == old(self).history().push(old(state).input_buffer@)
                &&& final(self).index() is None
                &&& log_command_effect(*old(state), *final(state), old(state).input_buffer@)
                &&& final(state).input_buffer@.len() == 0
                &&& final(state).cursor_pos == 0
            },
            !(key.code is Enter) && !(key.code is Up && key.control) && !(key.code is Down && key.control)
                ==> final(self).history() == old(self).history(),
            match key.code {
                Key::Char(c) => {
                    &&& (final(state).input_buffer@, final(state).cursor_pos as int) == after_insert(
                        old(state).input_buffer@,
                        old(state).cursor_pos,
                        c,
                    )
                    &&& old(state).same_but_input(&*final(state))
                    &&& final(self).index() is None
                },
                Key::Backspace => {
                    &&& match after_backspace(old(state).input_buffer@, old(state).cursor_pos) {
                        Some((b, k)) => final(state).input_buffer@ == b && final(state).cursor_pos == k
                            && final(self).index() is None,
                        None => final(state).input_buffer == old(state).input_buffer && final(state).cursor_pos
                            == old(state).cursor_pos && final(self).index() == old(self).index(),
                    }
                    &&& old(state).same_but_input(&*final(state))
                },
                Key::Delete => {
                    &&& match after_delete(old(state).input_buffer@, old(state).cursor_pos) {
                        Some(b) => final(state).input_buffer@ == b,
                        None => final(state).input_buffer == old(state).input_buffer,
                    }
                    &&& final(state).cursor_pos == old(state).cursor_pos
                    &&& old(state).same_but_input(&*final(state))
                },
                Key::Left => {
                    &&& final(state).cursor_pos == (if old(state).cursor_pos > 0 {
                        old(state).cursor_pos - 1
                    } else {
                        0
                    })
                    &&& final(state).input_buffer == old(state).input_buffer
                    &&& old(state).same_but_input(&*final(state))
                },
                Key::Right => {
                    &&& final(state).cursor_pos == (if old(state).cursor_pos < old(state).input_buffer@.len() {
                        old(state).cursor_pos + 1
                    } else {
                        old(state).cursor_pos as int
                    })
                    &&& final(state).input_buffer == old(state).input_buffer
                    &&& old(state).same_but_input(&*final(state))
                },
                Key::Home => if key.control {
                    &&& final(state).horizontal_scroll_offset == (if old(state).horizontal_scroll_offset
                        >= 10 {
                        old(state).horizontal_scroll_offset - 10
                    } else {
                        0
                    })
                    &&& final(state).input_buffer == old(state).input_buffer
                    &&& final(state).cursor_pos == old(state).cursor_pos
                } else {
                    &&& final(state).cursor_pos == 0
                    &&& final(state).input_buffer == old(state).input_buffer
                    &&& old(state).same_but_input(&*final(state))
                },
                Key::End => if key.control {
                    &&& final(state).horizontal_scroll_offset == (if old(state).horizontal_scroll_offset
                        + 10 > usize::MAX {
                        usize::MAX as int
                    } else {
                        old(state).horizontal_scroll_offset + 10
                    })
                    &&& final(state).input_buffer == old(state).input_buffer
                    &&& final(state).cursor_pos == old(state).cursor_pos
                } else {
                    &&& final(state).cursor_pos == old(state).input_buffer@.len()
                    &&& final(state).input_buffer == old(state).input_buffer
                    &&& old(state).same_but_input(&*final(state))
                },
                Key::Up | Key::Down => if key.control {
                    &&& final(self).history() == old(self).history()
                    &&& old(self).history().len() == 0 ==> *final(state) == *old(state)
                    &&& old(self).history().len() > 0 ==> {
                        &&& final(self).index() == next_history_index(
                            old(self).history().len(),
                            old(self).index(),
                            key.code is Up,
                        )
                        &&& match final(self).index() {
                            Some(i) => final(state).input_buffer@ == old(self).history()[i as int]
                                && final(state).cursor_pos == old(self).history()[i as int].len(),
                            None => final(state).input_buffer@.len() == 0 && final(state).cursor_pos == 0,
                        }
                        &&& old(state).same_but_input(&*final(state))
                    }
                } else {
                    &&& final(state).log_scroll_offset == clamp_scroll(
                        if key.code is Up {
                            if old(state).log_scroll_offset + 1 > usize::MAX {
                                usize::MAX as int
                            } else {
                                old(state).log_scroll_offset + 1
                            }
                        } else if old(state).log_scroll_offset >= 1 {
                            old(state).log_scroll_offset - 1
                        } else {
                            0
                        },
                        old(state).spec_filtered_logs().len() as int,
                        old(state).terminal_size.1 as int,
                    )
                    &&& final(state).is_at_bottom_log == (final(state).log_scroll_offset == 0)
                    &&& old(state).same_but_log_scroll(&*final(state))
                },
                Key::PageUp | Key::PageDown => {
                    &&& final(state).log_scroll_offset == clamp_scroll(
                        if key.code is PageUp {
                            if old(state).log_scroll_offset + 10 > usize::MAX {
                                usize::MAX as int
                            } else {
                                old(state).log_scroll_offset + 10
                            }
                        } else if old(state).log_scroll_offset >= 10 {
                            old(state).log_scroll_offset - 10
                        } else {
                            0
                        },
                        old(state).spec_filtered_logs().len() as int,
                        old(state).terminal_size.1 as int,
                    )
                    &&& final(state).is_at_bottom_log == (final(state).log_scroll_offset == 0)
                    &&& old(state).same_but_log_scroll(&*final(state))
                },
                Key::Esc => {
                    &&& final(state).log_scroll_offset == 0
                    &&& final(state).is_at_bottom_log
                    &&& old(state).same_but_log_scroll(&*final(state))
                },
                Key::Tab | Key::Other => *final(state) == *old(state),
                Key::Enter => true,
            },
    {
        match key.code {
            Key::Enter => {
                let chars = chars_of(state.input_buffer.as_str());
                if !blank(&chars) {
                    let input = state.input_buffer.clone();
                    let ghost before = self.input_history@;
                    self.input_history.push(input.clone());
                    proof {
                        assert(string_views(self.input_history@) =~= string_views(before).push(input@));
                    }
                    self.history_index = None;
                    self.execute_log_command(input.as_str(), state);
                    state.clear_input();
                }
            },
            Key::Char(c) => {
                state.safe_insert_char(c);
                self.history_index = None;
            },
            Key::Backspace => {
                if state.safe_remove_char_before() {
                    self.history_index = None;
                }
            },
            Key::Delete => {
                state.safe_remove_char_at();
            },
            Key::Left => {
                state.safe_cursor_left();
            },
            Key::Right => {
                state.safe_cursor_right();
            },
            Key::Home => {
                if key.control {
                    state.horizontal_scroll_offset = state.horizontal_scroll_offset.saturating_sub(10);
                } else {
                    state.safe_cursor_home();
                }
            },
            Key::End => {
                if key.control {
                    state.horizontal_scroll_offset = state.horizontal_scroll_offset.saturating_add(10);
                } else {
                    state.safe_cursor_end();
                }
            },
            Key::Up => {
                if key.control {
                    self.navigate_history(state, true);
                } else {
                    state.log_scroll_offset = state.log_scroll_offset.saturating_add(1);
                    let h = state.terminal_size.1 as usize;
                    state.update_log_scroll_state(h);
                }
            },
            Key::Down => {
                if key.control {
                    self.navigate_history(state, false);
                } else {
                    state.log_scroll_offset = state.log_scroll_offset.saturating_sub(1);
                    let h = state.terminal_size.1 as usize;
                    state.update_log_scroll_state(h);
                }
            },
            Key::PageUp => {
                state.log_scroll_offset = state.log_scroll_offset.saturating_add(10);
                let h = state.terminal_size.1 as usize;
                state.update_log_scroll_state(h);
            },
            Key::PageDown => {
                state.log_scroll_offset = state.log_scroll_offset.saturating_sub(10);
                let h = state.terminal_size.1 as usize;
                state.update_log_scroll_state(h);
            },
            Key::Esc => {
                state.jump_to_bottom_log();
            },
            Key::Tab => {},
            Key::Other => {},
        }
    }
}

/// The log command `parts` has no effect in mode `mode`: no words, a word
/// that is no command (such as `help`), `level` without a level it knows or
/// outside log mode, `filter` outside log mode, or `tail` without a count.
pub open spec fn command_is_inert(mode: UIMode, parts: Seq<Seq<char>>) -> bool {
    ||| parts.len() == 0
    ||| parts[0] != "level"@ && parts[0] != "filter"@ && parts[0] != "clear"@ && parts[0] != "tail"@
    ||| parts[0] == "level"@ && (mode is Chat || parts.len() < 2 || level_named(lowercase(parts[1])) is None)
    ||| parts[0] == "filter"@ && mode is Chat
    ||| parts[0] == "tail"@ && (parts.len() < 2 || parsed_usize(parts[1]) is None)
}

/// A log command without effect leaves the whole state as it was.
pub proof fn law_inert_command_changes_nothing(before: UIState, after: UIState, input: Seq<char>)
    requires
        log_command_effect(before, after, input),
        command_is_inert(before.mode, split_words(input)),
        after.input_buffer == before.input_buffer,
        after.cursor_pos == before.cursor_pos,
    ensures
        after == before,
{
    reveal_strlit("filter");
    reveal_strlit("clear");
    reveal_strlit("tail");
    reveal_strlit("level");
    assert("level"@[0] != "clear"@[0]);
    assert("level"@[0] != "tail"@[0]);
    assert("level"@[0] != "filter"@[0]);
    assert("filter"@[0] != "clear"@[0]);
    assert("filter"@[0] != "tail"@[0]);
    assert("clear"@[0] != "tail"@[0]);
}

/// The upper-case form of an ASCII letter; other characters stay.
pub open spec fn ascii_upper(c: char) -> char {
    if 'a' <= c && c <= 'z' {
        ((c as u32) - 32) as char
    } else {
        c
    }
}

/// The name a level command takes is the level's column in the log view,
/// in lower case: `level <name>` selects the level whose column reads as the
/// name (padded with spaces), so different names select different levels.
pub proof fn law_level_names_match_their_column(w: Seq<char>, v: Seq<char>)
    ensures
        level_named(w) matches Some(l) ==> {
            &&& w.len() <= level_column(l).len()
            &&& forall|i: int| 0 <= i < w.len() ==> level_column(l)[i] == ascii_upper(w[i])
            &&& forall|i: int| w.len() <= i < level_column(l).len() ==> level_column(l)[i] == ' '
        },
        level_named(w) is Some && level_named(w) == level_named(v) ==> w == v,
{
    reveal_strlit("trace");
    reveal_strlit("debug");
    reveal_strlit("info");
    reveal_strlit("warn");
    reveal_strlit("error");
    reveal_strlit("TRACE");
    reveal_strlit("DEBUG");
    reveal_strlit("INFO ");
    reveal_strlit("WARN ");
    reveal_strlit("ERROR");
}

/// `tail <n>` keeps the newest `n` entries of the log, or all of them when it
/// has no more than `n`: the log left is a suffix of the old one, as long as
/// the smaller of `n` and the old length.
pub proof fn law_tail_keeps_the_newest(before: UIState, after: UIState, input: Seq<char>, n: usize)
    requires
        log_command_effect(before, after, input),
        split_words(input).len() >= 2,
        split_words(input)[0] == "tail"@,
        parsed_usize(split_words(input)[1]) == Some(n),
    ensures
        n >= before.logs@.len() ==> after.logs@ == before.logs@,
        n < before.logs@.len() ==> after.logs@.len() == n,
        after.logs@ == before.logs@.skip(before.logs@.len() - after.logs@.len()),
        after.log_scroll_offset == 0,
{
    reveal_strlit("tail");
    reveal_strlit("clear");
    assert("tail"@[0] != "clear"@[0]);
    let len = before.logs@.len();
    if n >= len {
        assert(before.logs@.subrange(0, len as int) =~= before.logs@);
    }
    assert(after.logs@.len() <= len);
    assert(before.logs@.skip(len - after.logs@.len()) =~= before.logs@.subrange(
        len - after.logs@.len(),
        len as int,
    ));
}

} // verus!
