//! Chat mode: typing with completion, walking back through earlier input,
//! scrolling the chat, and turning an entered line into an action.
use vstd::prelude::*;

use super::state::chat::clamp_scroll;
use super::completers::ChatCompleter;
use super::keys::{step_history_index, next_history_index, Key, KeyPress};
use super::mode::{ActionView, UIAction};
use super::state::input::{after_backspace, after_delete, after_insert};
use super::state::UIState;
use super::text::{
    blank, chars_of, has_prefix, is_blank, join_words, join_words_from, same_chars, split_words,
    starts_with, string_from_chars, string_views, words, char_views,
};

verus! {

/// The action for an entered line: nothing for a blank line; for `send`, a
/// message to the second word made of the words after it, or nothing without
/// them; for anything else, the line as a command.
pub open spec fn command_action(input: Seq<char>) -> Option<ActionView> {
    let parts = split_words(input);
    if parts.len() == 0 {
        None
    } else if parts[0] == "send"@ {
        if parts.len() >= 3 {
            Some(ActionView::Send(parts[1], join_words(parts.subrange(2, parts.len() as int))))
        } else {
            None
        }
    } else {
        Some(ActionView::Execute(input))
    }
}

/// Chat mode.
pub struct ChatMode {
    input_history: Vec<String>,
    history_index: Option<usize>,
    completer: ChatCompleter,
    current_suggestion: Option<String>,
}

impl ChatMode {
    /// The lines entered, oldest first.
    pub closed spec fn history(&self) -> Seq<Seq<char>> {
        string_views(self.input_history@)
    }

    /// Where the walk through the history is, if walking.
    pub closed spec fn index(&self) -> Option<usize> {
        self.history_index
    }

    /// The completion offered for the input line, if any.
    pub closed spec fn suggestion(&self) -> Option<Seq<char>> {
        match self.current_suggestion {
            Some(s) => Some(s@),
            None => None,
        }
    }

    /// The completer.
    pub closed spec fn completer(&self) -> ChatCompleter {
        self.completer
    }

    /// The walk through the history is within it.
    pub closed spec fn wf(&self) -> bool {
        self.history_index matches Some(i) ==> i < self.input_history.len()
    }

    /// The completion offered for the line `buf` with the cursor at
    /// `cursor`: with the cursor at the end of a line that is not blank, the
    /// first completion, when it extends the line.
    pub open spec fn suggestion_for(&self, buf: Seq<char>, cursor: usize) -> Option<Seq<char>> {
        if cursor == buf.len() && !is_blank(buf) {
            let s = self.completer().spec_suggestions(buf);
            if s.len() > 0 && has_prefix(s[0], buf) && s[0] != buf {
                Some(s[0])
            } else {
                None
            }
        } else {
            None
        }
    }

    /// Chat mode with no history, no completion offered, and a completer
    /// without friends.
    pub fn new() -> (m: Self)
        ensures
            m.wf(),
            m.history().len() == 0,
            m.index() is None,
            m.suggestion() is None,
            m.completer().friends_view().len() == 0,
            m.completer().peers_view().len() == 0,
    {
        let m = ChatMode {
            input_history: Vec::new(),
            history_index: None,
            completer: ChatCompleter::new(Vec::new()),
            current_suggestion: None,
        };
        assert(m.history() =~= Seq::<Seq<char>>::empty());
        m
    }

    /// Gives the completer new friends.
    pub fn update_friends(&mut self, friends: Vec<String>)
        ensures
            final(self).completer().friends_view() == string_views(friends@),
            final(self).completer().commands_view() == old(self).completer().commands_view(),
            final(self).completer().peers_view() == old(self).completer().peers_view(),
            final(self).history() == old(self).history(),
            final(self).index() == old(self).index(),
            final(self).suggestion() == old(self).suggestion(),
            final(self).wf() == old(self).wf(),
    {
        self.completer.update_friends(friends);
    }

    /// Gives the completer new discovered peers.
    pub fn update_discovered_peers(&mut self, peers: Vec<String>)
        ensures
            final(self).completer().peers_view() == string_views(peers@),
            final(self).completer().commands_view() == old(self).completer().commands_view(),
            final(self).completer().friends_view() == old(self).completer().friends_view(),
            final(self).history() == old(self).history(),
            final(self).index() == old(self).index(),
            final(self).suggestion() == old(self).suggestion(),
            final(self).wf() == old(self).wf(),
    {
        self.completer.update_discovered_peers(peers);
    }

    /// The completion offered, if any.
    pub fn get_current_suggestion(&self) -> (r: Option<&str>)
        ensures
            r is Some <==> self.suggestion() is Some,
            r matches Some(s) ==> self.suggestion() == Some(s@),
    {
        match &self.current_suggestion {
            Some(s) => Some(s.as_str()),
            None => None,
        }
    }

    /// Offers the completion for the input line of `state`.
    fn update_suggestion(&mut self, state: &UIState)
        ensures
            final(self).suggestion() == old(self).suggestion_for(state.input_buffer@, state.cursor_pos),
            final(self).history() == old(self).history(),
            final(self).index() == old(self).index(),
            final(self).completer() == old(self).completer(),
            final(self).wf() == old(self).wf(),
    {
        let chars = chars_of(state.input_buffer.as_str());
        if state.cursor_pos == chars.len() && !blank(&chars) {
            let suggestions = self.completer.get_suggestions(state.input_buffer.as_str());
            if suggestions.len() > 0 {
                let first = chars_of(suggestions[0].as_str());
                proof {
                    assert(string_views(suggestions@)[0] == suggestions@[0]@);
                }
                if starts_with(&first, &chars) && !same_chars(&first, &chars) {
                    self.current_suggestion = Some(suggestions[0].clone());
                    return;
                }
            }
        }
        self.current_suggestion = None;
    }

    /// Walks the history up (older) or down (newer), showing the entry
    /// reached with the cursor at its end, or an empty line after the newest.
    fn navigate_history(&mut self, state: &mut UIState, up: bool)
        requires
            old(self).wf(),
        ensures
            final(self).wf(),
            old(self).history().len() == 0 ==> final(self).index() == old(self).index() && *final(state)
                == *old(state),
            old(self).history().len() > 0 ==> {
                &&& final(self).index() == next_history_index(old(self).history().len(), old(self).index(), up)
                &&& match final(self).index() {
                    Some(i) => final(state).input_buffer@ == old(self).history()[i as int]
                        && final(state).cursor_pos == old(self).history()[i as int].len(),
                    None => final(state).input_buffer@.len() == 0 && final(state).cursor_pos == 0,
                }
                &&& old(state).same_but_input(&*final(state))
            },
            final(self).history() == old(self).history(),
            final(self).suggestion() == old(self).suggestion(),
            final(self).completer() == old(self).completer(),
    {
        if self.input_history.len() == 0 {
            return;
        }
        let next = step_history_index(self.input_history.len(), self.history_index, up);
        self.history_index = next;
        match next {
            Some(i) => {
                proof {
                    assert(string_views(self.input_history@)[i as int] == self.input_history@[i as int]@);
                }
                state.set_input(self.input_history[i].clone());
            },
            None => {
                state.clear_input();
            },
        }
    }

    /// The action for the entered line `input`.
    pub fn execute_command(&self, input: &str) -> (r: Option<UIAction>)
        ensures
            r matches Some(a) ==> command_action(input@) == Some(a@),
            r is None ==> command_action(input@) is None,
    {
        let chars = chars_of(input);
        let parts = words(&chars);
        if parts.len() == 0 {
            return None;
        }
        proof {
            assert(char_views(parts@)[0] == parts@[0]@);
        }
        let send = chars_of("send");
        if same_chars(&parts[0], &send) {
            if parts.len() >= 3 {
                proof {
                    assert(char_views(parts@)[1] == parts@[1]@);
                }
                let to = string_from_chars(&parts[1]);
                let text = string_from_chars(&join_words_from(&parts, 2));
                return Some(UIAction::SendMessage(to, text));
            }
            return None;
        }
        Some(UIAction::ExecuteCommand(string_from_chars(&chars)))
    }

    /// Handles a key press: editing the input line, completing it, walking
    /// the history, scrolling the chat, or entering the line, which gives the
    /// action asked for.
    pub fn handle_key(&mut self, state: &mut UIState, key: KeyPress) -> (r: Option<UIAction>)
        requires
            old(self).wf(),
            key.code is Char ==> old(state).cursor_pos < usize::MAX,
            old(state).total_chat_items() <= usize::MAX,
        ensures
            final(self).wf(),
            final(self).completer() == old(self).completer(),
            key.code is Enter ==> if is_blank(old(state).input_buffer@) {
                &&& r is None
                &&& *final(state) == *old(state)
                &&& final(self).history() == old(self).history()
                &&& final(self).index() == old(self).index()
            } else {
                &&& r matches Some(a) ==> command_action(old(state).input_buffer@) == Some(a@)
                &&& r is None ==> command_action(old(state).input_buffer@) is None
                &&& final(self).history() == old(self).history().push(old(state).input_buffer@)
                &&& final(self).index() is None
                &&& final(state).input_buffer@.len() == 0
                &&& final(state).cursor_pos == 0
                &&& old(state).same_but_input(&*final(state))
            },
            !(key.code is Enter) ==> r is None,
            !(key.code is Enter) && !(key.code is Up) && !(key.code is Down) ==> final(self).history()
                == old(self).history(),
            match key.code {
                Key::Enter | Key::Char(_) | Key::Backspace | Key::Up | Key::Down => true,
                _ => final(self).index() == old(self).index(),
            },
            match key.code {
                Key::Char(_) | Key::Backspace | Key::Right | Key::Tab => true,
                _ => final(self).suggestion() == old(self).suggestion(),
            },
            key.code is Right && !(old(state).cursor_pos == old(state).input_buffer@.len() && old(
                self,
            ).suggestion() is Some) ==> final(self).suggestion() == old(self).suggestion(),
            key.code is Tab && old(self).completer().spec_suggestions(old(state).input_buffer@).len() == 0
                ==> final(self).suggestion() == old(self).suggestion(),
            match key.code {
                Key::Char(c) => {
                    &&& (final(state).input_buffer@, final(state).cursor_pos as int) == after_insert(
                        old(state).input_buffer@,
                        old(state).cursor_pos,
                        c,
                    )
                    &&& old(state).same_but_input(&*final(state))
                    &&& final(self).index() is None
                    &&& final(self).suggestion() == old(self).suggestion_for(
                        final(state).input_buffer@,
                        final(state).cursor_pos,
                    )
                },
                Key::Backspace => {
                    &&& match after_backspace(old(state).input_buffer@, old(state).cursor_pos) {
                        Some((b, k)) => {
                            &&& final(state).input_buffer@ == b
                            &&& final(state).cursor_pos == k
                            &&& final(self).index() is None
                            &&& final(self).suggestion() == old(self).suggestion_for(b, k as usize)
                        },
                        None => {
                            &&& final(state).input_buffer == old(state).input_buffer
                            &&& final(state).cursor_pos == old(state).cursor_pos
                            &&& final(self).index() == old(self).index()
                            &&& final(self).suggestion() == old(self).suggestion()
                        },
                    }
                    &&& old(state).same_but_input(&*final(state))
                },
                Key::Delete => {
                    &&& match after_delete(old(state).input_buffer@, old(state).cursor_pos) {
                        Some(b) => final(state).input_buffer@ == b,
                        None => final(state).input_buffer == old(state).input_buffer,
                    }
                    &&& final(state).cursor_pos == old(state).cursor_pos
                    &&& old(state).same_but_input(&*final(state))
                },
                Key::Left => {
                    &&& final(state).cursor_pos == (if old(state).cursor_pos > 0 {
                        old(state).cursor_pos - 1
                    } else {
                        0
                    })
                    &&& final(state).input_buffer == old(state).input_buffer
                    &&& old(state).same_but_input(&*final(state))
                },
                Key::Right => if old(state).cursor_pos == old(state).input_buffer@.len() {
                    match old(self).suggestion() {
                        Some(s) => {
                            &&& final(state).input_buffer@ == s
                            &&& final(state).cursor_pos == s.len()
                            &&& final(self).suggestion() is None
                            &&& old(state).same_but_input(&*final(state))
                        },
                        None => *final(state) == *old(state),
                    }
                } else {
                    &&& final(state).cursor_pos == (if old(state).cursor_pos < old(state).input_buffer@.len() {
                        old(state).cursor_pos + 1
                    } else {
                        old(state).cursor_pos as int
                    })
                    &&& final(state).input_buffer == old(state).input_buffer
                    &&& old(state).same_but_input(&*final(state))
                },
                Key::Home => if key.control {
                    &&& final(state).horizontal_scroll_offset == (if old(state).horizontal_scroll_offset
                        >= 10 {
                        old(state).horizontal_scroll_offset - 10
                    } else {
                        0
                    })
                    &&& final(state).input_buffer == old(state).input_buffer
                    &&& final(state).cursor_pos == old(state).cursor_pos
                } else {
                    &&& final(state).cursor_pos == 0
                    &&& final(state).input_buffer == old(state).input_buffer
                    &&& old(state).same_but_input(&*final(state))
                },
                Key::End => if key.control {
                    &&& final(state).horizontal_scroll_offset == (if old(state).horizontal_scroll_offset
                        + 10 > usize::MAX {
                        usize::MAX as int
                    } else {
                        old(state).horizontal_scroll_offset + 10
                    })
                    &&& final(state).input_buffer == old(state).input_buffer
                    &&& final(state).cursor_pos == old(state).cursor_pos
                } else {
                    &&& final(state).cursor_pos == old(state).input_buffer@.len()
                    &&& final(state).input_buffer == old(state).input_buffer
                    &&& old(state).same_but_input(&*final(state))
                },
                Key::Up | Key::Down => {
                    &&& final(self).history() == old(self).history()
                    &&& final(self).suggestion() == old(self).suggestion()
                    &&& old(self).history().len() == 0 ==> *final(state) == *old(state)
                    &&& old(self).history().len() > 0 ==> {
                        &&& final(self).index() == next_history_index(
                            old(self).history().len(),
                            old(self).index(),
                            key.code is Up,
                        )
                        &&& match final(self).index() {
                            Some(i) => final(state).input_buffer@ == old(self).history()[i as int]
                                && final(state).cursor_pos == old(self).history()[i as int].len(),
                            None => final(state).input_buffer@.len() == 0 && final(state).cursor_pos == 0,
                        }
                        &&& old(state).same_but_input(&*final(state))
                    }
                },
                Key::PageUp => {
                    &&& final(state).scroll_offset == clamp_scroll(
                        if old(state).scroll_offset + 10 > usize::MAX {
                            usize::MAX as int
                        } else {
                            old(state).scroll_offset + 10
                        },
                        old(state).total_chat_items() as int,
                        old(state).terminal_size.1 as int,
                    )
                    &&& final(state).is_at_bottom_chat == (final(state).scroll_offset == 0)
                    &&& old(state).same_but_chat_scroll(&*final(state))
                },
                Key::PageDown => {
                    &&& final(state).scroll_offset == clamp_scroll(
                        if old(state).scroll_offset >= 10 {
                            old(state).scroll_offset - 10
                        } else {
                            0
                        },
                        old(state).total_chat_items() as int,
                        old(state).terminal_size.1 as int,
                    )
                    &&& final(state).is_at_bottom_chat == (final(state).scroll_offset == 0)
                    &&& old(state).same_but_chat_scroll(&*final(state))
                },
                Key::Esc => {
                    &&& final(state).scroll_offset == 0
                    &&& final(state).is_at_bottom_chat
                    &&& old(state).same_but_chat_scroll(&*final(state))
                },
                Key::Tab => {
                    let s = old(self).completer().spec_suggestions(old(state).input_buffer@);
                    if s.len() > 0 {
                        &&& final(state).input_buffer@ == s[0]
                        &&& final(state).cursor_pos == s[0].len()
                        &&& final(self).suggestion() is None
                        &&& old(state).same_but_input(&*final(state))
                    } else {
                        *final(state) == *old(state)
                    }
                },
                Key::Other => *final(state) == *old(state),
                Key::Enter => true,
            },
    {
        match key.code {
            Key::Enter => {
                let chars = chars_of(state.input_buffer.as_str());
                if !blank(&chars) {
                    let input = state.input_buffer.clone();
                    let ghost before = self.input_history@;
                    self.input_history.push(input.clone());
                    proof {
                        assert(string_views(self.input_history@) =~= string_views(before).push(input@));
                    }
                    self.history_index = None;
                    let action = self.execute_command(input.as_str());
                    state.clear_input();
                    return action;
                }
                None
            },
            Key::Char(c) => {
                state.safe_insert_char(c);
                self.history_index = None;
                self.update_suggestion(state);
                None
            },
            Key::Backspace => {
                if state.safe_remove_char_before() {
                    self.history_index = None;
                    self.update_suggestion(state);
                }
                None
            },
            Key::Delete => {
                state.safe_remove_char_at();
                None
            },
            Key::Left => {
                state.safe_cursor_left();
                None
            },
            Key::Right => {
                let count = chars_of(state.input_buffer.as_str()).len();
                if state.cursor_pos == count {
                    match &self.current_suggestion {
                        Some(s) => {
                            state.set_input(s.clone());
                            self.current_suggestion = None;
                        },
                        None => {},
                    }
                } else {
                    state.safe_cursor_right();
                }
                None
            },
            Key::Home => {
                if key.control {
                    state.horizontal_scroll_offset = state.horizontal_scroll_offset.saturating_sub(10);
                } else {
                    state.safe_cursor_home();
                }
                None
            },
            Key::End => {
                if key.control {
                    state.horizontal_scroll_offset = state.horizontal_scroll_offset.saturating_add(10);
                } else {
                    state.safe_cursor_end();
                }
                None
            },
            Key::Up => {
                self.navigate_history(state, true);
                None
            },
            Key::Down => {
                self.navigate_history(state, false);
                None
            },
            Key::PageUp => {
                state.scroll_offset = state.scroll_offset.saturating_add(10);
                let h = state.terminal_size.1 as usize;
                state.update_chat_scroll_state(h);
                None
            },
            Key::PageDown => {
                state.scroll_offset = state.scroll_offset.saturating_sub(10);
                let h = state.terminal_size.1 as usize;
                state.update_chat_scroll_state(h);
                None
            },
            Key::Esc => {
                state.jump_to_bottom_chat();
                None
            },
            Key::Tab => {
                let suggestions = self.completer.get_suggestions(state.input_buffer.as_str());
                if suggestions.len() > 0 {
                    proof {
                        assert(string_views(suggestions@)[0] == suggestions@[0]@);
                    }
                    state.set_input(suggestions[0].clone());
                    self.current_suggestion = None;
                }
                None
            },
            Key::Other => None,
        }
    }
}

} // verus!
