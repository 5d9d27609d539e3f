//! The state of the interface: mode, messages, logs, scrolling and the input
//! line.
use std::collections::VecDeque;

use vstd::prelude::*;

use crate::clock::{millis_in_range, millis_representable, utc_now_millis};
use crate::types::{Message, MessageView};

use super::mode::{LogEntry, LogLevel, UIMode};

pub mod chat;
pub mod input;
pub mod logs;

verus! {

/// How many log entries are kept when nothing else is set.
pub const DEFAULT_MAX_LOG_ENTRIES: usize = 10000;

/// A chat message with the time (ms since the Unix epoch) it is shown at.
#[derive(Debug, Clone)]
pub struct ChatMessageEntry {
    /// The message.
    pub message: Message,
    /// When it arrived.
    pub received_at: i64,
}

/// The state of the interface.
#[derive(Debug)]
pub struct UIState {
    /// The current mode.
    pub mode: UIMode,
    /// The log mode last left, to return to.
    pub last_log_mode: Option<UIMode>,
    /// The chat messages shown.
    pub messages: Vec<ChatMessageEntry>,
    /// Other text shown in the chat (ms since the Unix epoch, text).
    pub chat_messages: Vec<(i64, String)>,
    /// The log entries, oldest first.
    pub logs: VecDeque<LogEntry>,
    /// How many lines the chat view is scrolled up.
    pub scroll_offset: usize,
    /// How many lines the log view is scrolled up.
    pub log_scroll_offset: usize,
    /// How many characters the text is scrolled to the left.
    pub horizontal_scroll_offset: usize,
    /// The chat view shows its last line.
    pub is_at_bottom_chat: bool,
    /// The log view shows its last line.
    pub is_at_bottom_log: bool,
    /// The input line.
    pub input_buffer: String,
    /// The cursor in the input line, in characters.
    pub cursor_pos: usize,
    /// The terminal's width and height.
    pub terminal_size: (u16, u16),
    /// The most log entries kept.
    pub max_log_entries: usize,
    /// How many peers are connected.
    pub connected_peers_count: usize,
}

/// When a stored message with timestamp `ts` is shown to have arrived: at
/// `ts` if it is a representable time, else at `now`.
pub open spec fn arrival(ts: i64, now: i64) -> i64 {
    if millis_in_range(ts) {
        ts
    } else {
        now
    }
}

/// The mode and the remembered log mode after switching modes from `mode`
/// with `last` remembered: chat goes to the remembered log mode, or to one
/// showing everything down to debug entries; log mode goes to chat and is
/// remembered.
pub open spec fn toggled(mode: UIMode, last: Option<UIMode>) -> (UIMode, Option<UIMode>) {
    match mode {
        UIMode::Chat => (
            match last {
                Some(UIMode::Logs { filter, level }) => UIMode::Logs { filter, level },
                _ => UIMode::Logs { filter: None, level: LogLevel::Debug },
            },
            last,
        ),
        UIMode::Logs { .. } => (UIMode::Chat, Some(mode)),
    }
}

/// Leaving log mode and coming back gives the same log mode: its filter and
/// level are kept. Coming back from chat to log mode and leaving it again
/// gives chat mode.
pub proof fn law_toggle_twice(mode: UIMode, last: Option<UIMode>)
    ensures
        ({
            let (m1, l1) = toggled(mode, last);
            let (m2, l2) = toggled(m1, l1);
            &&& mode is Logs ==> m2 == mode && l2 == Some(mode)
            &&& mode is Chat ==> m2 is Chat
        }),
{
}

impl UIState {
    /// Everything but the mode and the scrolling is the same in `other`.
    pub open spec fn same_content(&self, other: &UIState) -> bool {
        &&& other.messages == self.messages
        &&& other.chat_messages == self.chat_messages
        &&& other.logs == self.logs
        &&& other.input_buffer == self.input_buffer
        &&& other.cursor_pos == self.cursor_pos
        &&& other.terminal_size == self.terminal_size
        &&& other.max_log_entries == self.max_log_entries
        &&& other.connected_peers_count == self.connected_peers_count
        &&& other.horizontal_scroll_offset == self.horizontal_scroll_offset
    }

    /// Only the input line and the cursor may differ in `other`.
    pub open spec fn same_but_input(&self, other: &UIState) -> bool {
        &&& other.mode == self.mode
        &&& other.last_log_mode == self.last_log_mode
        &&& other.messages == self.messages
        &&& other.chat_messages == self.chat_messages
        &&& other.logs == self.logs
        &&& other.scroll_offset == self.scroll_offset
        &&& other.log_scroll_offset == self.log_scroll_offset
        &&& other.horizontal_scroll_offset == self.horizontal_scroll_offset
        &&& other.is_at_bottom_chat == self.is_at_bottom_chat
        &&& other.is_at_bottom_log == self.is_at_bottom_log
        &&& other.terminal_size == self.terminal_size
        &&& other.max_log_entries == self.max_log_entries
        &&& other.connected_peers_count == self.connected_peers_count
    }

    /// A state in chat mode with nothing shown, an 80 by 24 terminal and room
    /// for ten thousand log entries.
    pub fn new() -> (s: Self)
        ensures
            s.mode is Chat,
            s.last_log_mode is None,
            s.messages@.len() == 0,
            s.chat_messages@.len() == 0,
            s.logs@.len() == 0,
            s.scroll_offset == 0,
            s.log_scroll_offset == 0,
            s.horizontal_scroll_offset == 0,
            s.is_at_bottom_chat,
            s.is_at_bottom_log,
            s.input_buffer@.len() == 0,
            s.cursor_pos == 0,
            s.terminal_size == (80u16, 24u16),
            s.max_log_entries == DEFAULT_MAX_LOG_ENTRIES,
            s.connected_peers_count == 0,
    {
        UIState {
            mode: UIMode::default(),
            last_log_mode: None,
            messages: Vec::new(),
            chat_messages: Vec::new(),
            logs: VecDeque::with_capacity(DEFAULT_MAX_LOG_ENTRIES),
            scroll_offset: 0,
            log_scroll_offset: 0,
            horizontal_scroll_offset: 0,
            is_at_bottom_chat: true,
            is_at_bottom_log: true,
            input_buffer: String::new(),
            cursor_pos: 0,
            terminal_size: (80, 24),
            max_log_entries: DEFAULT_MAX_LOG_ENTRIES,
            connected_peers_count: 0,
        }
    }

    /// Switches between chat and log mode. Log mode comes back as it was left,
    /// or shows everything down to debug entries the first time; leaving it
    /// remembers it. Both views go back to their bottom.
    pub fn toggle_mode(&mut self)
        ensures
            (final(self).mode, final(self).last_log_mode) == toggled(old(self).mode, old(self).last_log_mode),
            final(self).scroll_offset == 0,
            final(self).log_scroll_offset == 0,
            final(self).is_at_bottom_chat,
            final(self).is_at_bottom_log,
            old(self).same_content(&*final(self)),
    {
        let next = match &self.mode {
            UIMode::Chat => match &self.last_log_mode {
                Some(UIMode::Logs { filter, level }) => UIMode::Logs {
                    filter: super::mode::copy_filter(filter),
                    level: *level,
                },
                _ => UIMode::Logs { filter: None, level: LogLevel::Debug },
            },
            UIMode::Logs { .. } => {
                self.last_log_mode = Some(self.mode.duplicate());
                UIMode::Chat
            },
        };
        self.mode = next;
        self.scroll_offset = 0;
        self.log_scroll_offset = 0;
        self.is_at_bottom_chat = true;
        self.is_at_bottom_log = true;
    }

    /// Shows `messages` in place of the chat messages, each arriving at its
    /// own timestamp when that is a representable time and at clock reading
    /// `now` otherwise; the chat view goes back to its bottom.
    pub fn replace_messages_at(&mut self, messages: Vec<Message>, now: i64)
        ensures
            final(self).messages@.len() == messages@.len(),
            forall|i: int|
                0 <= i < messages@.len() ==> {
                    &&& (#[trigger] final(self).messages@[i]).message@ == messages@[i]@
                    &&& final(self).messages@[i].received_at == arrival(messages@[i].timestamp, now)
                },
            final(self).scroll_offset == 0,
            final(self).is_at_bottom_chat,
            final(self).mode == old(self).mode,
            final(self).last_log_mode == old(self).last_log_mode,
            final(self).chat_messages == old(self).chat_messages,
            final(self).logs == old(self).logs,
            final(self).log_scroll_offset == old(self).log_scroll_offset,
            final(self).is_at_bottom_log == old(self).is_at_bottom_log,
            final(self).horizontal_scroll_offset == old(self).horizontal_scroll_offset,
            final(self).input_buffer == old(self).input_buffer,
            final(self).cursor_pos == old(self).cursor_pos,
            final(self).terminal_size == old(self).terminal_size,
            final(self).max_log_entries == old(self).max_log_entries,
            final(self).connected_peers_count == old(self).connected_peers_count,
    {
        let mut entries: Vec<ChatMessageEntry> = Vec::new();
        let mut i: usize = 0;
        while i < messages.len()
            invariant
                i <= messages.len(),
                entries@.len() == i,
                forall|k: int|
                    0 <= k < i ==> {
                        &&& (#[trigger] entries@[k]).message@ == messages@[k]@
                        &&& entries@[k].received_at == arrival(messages@[k].timestamp, now)
                    },
            decreases messages.len() - i,
        {
            let m = messages[i].duplicate();
            let at = if millis_representable(m.timestamp) {
                m.timestamp
            } else {
                now
            };
            entries.push(ChatMessageEntry { message: m, received_at: at });
            i += 1;
        }
        self.messages = entries;
        self.scroll_offset = 0;
        self.is_at_bottom_chat = true;
    }

    /// Shows `messages` in place of the chat messages, each arriving at its
    /// own timestamp when that is a representable time and now otherwise.
    pub fn replace_messages(&mut self, messages: Vec<Message>)
        ensures
            final(self).messages@.len() == messages@.len(),
            forall|i: int|
                0 <= i < messages@.len() ==> (#[trigger] final(self).messages@[i]).message@
                    == messages@[i]@,
            forall|i: int|
                0 <= i < messages@.len() && millis_in_range(messages@[i].timestamp) ==> (
                #[trigger] final(self).messages@[i]).received_at == messages@[i].timestamp,
            final(self).scroll_offset == 0,
            final(self).is_at_bottom_chat,
            final(self).mode == old(self).mode,
            final(self).chat_messages == old(self).chat_messages,
            final(self).logs == old(self).logs,
            final(self).input_buffer == old(self).input_buffer,
            final(self).cursor_pos == old(self).cursor_pos,
    {
        let now = utc_now_millis();
        self.replace_messages_at(messages, now);
    }

    /// Whether a message with id `message_id` is shown.
    pub fn contains_message(&self, message_id: u128) -> (r: bool)
        ensures
            r == exists|i: int| 0 <= i < self.messages@.len() && (#[trigger] self.messages@[i]).message.id == message_id,
    {
        let mut i: usize = 0;
        while i < self.messages.len()
            invariant
                i <= self.messages.len(),
                forall|k: int| 0 <= k < i ==> (#[trigger] self.messages@[k]).message.id != message_id,
            decreases self.messages.len() - i,
        {
            if self.messages[i].message.id == message_id {
                return true;
            }
            i += 1;
        }
        false
    }
}

} // verus!
