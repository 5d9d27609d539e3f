//! The events the interface reacts to.
use vstd::prelude::*;

use crate::types::Message;

use super::keys::KeyPress;
use super::mode::LogEntry;

verus! {

/// An event for the interface.
#[derive(Debug)]
pub enum UIEvent {
    /// A message arrived.
    NewMessage(Message),
    /// Log entries arrived.
    NewLogBatch(Vec<LogEntry>),
    /// The log view is to be shown again from its bottom.
    RefreshLogs,
    /// A text for the chat.
    ChatMessage(String),
    /// The output of a command, shown line by line.
    HistoryOutput(String),
    /// A key was pressed.
    KeyPress(KeyPress),
    /// The terminal was resized to this width and height.
    Resize(u16, u16),
    /// How many peers are connected.
    UpdatePeersCount(usize),
    /// The peers discovered, as texts.
    UpdateDiscoveredPeers(Vec<String>),
}

} // verus!
