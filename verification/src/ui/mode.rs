//! The modes of the interface, the severity of log entries, the actions the
//! interface asks for, and a log entry.
use vstd::prelude::*;

verus! {

/// The severity of a log entry, from the most to the least important.
#[derive(Clone, Copy, Debug, PartialEq, Eq, Structural)]
pub enum LogLevel {
    Error,
    Warn,
    Info,
    Debug,
    Trace,
}

impl LogLevel {
    /// The place of the level from the most important (0) to the least (4).
    pub open spec fn rank(self) -> int {
        match self {
            LogLevel::Error => 0,
            LogLevel::Warn => 1,
            LogLevel::Info => 2,
            LogLevel::Debug => 3,
            LogLevel::Trace => 4,
        }
    }

    /// The place of the level from the most important (0) to the least (4).
    pub fn rank_of(&self) -> (r: u8)
        ensures
            r == self.rank(),
    {
        match self {
            LogLevel::Error => 0,
            LogLevel::Warn => 1,
            LogLevel::Info => 2,
            LogLevel::Debug => 3,
            LogLevel::Trace => 4,
        }
    }

    /// Whether an entry of this level is shown when `shown` is the least
    /// important level shown.
    pub fn is_shown_at(&self, shown: &LogLevel) -> (r: bool)
        ensures
            r == (self.rank() <= shown.rank()),
    {
        self.rank_of() <= shown.rank_of()
    }
}

/// The mode of the interface.
#[derive(Debug, Clone)]
pub enum UIMode {
    /// Chatting.
    Chat,
    /// Reading the logs: only entries at `level` or more important, and
    /// matching `filter` if there is one.
    Logs { filter: Option<String>, level: LogLevel },
}

impl Default for UIMode {
    /// The interface starts in chat mode.
    fn default() -> (m: Self)
        ensures
            m is Chat,
    {
        UIMode::Chat
    }
}

/// A copy of a filter.
pub fn copy_filter(f: &Option<String>) -> (r: Option<String>)
    ensures
        r == *f,
{
    match f {
        Some(s) => Some(s.clone()),
        None => None,
    }
}

impl UIMode {
    /// A copy of the mode.
    pub fn duplicate(&self) -> (m: UIMode)
        ensures
            m == *self,
    {
        match self {
            UIMode::Chat => UIMode::Chat,
            UIMode::Logs { filter, level } => UIMode::Logs { filter: copy_filter(filter), level: *level },
        }
    }

    /// Whether the mode is chat mode.
    pub fn is_chat(&self) -> (r: bool)
        ensures
            r == (*self is Chat),
    {
        match self {
            UIMode::Chat => true,
            UIMode::Logs { .. } => false,
        }
    }
}

/// What the interface asks the application to do.
#[derive(Debug)]
pub enum UIAction {
    /// Send a message: the recipient (peer id or nickname), then the text.
    SendMessage(String, String),
    /// Run a command line.
    ExecuteCommand(String),
    /// Leave the application.
    Exit,
}

/// What an action asks for, as plain values.
pub enum ActionView {
    Send(Seq<char>, Seq<char>),
    Execute(Seq<char>),
    Exit,
}

impl View for UIAction {
    type V = ActionView;

    open spec fn view(&self) -> ActionView {
        match self {
            UIAction::SendMessage(to, text) => ActionView::Send(to@, text@),
            UIAction::ExecuteCommand(line) => ActionView::Execute(line@),
            UIAction::Exit => ActionView::Exit,
        }
    }
}

/// A log entry.
#[derive(Debug, Clone)]
pub struct LogEntry {
    /// When it was made (ms since the Unix epoch).
    pub timestamp: i64,
    /// Its severity.
    pub level: LogLevel,
    /// The module it came from.
    pub module: String,
    /// The text.
    pub message: String,
}

} // verus!
