//! Key presses as the interface reads them, and walking back through what
//! was typed before.
use vstd::prelude::*;

verus! {

/// A key.
#[derive(Debug, Clone, Copy, PartialEq, Eq, Structural)]
pub enum Key {
    Enter,
    Char(char),
    Backspace,
    Delete,
    Left,
    Right,
    Home,
    End,
    Up,
    Down,
    PageUp,
    PageDown,
    Esc,
    Tab,
    /// Any other key, which does nothing.
    Other,
}

/// A key press: the key, and whether Control was held.
#[derive(Debug, Clone, Copy, PartialEq, Eq, Structural)]
pub struct KeyPress {
    pub code: Key,
    pub control: bool,
}

/// Where walking the input history of `len` entries from `index` leads:
/// up goes to older entries and stops at the oldest, down goes to newer ones
/// and leaves the history after the newest.
pub open spec fn next_history_index(len: nat, index: Option<usize>, up: bool) -> Option<usize> {
    if len == 0 {
        index
    } else if up {
        match index {
            None => Some((len - 1) as usize),
            Some(i) => if i == 0 {
                Some(0)
            } else {
                Some((i - 1) as usize)
            },
        }
    } else {
        match index {
            None => None,
            Some(i) => if i + 1 >= len {
                None
            } else {
                Some((i + 1) as usize)
            },
        }
    }
}

/// Where walking the input history of `len` entries from `index` leads.
pub fn step_history_index(len: usize, index: Option<usize>, up: bool) -> (r: Option<usize>)
    requires
        index matches Some(i) ==> i < len,
    ensures
        r == next_history_index(len as nat, index, up),
        r matches Some(i) ==> i < len,
{
    if len == 0 {
        return index;
    }
    if up {
        match index {
            None => Some(len - 1),
            Some(i) => if i == 0 {
                Some(0)
            } else {
                Some(i - 1)
            },
        }
    } else {
        match index {
            None => None,
            Some(i) => if i + 1 >= len {
                None
            } else {
                Some(i + 1)
            },
        }
    }
}

/// Walking the history: the first step up shows the newest entry, a step
/// down from the newest leaves the history, and steps up stop at the oldest.
pub proof fn law_history_walk(len: nat, i: usize)
    requires
        1 <= len <= usize::MAX,
        i < len,
    ensures
        next_history_index(len, None, true) == Some((len - 1) as usize),
        next_history_index(len, Some((len - 1) as usize), false) is None,
        next_history_index(len, Some(0), true) == Some(0usize),
        next_history_index(len, next_history_index(len, None, true), false) is None,
        next_history_index(len, Some(i), true) matches Some(j) && j <= i,
        next_history_index(len, None, false) is None,
{
}

/// Walking the history moves one entry at a time: from entry `i`, Up shows
/// the entry just before it and Down the one just after it, so a step up
/// followed by a step down comes back to where it was, and every entry is
/// reached on the way up.
pub proof fn law_history_steps_by_one(len: nat, i: usize)
    requires
        len <= usize::MAX,
        i < len,
    ensures
        0 < i ==> next_history_index(len, Some(i), true) == Some((i - 1) as usize),
        i + 1 < len ==> next_history_index(len, Some(i), false) == Some((i + 1) as usize),
        0 < i ==> next_history_index(len, next_history_index(len, Some(i), true), false) == Some(i),
        i + 1 < len ==> next_history_index(len, next_history_index(len, Some(i), false), true) == Some(i),
{
}

} // verus!
