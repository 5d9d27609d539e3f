//! Editing the input line, character by character, around the cursor.
use vstd::prelude::*;

use crate::ui::text::{chars_of, string_from_chars};

use super::UIState;

verus! {

/// Where a character typed with the cursor at `cursor` goes: at the cursor,
/// or at the end when the cursor is past it.
pub open spec fn insert_position(buf: Seq<char>, cursor: usize) -> int {
    if cursor >= buf.len() {
        buf.len() as int
    } else {
        cursor as int
    }
}

/// The line and cursor after typing `c`.
pub open spec fn after_insert(buf: Seq<char>, cursor: usize, c: char) -> (Seq<char>, int) {
    (buf.insert(insert_position(buf, cursor), c), cursor + 1)
}

/// The line and cursor after a backspace, when one removes a character.
pub open spec fn after_backspace(buf: Seq<char>, cursor: usize) -> Option<(Seq<char>, int)> {
    if 0 < cursor <= buf.len() {
        Some((buf.remove(cursor - 1), cursor - 1))
    } else {
        None
    }
}

/// The line after a delete, when one removes a character.
pub open spec fn after_delete(buf: Seq<char>, cursor: usize) -> Option<Seq<char>> {
    if cursor < buf.len() {
        Some(buf.remove(cursor as int))
    } else {
        None
    }
}

impl UIState {
    /// The cursor is within the input line.
    pub open spec fn cursor_in_line(&self) -> bool {
        self.cursor_pos <= self.input_buffer@.len()
    }

    /// Types `c` at the cursor (at the end if the cursor is past it) and moves
    /// the cursor after it.
    pub fn safe_insert_char(&mut self, c: char)
        requires
            old(self).cursor_pos < usize::MAX,
        ensures
            (final(self).input_buffer@, final(self).cursor_pos as int) == after_insert(
                old(self).input_buffer@,
                old(self).cursor_pos,
                c,
            ),
            old(self).same_but_input(&*final(self)),
    {
        let mut chars = chars_of(self.input_buffer.as_str());
        let pos = if self.cursor_pos >= chars.len() {
            chars.len()
        } else {
            self.cursor_pos
        };
        chars.insert(pos, c);
        self.input_buffer = string_from_chars(&chars);
        self.cursor_pos = self.cursor_pos + 1;
    }

    /// Removes the character before the cursor and moves the cursor back, if
    /// there is one. Returns whether a character was removed.
    pub fn safe_remove_char_before(&mut self) -> (removed: bool)
        ensures
            removed == after_backspace(old(self).input_buffer@, old(self).cursor_pos) is Some,
            match after_backspace(old(self).input_buffer@, old(self).cursor_pos) {
                Some((buf, cur)) => final(self).input_buffer@ == buf && final(self).cursor_pos == cur,
                None => final(self).input_buffer == old(self).input_buffer && final(self).cursor_pos
                    == old(self).cursor_pos,
            },
            old(self).same_but_input(&*final(self)),
    {
        if self.cursor_pos > 0 {
            let mut chars = chars_of(self.input_buffer.as_str());
            if self.cursor_pos <= chars.len() {
                chars.remove(self.cursor_pos - 1);
                self.input_buffer = string_from_chars(&chars);
                self.cursor_pos = self.cursor_pos - 1;
                return true;
            }
        }
        false
    }

    /// Removes the character at the cursor, if there is one. Returns whether a
    /// character was removed.
    pub fn safe_remove_char_at(&mut self) -> (removed: bool)
        ensures
            removed == after_delete(old(self).input_buffer@, old(self).cursor_pos) is Some,
            match after_delete(old(self).input_buffer@, old(self).cursor_pos) {
                Some(buf) => final(self).input_buffer@ == buf,
                None => final(self).input_buffer == old(self).input_buffer,
            },
            final(self).cursor_pos == old(self).cursor_pos,
            old(self).same_but_input(&*final(self)),
    {
        let mut chars = chars_of(self.input_buffer.as_str());
        if self.cursor_pos < chars.len() {
            chars.remove(self.cursor_pos);
            self.input_buffer = string_from_chars(&chars);
            return true;
        }
        false
    }

    /// Moves the cursor one character to the left, unless it is at the start.
    pub fn safe_cursor_left(&mut self)
        ensures
            final(self).cursor_pos == (if old(self).cursor_pos > 0 {
                old(self).cursor_pos - 1
            } else {
                0
            }),
            final(self).input_buffer == old(self).input_buffer,
            old(self).same_but_input(&*final(self)),
    {
        if self.cursor_pos > 0 {
            self.cursor_pos = self.cursor_pos - 1;
        }
    }

    /// Moves the cursor one character to the right, unless it is at the end.
    pub fn safe_cursor_right(&mut self)
        ensures
            final(self).cursor_pos == (if old(self).cursor_pos < old(self).input_buffer@.len() {
                old(self).cursor_pos + 1
            } else {
                old(self).cursor_pos as int
            }),
            final(self).input_buffer == old(self).input_buffer,
            old(self).same_but_input(&*final(self)),
    {
        let count = chars_of(self.input_buffer.as_str()).len();
        if self.cursor_pos < count {
            self.cursor_pos = self.cursor_pos + 1;
        }
    }

    /// Moves the cursor to the start of the line.
    pub fn safe_cursor_home(&mut self)
        ensures
            final(self).cursor_pos == 0,
            final(self).input_buffer == old(self).input_buffer,
            old(self).same_but_input(&*final(self)),
    {
        self.cursor_pos = 0;
    }

    /// Moves the cursor to the end of the line.
    pub fn safe_cursor_end(&mut self)
        ensures
            final(self).cursor_pos == old(self).input_buffer@.len(),
            final(self).input_buffer == old(self).input_buffer,
            old(self).same_but_input(&*final(self)),
    {
        self.cursor_pos = chars_of(self.input_buffer.as_str()).len();
    }

    /// Replaces the input line with `text` and puts the cursor at its end.
    pub fn set_input(&mut self, text: String)
        ensures
            final(self).input_buffer@ == text@,
            final(self).cursor_pos == text@.len(),
            old(self).same_but_input(&*final(self)),
    {
        self.input_buffer = text;
        self.safe_cursor_end();
    }

    /// Empties the input line and puts the cursor at the start.
    pub fn clear_input(&mut self)
        ensures
            final(self).input_buffer@.len() == 0,
            final(self).cursor_pos == 0,
            old(self).same_but_input(&*final(self)),
    {
        self.input_buffer = String::new();
        self.cursor_pos = 0;
    }
}

/// A backspace right after typing a character with the cursor within the
/// line takes the line and the cursor back to where they were.
pub proof fn law_backspace_undoes_insert(buf: Seq<char>, cursor: usize, c: char)
    requires
        cursor <= buf.len(),
        cursor < usize::MAX,
    ensures
        ({
            let (b1, c1) = after_insert(buf, cursor, c);
            c1 <= usize::MAX && after_backspace(b1, c1 as usize) == Some((buf, cursor as int))
        }),
{
    let (b1, c1) = after_insert(buf, cursor, c);
    assert(b1.remove(c1 - 1) =~= buf);
}

/// Editing keeps the cursor within the line: typing, backspace and delete
/// each leave a cursor that was within the line within the new line.
pub proof fn law_edits_keep_cursor_in_line(buf: Seq<char>, cursor: usize, c: char)
    requires
        cursor <= buf.len(),
    ensures
        after_insert(buf, cursor, c).1 <= after_insert(buf, cursor, c).0.len(),
        after_backspace(buf, cursor) matches Some((b, k)) ==> k <= b.len(),
        after_delete(buf, cursor) matches Some(b) ==> cursor <= b.len(),
{
}

} // verus!
