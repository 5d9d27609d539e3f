//! What the chat and log views show of their lines: the window of lines in
//! sight for a scroll position, horizontal scrolling, cutting to the width,
//! command output lines, and the level column of the logs.
use vstd::prelude::*;

use super::mode::LogLevel;
use super::state::chat::history_mark;
use super::text::{chars_of, has_prefix, string_from_chars, starts_with};

verus! {

/// The first line in sight in a view of `total` lines showing `visible`
/// lines, scrolled up by `scroll`: the last lines at the bottom, the first
/// ones when scrolled past the top.
pub open spec fn first_visible(total: int, visible: int, scroll: int) -> int {
    if total > visible {
        if scroll >= total {
            0
        } else if visible + scroll >= total {
            0
        } else {
            total - (visible + scroll)
        }
    } else {
        0
    }
}

/// The lines in sight, from the first to before the last, in a view of
/// `total` lines showing `visible` lines, scrolled up by `scroll`.
pub fn visible_range(total: usize, visible: usize, scroll: usize) -> (r: (usize, usize))
    requires
        total + visible <= usize::MAX,
        total > visible && scroll < total ==> visible + scroll <= usize::MAX,
    ensures
        r.0 == first_visible(total as int, visible as int, scroll as int),
        r.1 == (if r.0 + visible < total {
            r.0 + visible
        } else {
            total as int
        }),
{
    let start = if total > visible {
        if scroll >= total {
            0
        } else {
            total.saturating_sub(visible + scroll)
        }
    } else {
        0
    };
    let end = if start + visible < total {
        start + visible
    } else {
        total
    };
    (start, end)
}

/// A view shows no more lines than fit, never past its last line, and the
/// last line when not scrolled.
pub proof fn law_window_fits(total: int, visible: int, scroll: int)
    requires
        0 <= total,
        0 <= visible,
        0 <= scroll,
    ensures
        ({
            let start = first_visible(total, visible, scroll);
            let end = if start + visible < total {
                start + visible
            } else {
                total
            };
            &&& 0 <= start <= end <= total
            &&& end - start <= visible
            &&& scroll == 0 ==> end == total
        }),
{
}

/// The characters of `text` from the `offset`-th on.
pub fn scrolled_text(text: &str, offset: usize) -> (r: String)
    ensures
        r@ == (if offset < text@.len() {
            text@.subrange(offset as int, text@.len() as int)
        } else {
            Seq::empty()
        }),
{
    let cs = chars_of(text);
    let mut out: Vec<char> = Vec::new();
    let mut i: usize = offset;
    if i < cs.len() {
        while i < cs.len()
            invariant
                offset <= i <= cs.len(),
                out@ == cs@.subrange(offset as int, i as int),
            decreases cs.len() - i,
        {
            out.push(cs[i]);
            assert(out@ =~= cs@.subrange(offset as int, i + 1));
            i += 1;
        }
    } else {
        assert(out@ =~= Seq::<char>::empty());
    }
    string_from_chars(&out)
}

/// `text` cut to `width` characters: when longer, its first `width - 3`
/// characters and `...`.
pub fn fit_to_width(text: &str, width: usize) -> (r: String)
    requires
        text@.len() > width ==> width >= 3,
    ensures
        text@.len() <= width ==> r@ == text@,
        text@.len() > width ==> r@ == text@.subrange(0, width - 3) + "..."@,
{
    let cs = chars_of(text);
    if cs.len() <= width {
        return string_from_chars(&cs);
    }
    let mut out: Vec<char> = Vec::new();
    let mut i: usize = 0;
    while i < width - 3
        invariant
            width >= 3,
            width < cs.len(),
            i <= width - 3,
            out@ == cs@.subrange(0, i as int),
        decreases width - 3 - i,
    {
        out.push(cs[i]);
        assert(out@ =~= cs@.subrange(0, i + 1));
        i += 1;
    }
    let dots = chars_of("...");
    let mut j: usize = 0;
    let ghost head = out@;
    while j < dots.len()
        invariant
            j <= dots.len(),
            out@ == head + dots@.subrange(0, j as int),
        decreases dots.len() - j,
    {
        out.push(dots[j]);
        assert(out@ =~= head + dots@.subrange(0, j + 1));
        j += 1;
    }
    assert(dots@.subrange(0, j as int) =~= dots@);
    string_from_chars(&out)
}

/// `s` without every leading copy of the command output mark.
pub open spec fn strip_marks(s: Seq<char>) -> Seq<char>
    decreases s.len(),
{
    if history_mark().len() > 0 && has_prefix(s, history_mark()) {
        strip_marks(s.subrange(history_mark().len() as int, s.len() as int))
    } else {
        s
    }
}

/// A line of command output without its marks, or nothing for another line.
pub fn command_output_line(text: &str) -> (r: Option<String>)
    ensures
        has_prefix(text@, history_mark()) ==> r is Some && r->Some_0@ == strip_marks(text@),
        !has_prefix(text@, history_mark()) ==> r is None,
{
    let mark = chars_of("__HISTORY_OUTPUT__");
    proof {
        reveal_strlit("__HISTORY_OUTPUT__");
    }
    let mut cs = chars_of(text);
    if !starts_with(&cs, &mark) {
        return None;
    }
    let ghost orig = cs@;
    while starts_with(&cs, &mark)
        invariant
            mark@ == history_mark(),
            mark@.len() == 18,
            strip_marks(cs@) == strip_marks(orig),
        decreases cs@.len(),
    {
        let mut rest: Vec<char> = Vec::new();
        let mut i: usize = mark.len();
        while i < cs.len()
            invariant
                mark.len() <= i <= cs.len(),
                rest@ == cs@.subrange(mark.len() as int, i as int),
            decreases cs.len() - i,
        {
            rest.push(cs[i]);
            assert(rest@ =~= cs@.subrange(mark.len() as int, i + 1));
            i += 1;
        }
        cs = rest;
    }
    Some(string_from_chars(&cs))
}

/// The level column of a log line: the level's name in capitals, padded to
/// five characters.
pub open spec fn level_column(level: LogLevel) -> Seq<char> {
    match level {
        LogLevel::Error => "ERROR"@,
        LogLevel::Warn => "WARN "@,
        LogLevel::Info => "INFO "@,
        LogLevel::Debug => "DEBUG"@,
        LogLevel::Trace => "TRACE"@,
    }
}

/// The level column of a log line.
pub fn level_text(level: LogLevel) -> (r: String)
    ensures
        r@ == level_column(level),
{
    match level {
        LogLevel::Error => String::from_str("ERROR"),
        LogLevel::Warn => String::from_str("WARN "),
        LogLevel::Info => String::from_str("INFO "),
        LogLevel::Debug => String::from_str("DEBUG"),
        LogLevel::Trace => String::from_str("TRACE"),
    }
}

} // verus!
