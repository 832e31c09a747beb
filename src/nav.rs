//! Navigation rules of the viewer: result selection, page scrolling, the
//! search box and the history list.
use vstd::prelude::*;

verus! {

/// Lines kept on screen when scrolled to the end of a page.
pub const PAGE_TAIL: usize = 10;

/// Entries kept in the history.
pub const MAX_HISTORY: usize = 100;

/// The selection after moving down a list of `len` entries, wrapping from
/// the last to the first; an empty list keeps the selection.
pub open spec fn next_spec(selected: Option<usize>, len: usize) -> Option<usize> {
    if len == 0 {
        selected
    } else {
        match selected {
            Some(i) => if i >= len - 1 {
                Some(0)
            } else {
                Some((i + 1) as usize)
            },
            None => Some(0),
        }
    }
}

pub fn next_index(selected: Option<usize>, len: usize) -> (r: Option<usize>)
    ensures
        r == next_spec(selected, len),
{
    if len == 0 {
        return selected;
    }
    match selected {
        Some(i) => if i >= len - 1 {
            Some(0)
        } else {
            Some(i + 1)
        },
        None => Some(0),
    }
}

/// The selection after moving up, wrapping from the first to the last.
pub open spec fn previous_spec(selected: Option<usize>, len: usize) -> Option<usize> {
    if len == 0 {
        selected
    } else {
        match selected {
            Some(i) => if i == 0 {
                Some((len - 1) as usize)
            } else {
                Some((i - 1) as usize)
            },
            None => Some(0),
        }
    }
}

pub fn previous_index(selected: Option<usize>, len: usize) -> (r: Option<usize>)
    ensures
        r == previous_spec(selected, len),
{
    if len == 0 {
        return selected;
    }
    match selected {
        Some(i) => if i == 0 {
            Some(len - 1)
        } else {
            Some(i - 1)
        },
        None => Some(0),
    }
}

/// The furthest a page of `lines` lines scrolls.
pub open spec fn scroll_limit(lines: usize) -> int {
    if lines > PAGE_TAIL {
        lines - PAGE_TAIL
    } else {
        0
    }
}

pub fn scroll_bottom(lines: usize) -> (r: usize)
    ensures
        r == scroll_limit(lines),
{
    lines.saturating_sub(PAGE_TAIL)
}

/// Scrolls down by `amount`, stopping at `scroll_limit(lines)`.
pub fn scroll_down(scroll: usize, amount: usize, lines: usize) -> (r: usize)
    ensures
        r == if scroll + amount < scroll_limit(lines) {
            scroll + amount
        } else {
            scroll_limit(lines)
        },
{
    let limit = scroll_bottom(lines);
    if scroll < limit && amount < limit - scroll {
        scroll + amount
    } else {
        limit
    }
}

/// Scrolls up by `amount`, stopping at the top.
pub fn scroll_up(scroll: usize, amount: usize) -> (r: usize)
    ensures
        r == if scroll >= amount {
            scroll - amount
        } else {
            0
        },
{
    scroll.saturating_sub(amount)
}

/// Index of the last of `len` history entries (0 when there are none).
pub open spec fn last_entry(len: usize) -> int {
    if len > 0 {
        len - 1
    } else {
        0
    }
}

/// Moves the first shown history entry `step` entries down, stopping at the
/// last entry.
pub fn history_down(offset: usize, step: usize, len: usize) -> (r: usize)
    ensures
        r == if offset + step <= last_entry(len) {
            offset + step
        } else {
            last_entry(len)
        },
{
    let last = len.saturating_sub(1);
    if offset <= last && step <= last - offset {
        offset + step
    } else {
        last
    }
}

/// Puts `entry` first in `history` and keeps at most `MAX_HISTORY` entries.
pub fn record<T>(history: &mut Vec<T>, entry: T)
    ensures
        final(history)@ == (seq![entry] + old(history)@).take(
            if old(history)@.len() + 1 <= MAX_HISTORY {
                (old(history)@.len() + 1) as int
            } else {
                MAX_HISTORY as int
            },
        ),
{
    history.insert(0, entry);
    history.truncate(MAX_HISTORY);
    assert(history@ =~= (seq![entry] + old(history)@).take(
        if old(history)@.len() + 1 <= MAX_HISTORY {
            (old(history)@.len() + 1) as int
        } else {
            MAX_HISTORY as int
        },
    ));
}

/// The text typed into the search box, with a cursor between characters.
pub struct SearchInput {
    text: Vec<char>,
    cursor: usize,
}

impl SearchInput {
    pub closed spec fn chars(&self) -> Seq<char> {
        self.text@
    }

    pub closed spec fn cursor_spec(&self) -> nat {
        self.cursor as nat
    }

    pub open spec fn wf(&self) -> bool {
        self.cursor_spec() <= self.chars().len()
    }

    pub fn new() -> (r: SearchInput)
        ensures
            r.wf(),
            r.chars() == Seq::<char>::empty(),
            r.cursor_spec() == 0,
    {
        SearchInput { text: Vec::new(), cursor: 0 }
    }

    pub fn cursor(&self) -> (r: usize)
        ensures
            r == self.cursor_spec(),
    {
        self.cursor
    }

    pub fn is_empty(&self) -> (r: bool)
        ensures
            r == (self.chars().len() == 0),
    {
        self.text.len() == 0
    }

    pub fn text(&self) -> (r: String)
        ensures
            r@ == self.chars(),
    {
        crate::text::string_of(&self.text)
    }

    /// Inserts `c` at the cursor and moves the cursor past it.
    pub fn insert_char(&mut self, c: char)
        requires
            old(self).wf(),
        ensures
            final(self).wf(),
            final(self).chars() == old(self).chars().insert(old(self).cursor_spec() as int, c),
            final(self).cursor_spec() == old(self).cursor_spec() + 1,
    {
        self.text.insert(self.cursor, c);
        let n = self.text.len();
        assert(self.cursor < n);
        self.cursor = self.cursor + 1;
    }

    /// Deletes the character before the cursor, if any.
    pub fn delete_char(&mut self)
        requires
            old(self).wf(),
        ensures
            final(self).wf(),
            old(self).cursor_spec() == 0 ==> final(self).chars() == old(self).chars()
                && final(self).cursor_spec() == 0,
            old(self).cursor_spec() > 0 ==> final(self).chars() == old(self).chars().remove(
                old(self).cursor_spec() - 1,
            ) && final(self).cursor_spec() == old(self).cursor_spec() - 1,
    {
        if self.cursor > 0 {
            self.cursor = self.cursor - 1;
            self.text.remove(self.cursor);
        }
    }

    pub fn move_cursor_left(&mut self)
        requires
            old(self).wf(),
        ensures
            final(self).wf(),
            final(self).chars() == old(self).chars(),
            final(self).cursor_spec() == if old(self).cursor_spec() > 0 {
                old(self).cursor_spec() - 1
            } else {
                0
            },
    {
        if self.cursor > 0 {
            self.cursor = self.cursor - 1;
        }
    }

    pub fn move_cursor_right(&mut self)
        requires
            old(self).wf(),
        ensures
            final(self).wf(),
            final(self).chars() == old(self).chars(),
            final(self).cursor_spec() == if old(self).cursor_spec() < old(self).chars().len() {
                old(self).cursor_spec() + 1
            } else {
                old(self).cursor_spec()
            },
    {
        if self.cursor < self.text.len() {
            self.cursor = self.cursor + 1;
        }
    }
}

} // verus!
