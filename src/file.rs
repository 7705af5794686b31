use vstd::prelude::*;

verus! {

/// A position in the file: a byte offset and the zero-based index of the line there.
#[derive(Clone, Copy, PartialEq, Eq, Structural, Debug)]
pub struct FileCursorItem {
    pub cursor: u64,
    pub line_index: u64,
}

/// The navigation state: five markers and the number of lines shown per page.
#[derive(Clone, Copy, PartialEq, Eq, Structural, Debug)]
pub struct FileCursor {
    pub window_size: usize,
    pub prev_line: FileCursorItem,
    pub prev_page: FileCursorItem,
    pub current_line: FileCursorItem,
    pub next_line: FileCursorItem,
    pub next_page: FileCursorItem,
}

pub open spec fn origin() -> FileCursorItem {
    FileCursorItem { cursor: 0, line_index: 0 }
}

/// The cursor `c` with `m` promoted to the current line, every other marker kept.
pub open spec fn with_current(c: FileCursor, m: FileCursorItem) -> FileCursor {
    FileCursor { current_line: m, ..c }
}

impl FileCursor {
    /// A cursor at the start of the file, every marker at offset 0 and line 0.
    pub fn new(window_size: usize) -> (r: FileCursor)
        ensures
            r.window_size == window_size,
            r.prev_line == origin(),
            r.prev_page == origin(),
            r.current_line == origin(),
            r.next_line == origin(),
            r.next_page == origin(),
    {
        FileCursor {
            window_size,
            prev_line: FileCursorItem { cursor: 0, line_index: 0 },
            prev_page: FileCursorItem { cursor: 0, line_index: 0 },
            current_line: FileCursorItem { cursor: 0, line_index: 0 },
            next_line: FileCursorItem { cursor: 0, line_index: 0 },
            next_page: FileCursorItem { cursor: 0, line_index: 0 },
        }
    }

    /// A copy of `source`, field by field.
    pub fn from(source: FileCursor) -> (r: FileCursor)
        ensures
            r == source,
    {
        FileCursor {
            window_size: source.window_size,
            prev_line: source.prev_line,
            prev_page: source.prev_page,
            current_line: source.current_line,
            next_line: source.next_line,
            next_page: source.next_page,
        }
    }

    /// Moves the current line to the previous line.
    pub fn to_prev_line(self) -> (r: FileCursor)
        ensures
            r == with_current(self, self.prev_line),
    {
        let mut next = Self::from(self);
        next.current_line = self.prev_line;
        next
    }

    /// Moves the current line to the start of the previous page.
    pub fn to_prev_page(self) -> (r: FileCursor)
        ensures
            r == with_current(self, self.prev_page),
    {
        let mut next = Self::from(self);
        next.current_line = self.prev_page;
        next
    }

    /// Moves the current line to the next line.
    pub fn to_next_line(self) -> (r: FileCursor)
        ensures
            r == with_current(self, self.next_line),
    {
        let mut next = Self::from(self);
        next.current_line = self.next_line;
        next
    }

    /// Moves the current line to the start of the next page.
    pub fn to_next_page(self) -> (r: FileCursor)
        ensures
            r == with_current(self, self.next_page),
    {
        let mut next = Self::from(self);
        next.current_line = self.next_page;
        next
    }
}

} // verus!
