use vstd::prelude::*;

verus! {

/// The pager's command line: an optional bound on lines per page, and the file to show.
pub struct Args {
    pub lines: Option<i32>,
    pub path: String,
}

/// The rows left for content on a terminal `height` rows tall: all but two.
pub open spec fn content_rows(height: u16) -> int {
    height - 2
}

/// Lines per page: the requested bound where one was given, but never more than
/// the content rows of a terminal `height` rows tall.
pub open spec fn window_size_for(lines: Option<i32>, height: u16) -> int {
    match lines {
        Some(l) if l < content_rows(height) => l as int,
        _ => content_rows(height),
    }
}

impl Args {
    /// Lines per page on a terminal `height` rows tall.
    pub fn window_size(&self, height: u16) -> (r: i32)
        ensures
            r == window_size_for(self.lines, height),
    {
        let rows: i32 = height as i32 - 2;
        match self.lines {
            Some(l) => if l < rows {
                l
            } else {
                rows
            },
            None => rows,
        }
    }
}

} // verus!
