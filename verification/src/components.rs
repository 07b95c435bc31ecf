//! Scrolling state shared with the listing widgets above the backend.

use vstd::prelude::*;

verus! {

/// A page movement requested by the user.
#[derive(Debug, Clone, Copy, PartialEq, Eq, Structural)]
pub enum PageMovement {
    Up(usize),
    Right(usize),
    Left(usize),
    Down(usize),
    PageUp(usize),
    PageDown(usize),
    Home,
    End,
}

/// What part of a listing is on screen.
#[derive(Debug, Clone, Copy, PartialEq, Eq, Structural)]
pub struct ScrollContext {
    pub shown_lines: usize,
    pub total_lines: usize,
    pub has_more_lines: bool,
}

impl ScrollContext {
    /// A view showing everything has nothing more to scroll to.
    pub fn new(shown_lines: usize, total_lines: usize) -> (r: ScrollContext)
        ensures
            r.shown_lines == shown_lines,
            r.total_lines == total_lines,
            r.has_more_lines == (shown_lines < total_lines),
    {
        ScrollContext { shown_lines, total_lines, has_more_lines: shown_lines < total_lines }
    }
}

} // verus!
