//! What the screen shows of the state, apart from how it is drawn: which rows
//! of the listing are on screen, which row is marked, and which status line
//! is shown.
use vstd::prelude::*;
use crate::state::AppState;

verus! {

/// The rows `start..end` of a listing of `count` rows that are shown when the
/// view is scrolled by `scroll_offset` and `max_items` rows fit: the rows from
/// the offset on, as many as fit.
pub fn visible_range(scroll_offset: usize, count: usize, max_items: usize) -> (r: (usize, usize))
    ensures
        r.0 == (if scroll_offset < count { scroll_offset } else { count }),
        r.1 == r.0 + (if max_items < count - r.0 { max_items as int } else { count - r.0 }),
{
    let start = if scroll_offset < count { scroll_offset } else { count };
    let left = count - start;
    let shown = if max_items < left { max_items } else { left };
    (start, start + shown)
}

/// Whether the `i`-th row on screen is the selected one.
pub fn is_marked_row(scroll_offset: usize, i: usize, selected_index: usize) -> (r: bool)
    ensures
        r == (scroll_offset + i == selected_index),
{
    i <= selected_index && selected_index - i == scroll_offset
}

/// The status line's content.
#[derive(Clone, Copy, Debug, PartialEq, Eq, Structural)]
pub enum Status {
    /// A scan is under way.
    Scanning,
    /// The usage of the mount at this index.
    Usage(usize),
    /// No mount is selected.
    NoDrive,
}

impl AppState {
    /// What the status line shows: that a scan is under way, else the usage
    /// of the selected mount, else that no mount is selected.
    pub fn status(&self) -> (st: Status)
        ensures
            st == (if self.is_scanning {
                Status::Scanning
            } else if self.selected_mount < self.mounts.len() {
                Status::Usage(self.selected_mount)
            } else {
                Status::NoDrive
            }),
    {
        if self.is_scanning {
            Status::Scanning
        } else if self.selected_mount < self.mounts.len() {
            Status::Usage(self.selected_mount)
        } else {
            Status::NoDrive
        }
    }
}

} // verus!
