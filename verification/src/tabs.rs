//! The tabs of the dock: filter views and the bookmarks view.

use vstd::prelude::*;

verus! {

/// What a tab shows: the filter with the given index, or the bookmarks.
#[derive(Clone, Copy, Debug, PartialEq, Eq, Structural)]
pub enum TabType {
    Filter(usize),
    Bookmarks,
}

/// Tab content for the dock system
pub struct TabContent {
    pub tab_type: TabType,
    pub title: String,
}

} // verus!
