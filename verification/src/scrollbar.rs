//! State of the scrollbar drawn beside each table: how many items the list
//! holds, how many header rows precede it, and which item is selected.
//! Drawing itself happens outside the library.

use vstd::prelude::*;

verus! {

/// Scrollbar geometry, filled in builder style.
#[derive(Clone, Copy, Debug, PartialEq, Eq, Structural, Default)]
pub struct RightScrollbar {
    pub items: usize,
    pub header: usize,
    pub selected: usize,
}

impl RightScrollbar {
    /// Sets the number of items the scrolled list holds.
    pub fn items(self, items: usize) -> (r: Self)
        ensures
            r == (RightScrollbar { items, ..self }),
    {
        RightScrollbar { items, ..self }
    }

    /// Sets the number of header rows above the list.
    pub fn header(self, header: usize) -> (r: Self)
        ensures
            r == (RightScrollbar { header, ..self }),
    {
        RightScrollbar { header, ..self }
    }

    /// Sets the selected item; no selection counts as the first item.
    pub fn selected(self, idx: Option<usize>) -> (r: Self)
        ensures
            r == (RightScrollbar {
                selected: match idx {
                    Some(v) => v,
                    None => 0,
                },
                ..self
            }),
    {
        match idx {
            Some(v) => RightScrollbar { selected: v, ..self },
            None => RightScrollbar { selected: 0, ..self },
        }
    }
}

} // verus!
