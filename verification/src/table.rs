//! Selection state for a scrollable table of rows: a cursor that wraps
//! around both ends of the list and a scroll offset kept proportional to it.

use vstd::prelude::*;

verus! {

/// Height of one rendered row; the scroll offset advances by this much per row.
pub const ITEM_HEIGHT: usize = 3;

/// A list of rows together with the cursor and scroll bookkeeping of the
/// table that shows them. The rendering itself is a collaborator outside
/// this crate; it only reads `items`, `cursor` and `scroll_offset`.
pub struct BaseTable<T> {
    pub items: Vec<T>,
    pub cursor: Option<usize>,
    pub scroll_offset: usize,
}

impl<T> BaseTable<T> {
    /// Well-formedness: the cursor stays inside the list, the scroll offset
    /// is derived from it, and the whole list can be measured in row heights
    /// without overflowing.
    pub open spec fn wf(&self) -> bool {
        &&& self.items@.len() * ITEM_HEIGHT <= usize::MAX
        &&& match self.cursor {
            Some(i) => i < self.items@.len() && self.scroll_offset == i * ITEM_HEIGHT,
            None => self.scroll_offset == 0,
        }
    }

    /// The row the cursor lands on after one step down.
    pub open spec fn next_index(self) -> int {
        match self.cursor {
            None => 0,
            Some(c) => if c + 1 >= self.items@.len() {
                0
            } else {
                c + 1
            },
        }
    }

    /// The row the cursor lands on after one step up.
    pub open spec fn prev_index(self) -> int {
        match self.cursor {
            None => 0,
            Some(c) => if c == 0 {
                self.items@.len() - 1
            } else {
                c - 1
            },
        }
    }

    /// The table after one step down: the cursor wraps past the last row to
    /// the first; an empty table stays unselected.
    pub open spec fn spec_next(self) -> Self {
        if self.items@.len() == 0 {
            BaseTable { items: self.items, cursor: None, scroll_offset: 0 }
        } else {
            BaseTable {
                items: self.items,
                cursor: Some(self.next_index() as usize),
                scroll_offset: (self.next_index() * ITEM_HEIGHT) as usize,
            }
        }
    }

    /// The table after one step up: the cursor wraps past the first row to
    /// the last; an empty table stays unselected.
    pub open spec fn spec_prev(self) -> Self {
        if self.items@.len() == 0 {
            BaseTable { items: self.items, cursor: None, scroll_offset: 0 }
        } else {
            BaseTable {
                items: self.items,
                cursor: Some(self.prev_index() as usize),
                scroll_offset: (self.prev_index() * ITEM_HEIGHT) as usize,
            }
        }
    }

    /// Create a table over `items` with the first row selected, or with no
    /// selection when the list is empty.
    pub fn new(items: Vec<T>) -> (t: Self)
        requires
            items@.len() * ITEM_HEIGHT <= usize::MAX,
        ensures
            t.wf(),
            t.items == items,
            t.cursor == if items@.len() > 0 {
                Some(0usize)
            } else {
                None::<usize>
            },
            t.scroll_offset == 0,
    {
        let cursor = if items.len() > 0 {
            Some(0)
        } else {
            None
        };
        BaseTable { items, cursor, scroll_offset: 0 }
    }

    /// Move the selection one row down, wrapping to the first row past the
    /// end. On an empty table this is a no-op that leaves the cursor at
    /// `None`.
    pub fn next_row(&mut self)
        requires
            old(self).wf(),
        ensures
            *final(self) == old(self).spec_next(),
            final(self).wf(),
    {
        let n = self.items.len();
        if n == 0 {
            self.cursor = None;
            self.scroll_offset = 0;
            return;
        }
        let i = match self.cursor {
            Some(c) => if c >= n - 1 {
                0
            } else {
                c + 1
            },
            None => 0,
        };
        self.cursor = Some(i);
        self.scroll_offset = i * ITEM_HEIGHT;
    }

    /// Move the selection one row up, wrapping to the last row past the
    /// start. On an empty table this is a no-op that leaves the cursor at
    /// `None`.
    pub fn previous_row(&mut self)
        requires
            old(self).wf(),
        ensures
            *final(self) == old(self).spec_prev(),
            final(self).wf(),
    {
        let n = self.items.len();
        if n == 0 {
            self.cursor = None;
            self.scroll_offset = 0;
            return;
        }
        let i = match self.cursor {
            Some(c) => if c == 0 {
                n - 1
            } else {
                c - 1
            },
            None => 0,
        };
        self.cursor = Some(i);
        self.scroll_offset = i * ITEM_HEIGHT;
    }
}

} // verus!
