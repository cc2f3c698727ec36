//! An order-preserving list of items with at most one selected index and
//! circular, removal-safe cursor navigation.

use vstd::prelude::*;

verus! {

/// The selection index that circular forward navigation yields.
pub open spec fn sel_after_next(sel: Option<usize>, len: nat) -> Option<usize> {
    if len == 0 {
        sel
    } else {
        match sel {
            None => Some(0usize),
            Some(i) => if i + 1 < len {
                Some((i + 1) as usize)
            } else {
                Some(0usize)
            },
        }
    }
}

/// The selection index that circular backward navigation yields.
pub open spec fn sel_after_previous(sel: Option<usize>, len: nat) -> Option<usize> {
    if len == 0 {
        sel
    } else {
        match sel {
            None => Some(0usize),
            Some(i) => if i == 0 {
                Some((len - 1) as usize)
            } else {
                Some((i - 1) as usize)
            },
        }
    }
}

/// The selection after `n` forward moves in a row.
pub open spec fn sel_after_nexts(sel: Option<usize>, len: nat, n: nat) -> Option<usize>
    decreases n,
{
    if n == 0 {
        sel
    } else {
        sel_after_next(sel_after_nexts(sel, len, (n - 1) as nat), len)
    }
}

proof fn lemma_next_iter_form(i: usize, len: nat, k: nat)
    requires
        len <= usize::MAX,
        (i as nat) < len,
        k <= len,
    ensures
        sel_after_nexts(Some(i), len, k) == Some(
            (if i as int + k < len {
                i as int + k
            } else {
                i as int + k - len
            }) as usize,
        ),
    decreases k,
{
    if k > 0 {
        lemma_next_iter_form(i, len, (k - 1) as nat);
    }
}

/// Circularity: in a non-empty list, exactly `len` forward moves return the
/// selection to the index where it began.
pub proof fn lemma_next_circular(i: usize, len: nat)
    requires
        len <= usize::MAX,
        (i as nat) < len,
    ensures
        sel_after_nexts(Some(i), len, len) == Some(i),
{
    lemma_next_iter_form(i, len, len);
}

/// A backward move directly followed by a forward move restores the original
/// selection of a non-empty list, and the other way round.
pub proof fn lemma_next_previous_inverse(i: usize, len: nat)
    requires
        len <= usize::MAX,
        (i as nat) < len,
    ensures
        sel_after_next(sel_after_previous(Some(i), len), len) == Some(i),
        sel_after_previous(sel_after_next(Some(i), len), len) == Some(i),
{
}

/// On an empty, well-formed list a forward or backward move leaves the
/// selection at "none".
pub proof fn lemma_empty_list_navigation<T>(l: SelectableList<T>)
    requires
        l.wf(),
        l.elems().len() == 0,
    ensures
        sel_after_next(l.sel(), 0) is None,
        sel_after_previous(l.sel(), 0) is None,
{
}

/// An ordered sequence of items with an optional cursor. The cursor, when
/// present, always points inside the sequence; every mutation repairs it
/// rather than leaving a dangling index.
pub struct SelectableList<T> {
    items: Vec<T>,
    selected: Option<usize>,
}

impl<T> SelectableList<T> {
    /// The items, in order.
    pub closed spec fn elems(&self) -> Seq<T> {
        self.items@
    }

    /// The selected index, if any.
    pub closed spec fn sel(&self) -> Option<usize> {
        self.selected
    }

    /// The cursor never points past the end of the list.
    pub open spec fn wf(&self) -> bool {
        self.sel() matches Some(i) ==> (i as nat) < self.elems().len()
    }

    /// Builds a list holding `items` in the given order, with no selection.
    pub fn with_items(items: Vec<T>) -> (r: SelectableList<T>)
        ensures
            r.elems() == items@,
            r.sel() is None,
            r.wf(),
    {
        SelectableList { items, selected: None }
    }

    /// How many items the list holds.
    pub fn len(&self) -> (r: usize)
        ensures
            r == self.elems().len(),
    {
        self.items.len()
    }

    /// The selected index, if any.
    pub fn selected(&self) -> (r: Option<usize>)
        ensures
            r == self.sel(),
    {
        self.selected
    }

    /// The items, in order, for rendering or inspection.
    pub fn items(&self) -> (r: &Vec<T>)
        ensures
            r@ == self.elems(),
    {
        &self.items
    }

    /// The item at index `i`.
    pub fn get(&self, i: usize) -> (r: &T)
        requires
            (i as nat) < self.elems().len(),
        ensures
            *r == self.elems()[i as int],
    {
        &self.items[i]
    }

    /// Moves the selection one step forward, wrapping from the last index to
    /// the first; selects index 0 when nothing was selected. Does nothing on
    /// an empty list.
    pub fn next(&mut self)
        requires
            old(self).wf(),
        ensures
            final(self).elems() == old(self).elems(),
            final(self).sel() == sel_after_next(old(self).sel(), old(self).elems().len()),
            final(self).wf(),
    {
        if self.items.len() != 0 {
            let i: usize = match self.selected {
                Some(i) => if i >= self.items.len() - 1 {
                    0
                } else {
                    i + 1
                },
                None => 0,
            };
            self.selected = Some(i);
        }
    }

    /// Moves the selection one step backward, wrapping from index 0 to the
    /// last index; selects index 0 when nothing was selected. Does nothing on
    /// an empty list.
    pub fn previous(&mut self)
        requires
            old(self).wf(),
        ensures
            final(self).elems() == old(self).elems(),
            final(self).sel() == sel_after_previous(old(self).sel(), old(self).elems().len()),
            final(self).wf(),
    {
        if self.items.len() != 0 {
            let i: usize = match self.selected {
                Some(i) => if i == 0 {
                    self.items.len() - 1
                } else {
                    i - 1
                },
                None => 0,
            };
            self.selected = Some(i);
        }
    }

    /// Removes and returns the selected item, if there is one, and repairs
    /// the cursor: index 0 when items remain, no selection when the list
    /// becomes empty. With no selection this is a silent no-op returning
    /// `None`, so a stray command never crashes the session.
    pub fn remove_selected(&mut self) -> (r: Option<T>)
        requires
            old(self).wf(),
        ensures
            final(self).wf(),
            match old(self).sel() {
                Some(i) => {
                    &&& r matches Some(x) && x == old(self).elems()[i as int]
                    &&& final(self).elems() == old(self).elems().remove(i as int)
                    &&& final(self).sel() == (if old(self).elems().len() > 1 {
                        Some(0usize)
                    } else {
                        None::<usize>
                    })
                },
                None => {
                    &&& r is None
                    &&& final(self).elems() == old(self).elems()
                    &&& final(self).sel() == old(self).sel()
                },
            },
    {
        match self.selected {
            Some(i) => {
                let item = self.items.remove(i);
                self.selected = if self.items.len() > 0 {
                    Some(0)
                } else {
                    None
                };
                Some(item)
            },
            None => None,
        }
    }

    /// Clears the selection unconditionally.
    pub fn unselect(&mut self)
        ensures
            final(self).elems() == old(self).elems(),
            final(self).sel() is None,
            final(self).wf(),
    {
        self.selected = None;
    }

    /// Appends `item` at the end without touching the selection.
    pub fn append(&mut self, item: T)
        requires
            old(self).wf(),
        ensures
            final(self).elems() == old(self).elems().push(item),
            final(self).sel() == old(self).sel(),
            final(self).wf(),
    {
        self.items.push(item);
    }

    /// Selects index 0 when the list is non-empty, and nothing otherwise.
    pub fn select_first(&mut self)
        ensures
            final(self).elems() == old(self).elems(),
            final(self).sel() == (if old(self).elems().len() > 0 {
                Some(0usize)
            } else {
                None::<usize>
            }),
            final(self).wf(),
    {
        if self.items.len() > 0 {
            self.selected = Some(0);
        } else {
            self.selected = None;
        }
    }
}

} // verus!
