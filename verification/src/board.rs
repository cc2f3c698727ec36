//! The task-lifecycle state machine: a pending list and a completed list,
//! with add, complete-selected and remove-selected operations. A task moves
//! from pending to completed in one step, so no task is ever duplicated or
//! lost on completion.

use vstd::prelude::*;

verus! {

use crate::list::SelectableList;

/// The two task lists. `pending` is the working list and the only persisted
/// one; `completed` holds what was finished during the current session.
pub struct TaskBoard {
    pub pending: SelectableList<String>,
    pub completed: SelectableList<String>,
}

impl TaskBoard {
    /// Both cursors stay inside their lists.
    pub open spec fn wf(&self) -> bool {
        self.pending.wf() && self.completed.wf()
    }

    /// Builds a board from the loaded pending tasks, with the first pending
    /// task selected when there is one, and an empty completed list.
    pub fn with_pending(items: Vec<String>) -> (r: TaskBoard)
        ensures
            r.pending.elems() == items@,
            r.pending.sel() == (if items@.len() > 0 {
                Some(0usize)
            } else {
                None::<usize>
            }),
            r.completed.elems() == Seq::<String>::empty(),
            r.completed.sel() is None,
            r.wf(),
    {
        let mut pending = SelectableList::with_items(items);
        pending.select_first();
        TaskBoard { pending, completed: SelectableList::with_items(Vec::new()) }
    }

    /// Appends a new task to the pending list. Any text is accepted, the
    /// empty string included, as the interactive session never rejects what
    /// the user typed; the selection does not move.
    pub fn add_task(&mut self, text: String)
        requires
            old(self).wf(),
        ensures
            final(self).pending.elems() == old(self).pending.elems().push(text),
            final(self).pending.sel() == old(self).pending.sel(),
            final(self).completed.elems() == old(self).completed.elems(),
            final(self).completed.sel() == old(self).completed.sel(),
            final(self).wf(),
    {
        self.pending.append(text);
    }

    /// Moves the selected pending task to the end of the completed list and
    /// resets the pending cursor to index 0 (or to "none" when the pending
    /// list becomes empty). A silent no-op when nothing is selected. One item
    /// relocates and none is duplicated or lost: the combined size of the two
    /// lists is unchanged whenever a selection exists.
    pub fn complete_selected(&mut self)
        requires
            old(self).wf(),
        ensures
            final(self).wf(),
            match old(self).pending.sel() {
                Some(i) => {
                    &&& final(self).pending.elems() == old(self).pending.elems().remove(i as int)
                    &&& final(self).completed.elems() == old(self).completed.elems().push(
                        old(self).pending.elems()[i as int],
                    )
                    &&& final(self).pending.sel() == (if old(self).pending.elems().len() > 1 {
                        Some(0usize)
                    } else {
                        None::<usize>
                    })
                    &&& final(self).completed.sel() == old(self).completed.sel()
                    &&& final(self).pending.elems().len() + final(self).completed.elems().len()
                        == old(self).pending.elems().len() + old(self).completed.elems().len()
                },
                None => {
                    &&& final(self).pending.elems() == old(self).pending.elems()
                    &&& final(self).pending.sel() == old(self).pending.sel()
                    &&& final(self).completed.elems() == old(self).completed.elems()
                    &&& final(self).completed.sel() == old(self).completed.sel()
                },
            },
    {
        match self.pending.remove_selected() {
            Some(item) => self.completed.append(item),
            None => {},
        }
    }

    /// Permanently deletes the selected pending task and returns it; there is
    /// no undo. A silent no-op returning `None` when nothing is selected.
    pub fn remove_selected(&mut self) -> (r: Option<String>)
        requires
            old(self).wf(),
        ensures
            final(self).wf(),
            final(self).completed.elems() == old(self).completed.elems(),
            final(self).completed.sel() == old(self).completed.sel(),
            match old(self).pending.sel() {
                Some(i) => {
                    &&& r matches Some(x) && x == old(self).pending.elems()[i as int]
                    &&& final(self).pending.elems() == old(self).pending.elems().remove(i as int)
                    &&& final(self).pending.sel() == (if old(self).pending.elems().len() > 1 {
                        Some(0usize)
                    } else {
                        None::<usize>
                    })
                },
                None => {
                    &&& final(self).pending.elems() == old(self).pending.elems()
                    &&& final(self).pending.sel() == old(self).pending.sel()
                    &&& r is None
                },
            },
    {
        self.pending.remove_selected()
    }
}

} // verus!
