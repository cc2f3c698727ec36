//! The decisions of the interactive session: one command in, one state
//! change out. The presentation layer reads keys, turns them into commands,
//! hands them here, and re-renders from the resulting state; it performs no
//! list logic of its own.

use vstd::prelude::*;

verus! {

use crate::board::TaskBoard;
use crate::list::sel_after_next;
use crate::list::sel_after_previous;

/// One user command, as the presentation layer reports it.
pub enum Command {
    /// Move the pending selection one step forward.
    MoveNext,
    /// Move the pending selection one step backward.
    MovePrevious,
    /// Start composing the text of a new task.
    BeginAddItem,
    /// Finish composing and add a task with the given text.
    CommitAddItem(String),
    /// Abandon the text being composed.
    CancelAddItem,
    /// Move the selected pending task to the completed list.
    CompleteSelected,
    /// Delete the selected pending task.
    RemoveSelected,
    /// Save and leave the session.
    Quit,
}

/// The state the session keeps between commands: the two task lists and
/// whether the user is currently composing the text of a new task.
pub struct Session {
    pub board: TaskBoard,
    pub composing: bool,
}

impl Session {
    pub open spec fn wf(&self) -> bool {
        self.board.wf()
    }

    /// Opens a session on the loaded pending tasks, not composing.
    pub fn start(pending: Vec<String>) -> (r: Session)
        ensures
            r.board.pending.elems() == pending@,
            r.board.pending.sel() == (if pending@.len() > 0 {
                Some(0usize)
            } else {
                None::<usize>
            }),
            r.board.completed.elems() == Seq::<String>::empty(),
            !r.composing,
            r.wf(),
    {
        Session { board: TaskBoard::with_pending(pending), composing: false }
    }

    /// Applies one command and says whether the session should end. While a
    /// task text is being composed only `CommitAddItem` and `CancelAddItem`
    /// act; outside of composing those two are silent no-ops, as is any
    /// command against a state it cannot apply to — a stray keypress never
    /// ends or corrupts the session.
    pub fn on_command(&mut self, cmd: Command) -> (quit: bool)
        requires
            old(self).wf(),
        ensures
            final(self).wf(),
            quit == (cmd matches Command::Quit && !old(self).composing),
            match cmd {
                Command::MoveNext => {
                    &&& final(self).composing == old(self).composing
                    &&& final(self).board.pending.elems() == old(self).board.pending.elems()
                    &&& final(self).board.pending.sel() == (if old(self).composing {
                        old(self).board.pending.sel()
                    } else {
                        sel_after_next(
                            old(self).board.pending.sel(),
                            old(self).board.pending.elems().len(),
                        )
                    })
                    &&& final(self).board.completed.elems() == old(self).board.completed.elems()
                    &&& final(self).board.completed.sel() == old(self).board.completed.sel()
                },
                Command::MovePrevious => {
                    &&& final(self).composing == old(self).composing
                    &&& final(self).board.pending.elems() == old(self).board.pending.elems()
                    &&& final(self).board.pending.sel() == (if old(self).composing {
                        old(self).board.pending.sel()
                    } else {
                        sel_after_previous(
                            old(self).board.pending.sel(),
                            old(self).board.pending.elems().len(),
                        )
                    })
                    &&& final(self).board.completed.elems() == old(self).board.completed.elems()
                    &&& final(self).board.completed.sel() == old(self).board.completed.sel()
                },
                Command::BeginAddItem => {
                    &&& final(self).composing
                    &&& boards_alike(old(self).board, final(self).board)
                },
                Command::CommitAddItem(text) => {
                    &&& !final(self).composing
                    &&& (if old(self).composing {
                        final(self).board.pending.elems() == old(
                            self,
                        ).board.pending.elems().push(text) && final(self).board.pending.sel()
                            == old(self).board.pending.sel()
                    } else {
                        boards_alike(old(self).board, final(self).board)
                    })
                    &&& final(self).board.completed.elems() == old(self).board.completed.elems()
                    &&& final(self).board.completed.sel() == old(self).board.completed.sel()
                },
                Command::CancelAddItem => {
                    &&& !final(self).composing
                    &&& boards_alike(old(self).board, final(self).board)
                },
                Command::CompleteSelected => {
                    &&& final(self).composing == old(self).composing
                    &&& (if old(self).composing {
                        boards_alike(old(self).board, final(self).board)
                    } else {
                        completion_step(old(self).board, final(self).board)
                    })
                },
                Command::RemoveSelected => {
                    &&& final(self).composing == old(self).composing
                    &&& final(self).board.completed.elems() == old(self).board.completed.elems()
                    &&& final(self).board.completed.sel() == old(self).board.completed.sel()
                    &&& (if old(self).composing {
                        boards_alike(old(self).board, final(self).board)
                    } else {
                        removal_step(
                            old(self).board.pending.elems(),
                            old(self).board.pending.sel(),
                            final(self).board.pending.elems(),
                            final(self).board.pending.sel(),
                        )
                    })
                },
                Command::Quit => {
                    &&& final(self).composing == old(self).composing
                    &&& boards_alike(old(self).board, final(self).board)
                },
            },
    {
        if self.composing {
            match cmd {
                Command::CommitAddItem(text) => {
                    self.composing = false;
                    self.board.add_task(text);
                },
                Command::CancelAddItem => {
                    self.composing = false;
                },
                Command::BeginAddItem => {},
                _ => {},
            }
            false
        } else {
            match cmd {
                Command::MoveNext => {
                    self.board.pending.next();
                    false
                },
                Command::MovePrevious => {
                    self.board.pending.previous();
                    false
                },
                Command::BeginAddItem => {
                    self.composing = true;
                    false
                },
                Command::CommitAddItem(_) => false,
                Command::CancelAddItem => false,
                Command::CompleteSelected => {
                    self.board.complete_selected();
                    false
                },
                Command::RemoveSelected => {
                    self.board.remove_selected();
                    false
                },
                Command::Quit => true,
            }
        }
    }
}

/// Neither list of the two boards differs in items or selection.
pub open spec fn boards_alike(a: TaskBoard, b: TaskBoard) -> bool {
    &&& b.pending.elems() == a.pending.elems()
    &&& b.pending.sel() == a.pending.sel()
    &&& b.completed.elems() == a.completed.elems()
    &&& b.completed.sel() == a.completed.sel()
}

/// What completing the selected pending task does to a board.
pub open spec fn completion_step(a: TaskBoard, b: TaskBoard) -> bool {
    match a.pending.sel() {
        Some(i) => {
            &&& b.pending.elems() == a.pending.elems().remove(i as int)
            &&& b.completed.elems() == a.completed.elems().push(a.pending.elems()[i as int])
            &&& b.pending.sel() == (if a.pending.elems().len() > 1 {
                Some(0usize)
            } else {
                None::<usize>
            })
            &&& b.completed.sel() == a.completed.sel()
        },
        None => boards_alike(a, b),
    }
}

/// What removing the selected task does to a list's items and selection.
pub open spec fn removal_step(
    items: Seq<String>,
    sel: Option<usize>,
    items_after: Seq<String>,
    sel_after: Option<usize>,
) -> bool {
    match sel {
        Some(i) => {
            &&& items_after == items.remove(i as int)
            &&& sel_after == (if items.len() > 1 {
                Some(0usize)
            } else {
                None::<usize>
            })
        },
        None => items_after == items && sel_after == sel,
    }
}

} // verus!
