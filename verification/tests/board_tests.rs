use tasklist::board::TaskBoard;
use tasklist::command::Command;
use tasklist::command::Session;

fn strings(items: &[&str]) -> Vec<String> {
    items.iter().map(|s| s.to_string()).collect()
}

#[test]
fn with_pending_selects_first_task() {
    let b = TaskBoard::with_pending(strings(&["a", "b"]));
    assert_eq!(b.pending.selected(), Some(0));
    assert_eq!(b.completed.len(), 0);
    assert_eq!(b.completed.selected(), None);
}

#[test]
fn with_pending_empty_has_no_selection() {
    let b = TaskBoard::with_pending(strings(&[]));
    assert_eq!(b.pending.selected(), None);
    assert_eq!(b.pending.len(), 0);
}

#[test]
fn add_task_to_empty_board() {
    // pending = []; addTask("buy milk") leaves pending = ["buy milk"].
    let mut b = TaskBoard::with_pending(strings(&[]));
    b.add_task("buy milk".to_string());
    assert_eq!(b.pending.items(), &strings(&["buy milk"]));
    assert_eq!(b.completed.len(), 0);
}

#[test]
fn add_task_accepts_empty_text() {
    let mut b = TaskBoard::with_pending(strings(&["a"]));
    b.add_task(String::new());
    assert_eq!(b.pending.items(), &strings(&["a", ""]));
}

#[test]
fn complete_selected_moves_the_task() {
    // pending = ["a","b","c"] with "b" selected; completing it leaves
    // pending = ["a","c"] selected at "a" and completed = ["b"].
    let mut b = TaskBoard::with_pending(strings(&["a", "b", "c"]));
    b.pending.next();
    assert_eq!(b.pending.selected(), Some(1));
    b.complete_selected();
    assert_eq!(b.pending.items(), &strings(&["a", "c"]));
    assert_eq!(b.pending.selected(), Some(0));
    assert_eq!(b.pending.get(0), "a");
    assert_eq!(b.completed.items(), &strings(&["b"]));
}

#[test]
fn complete_selected_conserves_the_total() {
    let mut b = TaskBoard::with_pending(strings(&["a", "b", "c"]));
    let total = b.pending.len() + b.completed.len();
    b.complete_selected();
    assert_eq!(b.pending.len() + b.completed.len(), total);
    b.complete_selected();
    assert_eq!(b.pending.len() + b.completed.len(), total);
}

#[test]
fn complete_without_selection_is_a_noop() {
    let mut b = TaskBoard::with_pending(strings(&[]));
    b.complete_selected();
    assert_eq!(b.pending.len(), 0);
    assert_eq!(b.completed.len(), 0);
}

#[test]
fn complete_last_pending_task_clears_selection() {
    let mut b = TaskBoard::with_pending(strings(&["only"]));
    b.complete_selected();
    assert_eq!(b.pending.len(), 0);
    assert_eq!(b.pending.selected(), None);
    assert_eq!(b.completed.items(), &strings(&["only"]));
}

#[test]
fn remove_selected_deletes_permanently() {
    // pending = ["x"] selected at 0; removing leaves an empty list with no
    // selection, and a later move keeps it that way.
    let mut b = TaskBoard::with_pending(strings(&["x"]));
    let removed = b.remove_selected();
    assert_eq!(removed, Some("x".to_string()));
    assert_eq!(b.pending.len(), 0);
    assert_eq!(b.pending.selected(), None);
    assert_eq!(b.completed.len(), 0);
    b.pending.next();
    assert_eq!(b.pending.selected(), None);
}

#[test]
fn session_navigates_with_commands() {
    let mut s = Session::start(strings(&["a", "b", "c"]));
    assert!(!s.on_command(Command::MoveNext));
    assert_eq!(s.board.pending.selected(), Some(1));
    assert!(!s.on_command(Command::MovePrevious));
    assert_eq!(s.board.pending.selected(), Some(0));
}

#[test]
fn session_composes_and_commits_a_task() {
    let mut s = Session::start(strings(&[]));
    assert!(!s.composing);
    s.on_command(Command::BeginAddItem);
    assert!(s.composing);
    // While composing, list commands are absorbed.
    s.on_command(Command::MoveNext);
    s.on_command(Command::RemoveSelected);
    assert_eq!(s.board.pending.len(), 0);
    s.on_command(Command::CommitAddItem("buy milk".to_string()));
    assert!(!s.composing);
    assert_eq!(s.board.pending.items(), &strings(&["buy milk"]));
}

#[test]
fn session_cancel_drops_the_composed_task() {
    let mut s = Session::start(strings(&["a"]));
    s.on_command(Command::BeginAddItem);
    s.on_command(Command::CancelAddItem);
    assert!(!s.composing);
    assert_eq!(s.board.pending.items(), &strings(&["a"]));
}

#[test]
fn session_quit_only_outside_composing() {
    let mut s = Session::start(strings(&["a"]));
    s.on_command(Command::BeginAddItem);
    assert!(!s.on_command(Command::Quit));
    s.on_command(Command::CancelAddItem);
    assert!(s.on_command(Command::Quit));
    assert_eq!(s.board.pending.items(), &strings(&["a"]));
}

#[test]
fn session_completes_and_removes() {
    let mut s = Session::start(strings(&["a", "b"]));
    s.on_command(Command::CompleteSelected);
    assert_eq!(s.board.pending.items(), &strings(&["b"]));
    assert_eq!(s.board.completed.items(), &strings(&["a"]));
    s.on_command(Command::RemoveSelected);
    assert_eq!(s.board.pending.len(), 0);
    assert_eq!(s.board.completed.items(), &strings(&["a"]));
}
