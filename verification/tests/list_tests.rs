use tasklist::list::SelectableList;

fn strings(items: &[&str]) -> Vec<String> {
    items.iter().map(|s| s.to_string()).collect()
}

#[test]
fn with_items_starts_unselected() {
    let l = SelectableList::with_items(strings(&["a", "b"]));
    assert_eq!(l.selected(), None);
    assert_eq!(l.len(), 2);
    assert_eq!(l.items(), &strings(&["a", "b"]));
}

#[test]
fn next_selects_first_when_unselected() {
    let mut l = SelectableList::with_items(strings(&["a", "b", "c"]));
    l.next();
    assert_eq!(l.selected(), Some(0));
}

#[test]
fn previous_selects_first_when_unselected() {
    let mut l = SelectableList::with_items(strings(&["a", "b", "c"]));
    l.previous();
    assert_eq!(l.selected(), Some(0));
}

#[test]
fn next_wraps_after_len_steps() {
    // Circularity: len calls of next() return to the starting index.
    let mut l = SelectableList::with_items(strings(&["a", "b", "c"]));
    l.select_first();
    l.next();
    assert_eq!(l.selected(), Some(1));
    l.next();
    assert_eq!(l.selected(), Some(2));
    l.next();
    assert_eq!(l.selected(), Some(0));
}

#[test]
fn previous_wraps_to_last() {
    let mut l = SelectableList::with_items(strings(&["a", "b", "c"]));
    l.select_first();
    l.previous();
    assert_eq!(l.selected(), Some(2));
}

#[test]
fn previous_then_next_restores_selection() {
    let mut l = SelectableList::with_items(strings(&["a", "b", "c"]));
    l.select_first();
    l.next();
    assert_eq!(l.selected(), Some(1));
    l.previous();
    l.next();
    assert_eq!(l.selected(), Some(1));
    l.next();
    l.previous();
    assert_eq!(l.selected(), Some(1));
}

#[test]
fn navigation_on_empty_list_is_a_noop() {
    let mut l = SelectableList::with_items(strings(&[]));
    l.next();
    assert_eq!(l.selected(), None);
    l.previous();
    assert_eq!(l.selected(), None);
    assert_eq!(l.len(), 0);
}

#[test]
fn remove_last_item_clears_selection() {
    let mut l = SelectableList::with_items(strings(&["x"]));
    l.select_first();
    let removed = l.remove_selected();
    assert_eq!(removed, Some("x".to_string()));
    assert_eq!(l.len(), 0);
    assert_eq!(l.selected(), None);
    // A later move is still a silent no-op.
    l.next();
    assert_eq!(l.selected(), None);
}

#[test]
fn remove_resets_selection_to_first() {
    // Whatever index was removed, the selection lands on index 0.
    for start in 0..3usize {
        let mut l = SelectableList::with_items(strings(&["a", "b", "c"]));
        l.select_first();
        for _ in 0..start {
            l.next();
        }
        assert_eq!(l.selected(), Some(start));
        let removed = l.remove_selected();
        assert_eq!(removed, Some(["a", "b", "c"][start].to_string()));
        assert_eq!(l.len(), 2);
        assert_eq!(l.selected(), Some(0));
    }
}

#[test]
fn remove_without_selection_is_a_noop() {
    let mut l = SelectableList::with_items(strings(&["a", "b"]));
    assert_eq!(l.remove_selected(), None);
    assert_eq!(l.len(), 2);
    assert_eq!(l.selected(), None);
}

#[test]
fn unselect_clears_and_append_keeps_selection() {
    let mut l = SelectableList::with_items(strings(&["a"]));
    l.select_first();
    assert_eq!(l.selected(), Some(0));
    l.append("b".to_string());
    assert_eq!(l.selected(), Some(0));
    assert_eq!(l.items(), &strings(&["a", "b"]));
    l.unselect();
    assert_eq!(l.selected(), None);
    assert_eq!(l.len(), 2);
}

#[test]
fn get_returns_the_item_in_order() {
    let l = SelectableList::with_items(strings(&["a", "b"]));
    assert_eq!(l.get(0), "a");
    assert_eq!(l.get(1), "b");
}
