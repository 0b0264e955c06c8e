use tab_picker::cursor::SelectionCursor;

#[test]
fn move_next_skips_active_entries() {
    // Only index 2 is eligible: from anywhere, one forward move lands on 2
    // and repeated moves stay there.
    let active = vec![true, true, false, true];
    for start in 0..4 {
        let mut cursor = SelectionCursor::new();
        // Walk the cursor to `start` with every entry eligible.
        let free = vec![false, false, false, false];
        for _ in 0..start {
            cursor.move_next(&free);
        }
        assert_eq!(cursor.selected_index(4), start);
        for _ in 0..3 {
            cursor.move_next(&active);
            assert_eq!(cursor.selected_index(4), 2);
        }
    }
}

#[test]
fn all_active_moves_are_no_ops() {
    // With every entry active there is no eligible target: the move
    // terminates after one bounded cycle and the selection stays put.
    let active = vec![true, true, true];
    let free = vec![false, false, false];
    let mut cursor = SelectionCursor::new();
    cursor.move_next(&free);
    assert_eq!(cursor.selected_index(3), 1);
    cursor.move_next(&active);
    assert_eq!(cursor.selected_index(3), 1);
    cursor.move_previous(&active);
    assert_eq!(cursor.selected_index(3), 1);
}

#[test]
fn moves_wrap_around() {
    let free = vec![false, false, false];
    let mut cursor = SelectionCursor::new();
    cursor.move_previous(&free);
    assert_eq!(cursor.selected_index(3), 2);
    cursor.move_next(&free);
    assert_eq!(cursor.selected_index(3), 0);
    cursor.move_next(&free);
    cursor.move_next(&free);
    cursor.move_next(&free);
    assert_eq!(cursor.selected_index(3), 0);
}

#[test]
fn moves_on_an_empty_list_do_nothing() {
    let none: Vec<bool> = Vec::new();
    let mut cursor = SelectionCursor::new();
    cursor.move_next(&none);
    cursor.move_previous(&none);
    assert_eq!(cursor.selected_index(0), 0);
}

#[test]
fn stale_selection_is_validated_against_the_length() {
    // A stored position that no longer fits falls back to the front.
    let free = vec![false, false, false, false, false];
    let mut cursor = SelectionCursor::new();
    for _ in 0..4 {
        cursor.move_next(&free);
    }
    assert_eq!(cursor.selected_index(5), 4);
    // The list shrank to two entries: access clamps to the front.
    assert_eq!(cursor.selected_index(2), 0);
    // And a move starts from the validated position.
    let two = vec![false, false];
    cursor.move_next(&two);
    assert_eq!(cursor.selected_index(2), 1);
}

#[test]
fn reset_returns_to_the_front() {
    let free = vec![false, false, false];
    let mut cursor = SelectionCursor::new();
    cursor.move_next(&free);
    cursor.move_next(&free);
    assert_eq!(cursor.selected_index(3), 2);
    cursor.reset();
    assert_eq!(cursor.selected_index(3), 0);
}
