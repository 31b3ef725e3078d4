use birdwatcher_rs::tui::table::{next_row_index, previous_row_index};

/// Moving down steps through the rows and wraps to the top.
#[test]
fn next_row_wraps() {
    assert_eq!(next_row_index(None, 3), 0);
    assert_eq!(next_row_index(Some(0), 3), 1);
    assert_eq!(next_row_index(Some(1), 3), 2);
    assert_eq!(next_row_index(Some(2), 3), 0);
}

/// Moving up steps back through the rows and wraps to the bottom.
#[test]
fn previous_row_wraps() {
    assert_eq!(previous_row_index(None, 3), 0);
    assert_eq!(previous_row_index(Some(0), 3), 2);
    assert_eq!(previous_row_index(Some(2), 3), 1);
    assert_eq!(previous_row_index(Some(1), 3), 0);
}
