use passrs::viewport::{center_offset, visible_scrolled};

#[test]
fn viewport_small_list_is_shown_whole() {
    assert_eq!(visible_scrolled(10, 3, 1), (0, 3));
    assert_eq!(visible_scrolled(3, 3, 2), (0, 3));
    assert_eq!(visible_scrolled(5, 0, 0), (0, 0));
}

#[test]
fn viewport_size_two_total_three_selected_zero() {
    assert_eq!(visible_scrolled(2, 3, 0), (0, 2));
}

#[test]
fn viewport_proportional_placement() {
    assert_eq!(visible_scrolled(2, 3, 1), (0, 2));
    assert_eq!(visible_scrolled(2, 3, 2), (1, 3));
    assert_eq!(visible_scrolled(3, 10, 9), (7, 10));
    assert_eq!(visible_scrolled(3, 10, 0), (0, 3));
}

#[test]
fn viewport_bounds_hold_over_many_inputs() {
    for total in 1usize..40 {
        for rows in 1usize..20 {
            for selected in 0..total {
                let (start, end) = visible_scrolled(rows, total, selected);
                assert_eq!(end - start, rows.min(total));
                assert!(end <= total);
            }
        }
    }
}

#[test]
fn viewport_allows_the_end_of_text_cursor() {
    // The horizontal use places the cursor one past the last code
    // point; the window is then the last one.
    assert_eq!(visible_scrolled(2, 3, 3), (1, 3));
    assert_eq!(visible_scrolled(3, 10, 10), (7, 10));
    for total in 1usize..30 {
        for rows in 1usize..12 {
            let (start, end) = visible_scrolled(rows, total, total);
            assert_eq!(end - start, rows.min(total));
            assert!(end <= total);
        }
    }
}

#[test]
fn center_offset_clamps_and_halves() {
    assert_eq!(center_offset(10, 4), 3);
    assert_eq!(center_offset(9, 4), 2);
    assert_eq!(center_offset(3, 4), 0);
    assert_eq!(center_offset(4, 4), 0);
}
