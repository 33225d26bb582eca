use zsm::list::{clamp_selection, select_next, select_previous, visible_range};

#[test]
fn short_lists_render_whole() {
    assert_eq!(visible_range(10, 0, None), (0, 0));
    assert_eq!(visible_range(10, 5, Some(2)), (0, 5));
    // rows includes the header, so 10 rows shows 9 items.
    assert_eq!(visible_range(10, 9, Some(8)), (0, 9));
}

#[test]
fn window_is_centred_on_the_selection() {
    assert_eq!(visible_range(11, 100, Some(50)), (45, 55));
    assert_eq!(visible_range(11, 100, Some(0)), (0, 10));
}

/// Scrolling to the bottom of a long list keeps the pane full.
#[test]
fn window_stays_inside_the_list() {
    let (first, last) = visible_range(11, 100, Some(99));
    assert_eq!((first, last), (90, 100));

    for len in 1..40 {
        for rows in 1..20 {
            for selected in 0..len {
                let (first, last) = visible_range(rows, len, Some(selected));
                assert!(last <= len, "rows {rows} len {len} sel {selected}");
                assert!(first <= last);
                if rows.saturating_sub(1) < len {
                    assert_eq!(last - first, rows - 1, "window should fill the pane");
                }
            }
        }
    }
}

/// A selection left over from a longer list keeps the window inside the list.
#[test]
fn stale_selection_does_not_blank_the_window() {
    let (first, last) = visible_range(11, 30, Some(400));
    assert!(last <= 30);
    assert_eq!(last - first, 10);
}

#[test]
fn selection_wraps_at_both_ends() {
    assert_eq!(select_next(None, 5), Some(0));
    assert_eq!(select_next(Some(3), 5), Some(4));
    assert_eq!(select_next(Some(4), 5), Some(0));
    assert_eq!(select_previous(None, 5), Some(4));
    assert_eq!(select_previous(Some(0), 5), Some(4));
    assert_eq!(select_previous(Some(3), 5), Some(2));
    assert_eq!(select_next(Some(0), 0), None);
    assert_eq!(select_previous(Some(0), 0), None);
}

/// A stale index wraps instead of running further out of range.
#[test]
fn stale_selection_wraps_instead_of_running_away() {
    assert_eq!(select_next(Some(40), 10), Some(0));
    assert_eq!(select_previous(Some(40), 10), Some(9));
    assert_eq!(clamp_selection(Some(40), 10), Some(9));
    assert_eq!(clamp_selection(Some(3), 10), Some(3));
    assert_eq!(clamp_selection(Some(3), 0), None);
    assert_eq!(clamp_selection(None, 10), None);
}
