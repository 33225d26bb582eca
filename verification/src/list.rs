//! Shared scrolling maths for the plugin's two scrollable lists.

use vstd::prelude::*;

verus! {

/// Where the visible window of a list of `len` items starts, in a table
/// `rows` high (one row is the header), keeping `selected` visible.
pub open spec fn window_start(rows: nat, len: nat, selected: Option<usize>) -> nat {
    let row_count: nat = if rows >= 1 { (rows - 1) as nat } else { 0 };
    if row_count >= len {
        0
    } else {
        let s: int = match selected {
            Some(s) => s as int,
            None => 0,
        };
        let clamped: int = if s < len - 1 { s } else { len - 1 };
        let centred: int = if clamped >= row_count / 2 { clamped - row_count / 2 } else { 0 };
        let last_start: int = len - row_count;
        (if centred < last_start { centred } else { last_start }) as nat
    }
}

/// How many rows of the list are shown: all of it, or as many as fit.
pub open spec fn window_len(rows: nat, len: nat) -> nat {
    let row_count: nat = if rows >= 1 { (rows - 1) as nat } else { 0 };
    if row_count >= len { len } else { row_count }
}

/// Pick the half-open range of rows to draw for a list of `len` items in a
/// table `rows` high, keeping `selected` visible.
///
/// One row is reserved for the table header. The window is centred on the
/// selection and then slid back inside the list, so scrolling to either end
/// still fills the pane instead of trailing off into blank rows.
pub fn visible_range(rows: usize, len: usize, selected: Option<usize>) -> (res: (usize, usize))
    ensures
        res.0 == window_start(rows as nat, len as nat, selected),
        res.1 == res.0 + window_len(rows as nat, len as nat),
{
    let row_count = rows.saturating_sub(1);
    if row_count >= len {
        return (0, len);
    }
    let s = match selected {
        Some(s) => s,
        None => 0,
    };
    let clamped = if s < len - 1 { s } else { len - 1 };
    let centred = clamped.saturating_sub(row_count / 2);
    let last_start = len - row_count;
    let first = if centred < last_start { centred } else { last_start };
    (first, first + row_count)
}

/// The index after `selected` in a list of `len` items, wrapping at the end.
pub open spec fn next_index(selected: Option<usize>, len: nat) -> Option<nat> {
    if len == 0 {
        None
    } else {
        match selected {
            Some(s) => if s >= len - 1 { Some(0) } else { Some((s + 1) as nat) },
            None => Some(0),
        }
    }
}

/// The index before `selected` in a list of `len` items, wrapping at the top.
pub open spec fn previous_index(selected: Option<usize>, len: nat) -> Option<nat> {
    if len == 0 {
        None
    } else {
        match selected {
            Some(s) => if s == 0 {
                Some((len - 1) as nat)
            } else if s - 1 < len - 1 {
                Some((s - 1) as nat)
            } else {
                Some((len - 1) as nat)
            },
            None => Some((len - 1) as nat),
        }
    }
}

/// `selected` pulled back inside a list of `len` items.
pub open spec fn clamped_index(selected: Option<usize>, len: nat) -> Option<nat> {
    if len == 0 {
        None
    } else {
        match selected {
            Some(s) => if s < len - 1 { Some(s as nat) } else { Some((len - 1) as nat) },
            None => None,
        }
    }
}

/// An exec selection read as a spec one.
pub open spec fn as_nat_option(o: Option<usize>) -> Option<nat> {
    match o {
        Some(i) => Some(i as nat),
        None => None,
    }
}

/// Move `selected` one row down in a list of `len` items, wrapping at the end.
///
/// A selection that is already past the end (the list shrank underneath it)
/// wraps to the top rather than drifting further out of range.
pub fn select_next(selected: Option<usize>, len: usize) -> (res: Option<usize>)
    ensures
        as_nat_option(res) == next_index(selected, len as nat),
{
    if len == 0 {
        return None;
    }
    Some(
        match selected {
            Some(selected) => if selected >= len - 1 {
                0
            } else {
                selected + 1
            },
            None => 0,
        },
    )
}

/// Move `selected` one row up in a list of `len` items, wrapping at the top.
///
/// An out-of-range selection is pulled back to the last row.
pub fn select_previous(selected: Option<usize>, len: usize) -> (res: Option<usize>)
    ensures
        as_nat_option(res) == previous_index(selected, len as nat),
{
    if len == 0 {
        return None;
    }
    Some(
        match selected {
            Some(selected) => if selected == 0 {
                len - 1
            } else if selected - 1 < len - 1 {
                selected - 1
            } else {
                len - 1
            },
            None => len - 1,
        },
    )
}

/// Pull `selected` back inside a list of `len` items.
pub fn clamp_selection(selected: Option<usize>, len: usize) -> (res: Option<usize>)
    ensures
        as_nat_option(res) == clamped_index(selected, len as nat),
{
    if len == 0 {
        return None;
    }
    match selected {
        Some(selected) => Some(if selected < len - 1 { selected } else { len - 1 }),
        None => None,
    }
}

/// The window never runs past the end of the list, fills the pane whenever
/// the list is longer than the pane, and always shows the (clamped) selection.
pub proof fn lemma_window_inside_list_and_shows_selection(rows: nat, len: nat, selected: Option<usize>)
    ensures
        window_start(rows, len, selected) + window_len(rows, len) <= len,
        rows >= 1 && ((rows - 1) as nat) < len ==> window_len(rows, len) == rows - 1,
        rows >= 1 && ((rows - 1) as nat) >= len ==> window_len(rows, len) == len,
        rows >= 2 && len > 0 ==> ({
            let s: int = match selected { Some(s) => s as int, None => 0 };
            let clamped: int = if s < len - 1 { s } else { len - 1 };
            window_start(rows, len, selected) <= clamped < window_start(rows, len, selected)
                + window_len(rows, len)
        }),
{
}

/// Every selection the helpers produce lies inside the list.
pub proof fn lemma_selection_stays_in_range(selected: Option<usize>, len: nat)
    ensures
        next_index(selected, len) matches Some(i) ==> i < len,
        previous_index(selected, len) matches Some(i) ==> i < len,
        clamped_index(selected, len) matches Some(i) ==> i < len,
        len == 0 ==> next_index(selected, len) is None && previous_index(selected, len) is None,
        len > 0 ==> next_index(selected, len) is Some && previous_index(selected, len) is Some,
{
}

/// Moving down and then up (or up and then down) returns to an in-range
/// selection.
pub proof fn lemma_next_previous_inverse(s: usize, len: nat)
    requires
        s < len,
    ensures
        next_index(Some(s), len) is Some,
        next_index(Some(s), len)->0 <= usize::MAX ==> previous_index(
            Some(next_index(Some(s), len)->0 as usize),
            len,
        ) == Some(s as nat),
        previous_index(Some(s), len) is Some,
        previous_index(Some(s), len)->0 <= usize::MAX ==> next_index(
            Some(previous_index(Some(s), len)->0 as usize),
            len,
        ) == Some(s as nat),
{
}


/// Moving down goes to the next row and from the last row back to the
/// first; moving up goes to the row before and from the first row to the
/// last. Without a selection, down selects the first row and up the last.
pub proof fn lemma_moves_go_one_row(s: usize, len: nat)
    requires
        len > 0,
    ensures
        s + 1 < len ==> next_index(Some(s), len) == Some((s + 1) as nat),
        s + 1 == len ==> next_index(Some(s), len) == Some(0nat),
        0 < s < len ==> previous_index(Some(s), len) == Some((s - 1) as nat),
        s == 0 ==> previous_index(Some(s), len) == Some((len - 1) as nat),
        next_index(None, len) == Some(0nat),
        previous_index(None, len) == Some((len - 1) as nat),
{
}

} // verus!
