//! The picker's screen layout: the main area, the row texts with their
//! highlights, the key hints and the deletion dialog.

use vstd::prelude::*;
use crate::list::{visible_range, window_len, window_start};
use crate::session::types::{item_text, SessionItem};
use crate::state::PluginState;
use crate::strings::{chars_of, push_char, push_chars, string_from_chars};
use crate::text::{
    elide_start, elided, elision_defined, remap_indices_after_elide_start, remapped_indices,
    truncate_columns, truncated_to_columns, try_elide_middle, try_remap_indices_after_elide_middle,
};
use crate::ui::theme::{fitted_field, minus, FieldLayout, Theme};
use crate::zoxide::search::MatchView;

verus! {

broadcast use vstd::string::group_string_axioms;

/// Main renderer for the plugin UI
pub struct PluginRenderer;

/// Whether a row keeps the head of its text when shortened: sessions do,
/// since the name leads and the directory trails; directories keep their
/// tail, the informative part.
pub open spec fn keeps_head(item: SessionItem) -> bool {
    !(item is Directory)
}

/// The key hints for a list showing `visible` rows.
pub open spec fn help_line(visible: nat, searching: bool) -> Seq<char> {
    if visible == 0 {
        if searching {
            "Backspace: Edit search • Esc: Clear search"@
        } else {
            "Ctrl+r: reload directories • Esc: Exit"@
        }
    } else {
        "↑/↓: Navigate • Enter: Switch/New • Ctrl+Enter: Quick create • Ctrl+r: reload directories • Delete: Kill • Type: Search • Esc: Exit"@
    }
}

/// `n` copies of `c`.
pub open spec fn repeated(c: char, n: nat) -> Seq<char> {
    Seq::new(n, |i: int| c)
}

/// `text` centred in `width` characters, the odd space going right; longer
/// text is left as it is.
pub open spec fn centered(text: Seq<char>, width: nat) -> Seq<char> {
    if text.len() >= width {
        text
    } else {
        let pad = (width - text.len()) as nat;
        repeated(' ', pad / 2) + text + repeated(' ', (pad - pad / 2) as nat)
    }
}

/// The width of the deletion dialog in a pane `width` columns wide.
pub open spec fn dialog_width(width: nat) -> nat {
    let w = minus(width as int, 4);
    if w < 60 {
        w
    } else {
        60
    }
}

/// The dialog's warning line.
pub open spec fn dialog_warning(is_current: bool) -> Seq<char> {
    if is_current {
        "This is the session you are in - killing it will disconnect you."@
    } else {
        "If this is a resurrectable session, it will be deleted. This action cannot be undone."@
    }
}

/// A framed dialog line holding `text` centred in `inner` characters.
pub open spec fn dialog_line(text: Seq<char>, inner: nat) -> Seq<char> {
    seq!['│'] + centered(text, inner) + seq!['│']
}

/// The lines of the dialog confirming the deletion of `name`.
pub open spec fn dialog_lines(name: Seq<char>, is_current: bool, width: nat) -> Seq<Seq<char>> {
    let inner = minus(dialog_width(width) as int, 2);
    seq![
        seq!['┌'] + repeated('─', inner) + seq!['┐'],
        dialog_line("Kill session '"@ + name + "'?"@, inner),
        dialog_line(dialog_warning(is_current), inner),
        dialog_line(Seq::empty(), inner),
        dialog_line("Press 'y' to confirm, 'n' or Esc to cancel"@, inner),
        seq!['└'] + repeated('─', inner) + seq!['┘'],
    ]
}

/// Appends `n` copies of `c`.
fn push_repeated(s: &mut String, c: char, n: usize)
    ensures
        final(s)@ == old(s)@ + repeated(c, n as nat),
{
    let mut i: usize = 0;
    while i < n
        invariant
            i <= n,
            s@ == old(s)@ + repeated(c, i as nat),
        decreases n - i,
    {
        push_char(s, c);
        assert(repeated(c, (i + 1) as nat) == repeated(c, i as nat).push(c));
        i = i + 1;
    }
}

/// A framed dialog line.
fn framed_line(text: &[char], inner: usize) -> (r: String)
    ensures
        r@ == dialog_line(text@, inner as nat),
{
    let mut s = String::new();
    push_char(&mut s, '│');
    if text.len() >= inner {
        push_chars(&mut s, text);
    } else {
        let pad = inner - text.len();
        push_repeated(&mut s, ' ', pad / 2);
        push_chars(&mut s, text);
        push_repeated(&mut s, ' ', pad - pad / 2);
    }
    push_char(&mut s, '│');
    s
}

/// A horizontal rule of the dialog between two corners.
fn rule_line(left: char, inner: usize, right: char) -> (r: String)
    ensures
        r@ == seq![left] + repeated('─', inner as nat) + seq![right],
{
    let mut s = String::new();
    push_char(&mut s, left);
    push_repeated(&mut s, '─', inner);
    push_char(&mut s, right);
    s
}

impl PluginRenderer {
    /// Calculate main UI size: the whole pane, from its corner.
    pub fn calculate_main_size(rows: usize, cols: usize) -> (r: (usize, usize, usize, usize))
        ensures
            r == (0usize, 0usize, cols, rows),
    {
        let width = cols;
        let x: usize = 0;
        let y: usize = 0;
        let height = rows - y;
        (x, y, width, height)
    }

    /// The row text of `item`, shortened to `max_width` columns: directories
    /// keep their tail, sessions both ends. `None` where a session row
    /// cannot be shortened around its middle.
    pub fn row_text(item: &SessionItem, max_width: usize) -> (r: Option<String>)
        ensures
            r is Some <==> (!keeps_head(*item) || elision_defined(
                item_text(*item),
                max_width as nat,
                true,
            )),
            r matches Some(s) ==> s@ == elided(item_text(*item), max_width as nat, keeps_head(*item)),
    {
        let text = item.display_text();
        match item {
            SessionItem::Directory { .. } => Some(elide_start(text.as_str(), max_width)),
            _ => try_elide_middle(text.as_str(), max_width),
        }
    }

    /// The matched positions of `item`'s row text moved onto the shortened
    /// row, as `row_text` shortens it.
    pub fn row_highlights(item: &SessionItem, indices: &[usize], max_width: usize) -> (r: Option<
        Vec<usize>,
    >)
        requires
            item_text(*item).len() + 3 <= usize::MAX,
        ensures
            r is Some <==> (!keeps_head(*item) || elision_defined(
                item_text(*item),
                max_width as nat,
                true,
            )),
            r matches Some(v) ==> v@ == remapped_indices(
                item_text(*item),
                max_width as nat,
                keeps_head(*item),
                indices@,
            ),
    {
        let text = item.display_text();
        match item {
            SessionItem::Directory { .. } => Some(
                remap_indices_after_elide_start(text.as_str(), max_width, indices),
            ),
            _ => try_remap_indices_after_elide_middle(text.as_str(), max_width, indices),
        }
    }

    /// The key hints: what the keys do with `visible` rows on screen.
    pub fn help_text(visible: usize, searching: bool) -> (r: &'static str)
        ensures
            r@ == help_line(visible as nat, searching),
    {
        if visible == 0 {
            if searching {
                "Backspace: Edit search • Esc: Clear search"
            } else {
                "Ctrl+r: reload directories • Esc: Exit"
            }
        } else {
            "↑/↓: Navigate • Enter: Switch/New • Ctrl+Enter: Quick create • Ctrl+r: reload directories • Delete: Kill • Type: Search • Esc: Exit"
        }
    }

    /// Where the deletion dialog goes in the main area at `(x, y)`: centred.
    pub fn dialog_origin(x: usize, y: usize, width: usize, height: usize) -> (r: (usize, usize))
        requires
            x + width <= usize::MAX,
            y + height <= usize::MAX,
        ensures
            r.0 == x + minus(width as int, dialog_width(width as nat) as int) / 2,
            r.1 == y + minus(height as int, 6) / 2,
    {
        let w = Self::dialog_width_of(width);
        let dx = x + (width - w) / 2;
        let dy = y + (if height >= 6 {
            height - 6
        } else {
            0
        }) / 2;
        (dx, dy)
    }

    /// The width of the deletion dialog in a pane `width` columns wide.
    fn dialog_width_of(width: usize) -> (r: usize)
        ensures
            r == dialog_width(width as nat),
            r <= width,
    {
        let w = if width >= 4 {
            width - 4
        } else {
            0
        };
        if w < 60 {
            w
        } else {
            60
        }
    }

    /// The lines of the dialog confirming the deletion of `session_name`;
    /// killing the session the plugin runs in is called out.
    pub fn deletion_dialog(session_name: &str, is_current: bool, width: usize) -> (r: Vec<String>)
        ensures
            r@.map_values(|s: String| s@) == dialog_lines(session_name@, is_current, width as nat),
    {
        let w = Self::dialog_width_of(width);
        let inner: usize = if w >= 2 {
            w - 2
        } else {
            0
        };
        let mut message: Vec<char> = chars_of("Kill session '");
        let name = chars_of(session_name);
        let mut k: usize = 0;
        let ghost start = message@;
        while k < name.len()
            invariant
                k <= name.len(),
                message@ == start + name@.take(k as int),
            decreases name.len() - k,
        {
            message.push(name[k]);
            k = k + 1;
        }
        assert(name@.take(name.len() as int) == name@);
        let ghost before = message@;
        message.push('\'');
        message.push('?');
        proof {
            reveal_strlit("'?");
            assert(message@ == before + "'?"@);
        }
        let warning = if is_current {
            chars_of("This is the session you are in - killing it will disconnect you.")
        } else {
            chars_of(
                "If this is a resurrectable session, it will be deleted. This action cannot be undone.",
            )
        };
        let empty: Vec<char> = Vec::new();
        let prompt = chars_of("Press 'y' to confirm, 'n' or Esc to cancel");
        let mut lines: Vec<String> = Vec::new();
        lines.push(rule_line('┌', inner, '┐'));
        lines.push(framed_line(message.as_slice(), inner));
        lines.push(framed_line(warning.as_slice(), inner));
        lines.push(framed_line(empty.as_slice(), inner));
        lines.push(framed_line(prompt.as_slice(), inner));
        lines.push(rule_line('└', inner, '┘'));
        assert(lines@.map_values(|s: String| s@) =~= dialog_lines(session_name@, is_current, width as nat));
        lines
    }
}


/// How a row of the list is coloured: the session the plugin runs in,
/// another session, or a directory.
#[derive(Clone, Copy, Debug, PartialEq, Eq, Structural)]
pub enum RowRole {
    Current,
    Session,
    Directory,
}

/// The colour of `item`'s row.
pub open spec fn role_of(item: SessionItem) -> RowRole {
    match item {
        SessionItem::ExistingSession { is_current, .. } => if is_current {
            RowRole::Current
        } else {
            RowRole::Session
        },
        SessionItem::ResurrectableSession { .. } => RowRole::Session,
        SessionItem::Directory { .. } => RowRole::Directory,
    }
}

/// The text of `item`'s row `width` columns wide: shortened as `row_text`
/// shortens it, or cut to the width where a session row cannot be shortened
/// around its middle.
pub open spec fn row_line(item: SessionItem, width: nat) -> Seq<char> {
    if !keeps_head(item) || elision_defined(item_text(item), width, true) {
        elided(item_text(item), width, keeps_head(item))
    } else {
        truncated_to_columns(item_text(item), width)
    }
}

/// The matched positions `indices` moved onto `item`'s row `width` columns
/// wide; none where there are none or the row could not be shortened.
pub open spec fn row_marks(item: SessionItem, indices: Seq<usize>, width: nat) -> Seq<usize> {
    if indices.len() > 0 && item_text(item).len() + 3 <= usize::MAX && (!keeps_head(item) || elision_defined(
        item_text(item),
        width,
        true,
    )) {
        remapped_indices(item_text(item), width, keeps_head(item), indices)
    } else {
        Seq::empty()
    }
}

/// A row of the list as drawn.
pub struct ItemRow {
    pub text: String,
    pub role: RowRole,
    pub highlights: Vec<usize>,
    pub selected: bool,
}

/// `row` draws `item` with `indices` matched, `width` columns wide.
pub open spec fn row_is(row: ItemRow, item: SessionItem, indices: Seq<usize>, width: nat, selected: bool) -> bool {
    &&& row.text@ == row_line(item, width)
    &&& row.role == role_of(item)
    &&& row.highlights@ == row_marks(item, indices, width)
    &&& row.selected == selected
}

/// A part of the main screen, `row` rows below its top.
pub enum ScreenPart {
    /// The title.
    Title { row: usize, text: String },
    /// The search prompt.
    Prompt { row: usize, field: FieldLayout },
    /// A warning line.
    Warning { row: usize, text: String },
    /// The list, `height` rows high with its header.
    Items { row: usize, height: usize, rows: Vec<ItemRow> },
    /// The key hints.
    Help { row: usize, text: String },
}

/// The entries the list shows, with their matched positions, and the
/// selection among them: the search results while searching, else the
/// whole list.
pub open spec fn shown_entries(s: PluginState) -> (Seq<(SessionItem, Seq<usize>)>, Option<usize>) {
    if s.search_engine.active() {
        (s.search_engine.found().map_values(|m: MatchView| (m.0, m.2)), s.search_engine.selection())
    } else {
        (s.combined_items@.map_values(|x: SessionItem| (x, Seq::<usize>::empty())), s.selected_index)
    }
}

impl PluginRenderer {
    /// One row of the list.
    fn item_row(item: &SessionItem, indices: &[usize], width: usize, selected: bool) -> (r: ItemRow)
        ensures
            row_is(r, *item, indices@, width as nat, selected),
    {
        let shown = item.display_text();
        let text = match Self::row_text(item, width) {
            Some(t) => t,
            None => truncate_columns(shown.as_str(), width),
        };
        let role = match item {
            SessionItem::ExistingSession { is_current, .. } => if *is_current {
                RowRole::Current
            } else {
                RowRole::Session
            },
            SessionItem::ResurrectableSession { .. } => RowRole::Session,
            SessionItem::Directory { .. } => RowRole::Directory,
        };
        let length = chars_of(shown.as_str()).len();
        let highlights = if indices.len() > 0 && length <= usize::MAX - 3 {
            match Self::row_highlights(item, indices, width) {
                Some(v) => v,
                None => Vec::new(),
            }
        } else {
            Vec::new()
        };
        assert(highlights@ =~= row_marks(*item, indices@, width as nat));
        ItemRow { text, role, highlights, selected }
    }

    /// The main screen in `width` columns and `height` rows: the title, the
    /// search prompt on row 2, from row 4 the list (or a warning when there
    /// is nothing to list and no search), and the key hints on the last row.
    pub fn main_screen(state: &PluginState, width: usize, height: usize) -> (r: Vec<ScreenPart>)
        requires
            state.wf(),
        ensures
            ({
                let (entries, selected) = shown_entries(*state);
                let searching = state.search_engine.active();
                let table_rows = minus(height as int, 6);
                let cell_width = minus(width as int, 4);
                let first = window_start(table_rows, entries.len(), selected);
                &&& r@.len() == 4
                &&& r@[0] matches ScreenPart::Title { row, text } && row == 0 && text@ == "Zoxide Session Manager"@
                &&& r@[1] matches ScreenPart::Prompt { row, field } && row == 2 && fitted_field(
                    field,
                    "Search:"@,
                    state.search_engine.term().push('_'),
                    Seq::empty(),
                    width as nat,
                )
                &&& if entries.len() == 0 && !searching {
                    r@[2] matches ScreenPart::Warning { row, text } && row == 4 && text@
                        == "No zoxide directories found. Make sure zoxide is installed and you have visited some directories."@
                } else {
                    &&& r@[2] matches ScreenPart::Items { row, height: h, rows } && row == 4 && h == table_rows
                        && rows@.len() == window_len(table_rows, entries.len()) && forall|k: int|
                        0 <= k < rows@.len() ==> row_is(
                            #[trigger] rows@[k],
                            entries[first + k].0,
                            entries[first + k].1,
                            cell_width,
                            selected == Some((first + k) as usize),
                        )
                }
                &&& r@[3] matches ScreenPart::Help { row, text } && row == minus(height as int, 1) && text@
                    == help_line(entries.len(), searching)
            }),
    {
        let ghost entries = shown_entries(*state).0;
        let ghost selection = shown_entries(*state).1;
        let mut parts: Vec<ScreenPart> = Vec::new();
        parts.push(ScreenPart::Title { row: 0, text: string_from_chars(chars_of("Zoxide Session Manager").as_slice()) });
        parts.push(ScreenPart::Prompt { row: 2, field: Theme.search_prompt_layout(state.search_engine.search_term(), width) });
        let table_rows: usize = if height >= 6 {
            height - 6
        } else {
            0
        };
        let cell_width: usize = if width >= 4 {
            width - 4
        } else {
            0
        };
        let searching = state.search_engine.is_searching();
        let count = state.visible_item_count();
        if count == 0 && !searching {
            parts.push(
                ScreenPart::Warning {
                    row: 4,
                    text: string_from_chars(
                        chars_of(
                            "No zoxide directories found. Make sure zoxide is installed and you have visited some directories.",
                        ).as_slice(),
                    ),
                },
            );
        } else {
            let mut rows: Vec<ItemRow> = Vec::new();
            if searching {
                let results = state.search_engine.results();
                let selected = state.search_engine.selected_index();
                let (first, last) = visible_range(table_rows, results.len(), selected);
                let mut i = first;
                while i < last
                    invariant
                        first <= i <= last,
                        last == first + window_len(table_rows as nat, entries.len()),
                        first == window_start(table_rows as nat, entries.len(), selection),
                        entries.len() == results@.len(),
                        selection == selected,
                        forall|k: int| 0 <= k < results@.len() ==> entries[k] == (#[trigger] results@[k].item, results@[k].indices@),
                        rows@.len() == i - first,
                        forall|k: int|
                            0 <= k < rows@.len() ==> row_is(
                                #[trigger] rows@[k],
                                entries[first + k].0,
                                entries[first + k].1,
                                cell_width as nat,
                                selection == Some((first + k) as usize),
                            ),
                    decreases last - i,
                {
                    let row = Self::item_row(&results[i].item, results[i].indices.as_slice(), cell_width, selected == Some(i));
                    rows.push(row);
                    i = i + 1;
                }
            } else {
                let items = state.combined_items.as_slice();
                let selected = state.selected_index;
                let (first, last) = visible_range(table_rows, items.len(), selected);
                let none: Vec<usize> = Vec::new();
                let mut i = first;
                while i < last
                    invariant
                        first <= i <= last,
                        last == first + window_len(table_rows as nat, entries.len()),
                        first == window_start(table_rows as nat, entries.len(), selection),
                        entries.len() == items@.len(),
                        selection == selected,
                        none@.len() == 0,
                        forall|k: int| 0 <= k < items@.len() ==> entries[k] == (#[trigger] items@[k], Seq::<usize>::empty()),
                        rows@.len() == i - first,
                        forall|k: int|
                            0 <= k < rows@.len() ==> row_is(
                                #[trigger] rows@[k],
                                entries[first + k].0,
                                entries[first + k].1,
                                cell_width as nat,
                                selection == Some((first + k) as usize),
                            ),
                    decreases last - i,
                {
                    assert(none@ =~= Seq::<usize>::empty());
                    let row = Self::item_row(&items[i], none.as_slice(), cell_width, selected == Some(i));
                    rows.push(row);
                    i = i + 1;
                }
            }
            parts.push(ScreenPart::Items { row: 4, height: table_rows, rows });
        }
        let last_row: usize = if height >= 1 {
            height - 1
        } else {
            0
        };
        let help = Self::help_text(count, searching);
        parts.push(ScreenPart::Help { row: last_row, text: string_from_chars(chars_of(help).as_slice()) });
        parts
    }
}


/// What is drawn over the screen: an error, or the dialog confirming a
/// deletion.
pub enum Overlay {
    /// The error, on row `row`.
    Error { row: usize, text: String },
    /// The dialog's lines, from its top-left corner at column `x`, row `y`.
    Dialog { x: usize, y: usize, lines: Vec<String> },
}

impl PluginRenderer {
    /// What goes over a screen `width` columns wide and `height` rows high:
    /// an error on the middle row; else, while a deletion waits for
    /// confirmation, the dialog, centred; else nothing.
    pub fn overlay(state: &PluginState, width: usize, height: usize) -> (r: Option<Overlay>)
        ensures
            match state.error {
                Some(e) => r matches Some(Overlay::Error { row, text }) && row == height / 2 && text@ == e@,
                None => match state.session_manager.pending() {
                    Some(n) => r matches Some(Overlay::Dialog { x, y, lines }) && x == minus(
                        width as int,
                        dialog_width(width as nat) as int,
                    ) / 2 && y == minus(height as int, 6) / 2 && lines@.map_values(|s: String| s@)
                        == dialog_lines(n, crate::new_session_info::opt_view(state.current_session_name) == Some(n), width as nat),
                    None => r is None,
                },
            },
    {
        match &state.error {
            Some(e) => Some(Overlay::Error { row: height / 2, text: string_from_chars(chars_of(e.as_str()).as_slice()) }),
            None => match state.session_manager.pending_deletion() {
                Some(name) => {
                    let (x, y) = Self::dialog_origin(0, 0, width, height);
                    let lines = Self::deletion_dialog(name, state.is_current_session(name), width);
                    Some(Overlay::Dialog { x, y, lines })
                },
                None => None,
            },
        }
    }
}

} // verus!
