//! The new-session form as drawn: its fields, the warning or the layout
//! table, and the rows they go on.

use vstd::prelude::*;
use crate::list::{window_len, window_start};
use crate::new_session_info::{layout_search, selected_row, EnteringState, FormView, LayoutEntry, LayoutKind, NewSessionInfo};
use crate::strings::{chars_of, push_char, push_chars, string_from_chars};
use crate::text::{elided, elision_defined, remapped_indices, truncate_columns, truncated_to_columns};
use crate::ui::theme::{builtin_suffix, fitted_field, minus, FieldLayout, LayoutRow, Theme};

verus! {

broadcast use vstd::string::group_string_axioms;

/// A layout row as drawn: fitted around the middle of its name, or, where
/// the name cannot be shortened that way, the name cut to the width.
pub enum LayoutCell {
    Fitted(LayoutRow),
    Plain(String),
}

/// A part of the new-session form, `row` rows below its top.
pub enum FormPart {
    /// A labelled field.
    Field { row: usize, field: FieldLayout },
    /// A warning line.
    Warning { row: usize, text: String },
    /// The layout table, `height` rows high: each layout's cell, and whether
    /// it is selected.
    Layouts { row: usize, height: usize, cells: Vec<(LayoutCell, bool)> },
}

/// The layouts in the table of `max_rows` rows: the window around the
/// selection of the search results, or of all layouts, each with its matched
/// positions and whether it is selected.
pub open spec fn table_layouts(v: FormView, max_rows: nat) -> Seq<(LayoutEntry, Seq<usize>, bool)> {
    let found = layout_search(v.2, v.3);
    let n = if v.3.len() > 0 {
        found.len()
    } else {
        v.2.len()
    };
    let first = window_start(max_rows, n, selected_row(v));
    Seq::new(
        window_len(max_rows, n),
        |k: int|
            if v.3.len() > 0 {
                (found[first + k].0, found[first + k].2, first + k == v.4)
            } else {
                (v.2[first + k], Seq::<usize>::empty(), first + k == v.4)
            },
    )
}

/// `cell` is `layout` drawn in `width` columns with its `indices`
/// highlighted.
pub open spec fn cell_of(cell: LayoutCell, layout: LayoutEntry, indices: Seq<usize>, width: nat) -> bool {
    let suffix = builtin_suffix(layout.kind == LayoutKind::BuiltIn, width);
    let name_width = minus(width as int, suffix.len() as int);
    if layout.name@.len() + 3 <= usize::MAX && elision_defined(layout.name@, name_width, true) {
        &&& cell matches LayoutCell::Fitted(row)
        &&& row.text@ == elided(layout.name@, name_width, true) + suffix
        &&& row.name_end == elided(layout.name@, name_width, true).len()
        &&& row.indices@ == remapped_indices(layout.name@, name_width, true, indices)
    } else {
        cell matches LayoutCell::Plain(t) && t@ == truncated_to_columns(layout.name@, width)
    }
}

/// The text of the name field: the name with a cursor while it is typed,
/// else the name, or `<RANDOM>` for none.
pub open spec fn name_text(v: FormView) -> Seq<char> {
    if v.1 == EnteringState::EnteringName {
        v.0.push('_')
    } else if v.0.len() == 0 {
        "<RANDOM>"@
    } else {
        v.0
    }
}

/// The hint of the name field.
pub open spec fn name_hint(v: FormView) -> Seq<char> {
    if v.1 == EnteringState::EnteringName {
        "Enter: Continue • Blank: Random"@
    } else {
        "Ctrl+r: Edit name"@
    }
}

/// `p` is the field `label` with `value` and `hint` on row `row`, fitted to
/// `width` columns.
pub open spec fn field_part(p: FormPart, row: nat, label: Seq<char>, value: Seq<char>, hint: Seq<char>, width: nat) -> bool {
    p matches FormPart::Field { row: r, field } && r == row && fitted_field(field, label, value, hint, width)
}

/// `p` is the layout table on row 5, in `rows - 8` rows, its cells `cols - 4`
/// columns wide.
pub open spec fn table_part(p: FormPart, v: FormView, rows: nat, cols: nat) -> bool {
    let height = minus(rows as int, 8);
    let shown = table_layouts(v, height);
    &&& p matches FormPart::Layouts { row, height: h, cells } && row == 5 && h == height && cells@.len() == shown.len()
        && forall|k: int|
        0 <= k < shown.len() ==> cell_of(
            (#[trigger] cells@[k]).0,
            shown[k].0,
            shown[k].1,
            minus(cols as int, 4),
        ) && cells@[k].1 == shown[k].2
}

/// One layout's cell.
fn layout_cell(layout: &LayoutEntry, indices: &[usize], width: usize) -> (r: LayoutCell)
    ensures
        cell_of(r, *layout, indices@, width as nat),
{
    let name = layout.name.as_str();
    let count = chars_of(name).len();
    if count <= usize::MAX - 3 {
        match Theme.layout_row(name, layout.is_builtin(), indices, width) {
            Some(row) => {
                return LayoutCell::Fitted(row);
            },
            None => {},
        }
    }
    LayoutCell::Plain(truncate_columns(name, width))
}

/// `text` followed by `more`.
fn with_text(text: &str, more: &str) -> (r: String)
    ensures
        r@ == text@ + more@,
{
    let mut r = String::new();
    push_chars(&mut r, chars_of(text).as_slice());
    push_chars(&mut r, chars_of(more).as_slice());
    r
}

/// The new-session form drawn in `rows` rows of `cols` columns: the name
/// field on row 1; while a layout is picked, the layout search on row 3 and
/// on row 5 the layout table, or a warning when the search matches nothing;
/// the folder field on the second row from the bottom.
pub fn new_session_block(form: &NewSessionInfo, rows: usize, cols: usize) -> (r: Vec<FormPart>)
    requires
        form.wf(),
    ensures
        ({
            let v = form.form();
            let folder = match v.5 {
                Some(f) => f,
                None => "<default>"@,
            };
            let last = r@.len() - 1;
            &&& field_part(r@[0], 1, "New session name:"@, name_text(v), name_hint(v), cols as nat)
            &&& v.1 == EnteringState::EnteringLayoutSearch ==> {
                &&& r@.len() == 4
                &&& field_part(r@[1], 3, "New session layout:"@, v.3.push('_'), "Enter: Create"@, cols as nat)
                &&& if v.3.len() > 0 && form.chosen_layout() is None {
                    r@[2] matches FormPart::Warning { row, text } && row == 5 && text@ == truncated_to_columns(
                        "No matching layouts. Edit or clear the search."@,
                        cols as nat,
                    )
                } else {
                    table_part(r@[2], v, rows as nat, cols as nat)
                }
            }
            &&& v.1 == EnteringState::EnteringName ==> r@.len() == 2
            &&& field_part(
                r@[last],
                minus(rows as int, 2),
                "New session folder:"@,
                folder,
                "Ctrl+f: Choose • Ctrl+c: Clear"@,
                cols as nat,
            )
        }),
{
    let ghost v = form.form();
    let mut parts: Vec<FormPart> = Vec::new();
    let entering_name = form.entering_new_session_name();
    let name = if entering_name {
        let mut typed = string_from_chars(chars_of(form.name()).as_slice());
        push_char(&mut typed, '_');
        typed
    } else if form.name().is_empty() {
        string_from_chars(chars_of("<RANDOM>").as_slice())
    } else {
        string_from_chars(chars_of(form.name()).as_slice())
    };
    let hint = if entering_name {
        "Enter: Continue • Blank: Random"
    } else {
        "Ctrl+r: Edit name"
    };
    parts.push(FormPart::Field { row: 1, field: Theme.field_layout("New session name:", name.as_str(), hint, cols) });
    if form.entering_layout_search_term() {
        let search = with_text(form.layout_search_term(), "_");
        proof {
            reveal_strlit("_");
        }
        assert(search@ == v.3.push('_'));
        parts.push(
            FormPart::Field { row: 3, field: Theme.field_layout("New session layout:", search.as_str(), "Enter: Create", cols) },
        );
        let table_rows: usize = if rows >= 8 {
            rows - 8
        } else {
            0
        };
        if form.is_searching() && form.selected_layout_info().is_none() {
            let text = truncate_columns("No matching layouts. Edit or clear the search.", cols);
            parts.push(FormPart::Warning { row: 5, text });
        } else {
            let width: usize = if cols >= 4 {
                cols - 4
            } else {
                0
            };
            let shown = form.layouts_to_render(table_rows);
            let ghost expected = table_layouts(v, table_rows as nat);
            let mut cells: Vec<(LayoutCell, bool)> = Vec::new();
            let mut i: usize = 0;
            while i < shown.len()
                invariant
                    i <= shown.len(),
                    shown@.len() == expected.len(),
                    expected == table_layouts(v, table_rows as nat),
                    forall|k: int|
                        0 <= k < shown@.len() ==> (#[trigger] shown@[k]).0 == expected[k].0 && shown@[k].1@
                            == expected[k].1 && shown@[k].2 == expected[k].2,
                    cells@.len() == i,
                    forall|k: int|
                        0 <= k < i ==> cell_of((#[trigger] cells@[k]).0, expected[k].0, expected[k].1, width as nat)
                            && cells@[k].1 == expected[k].2,
                decreases shown.len() - i,
            {
                let cell = layout_cell(&shown[i].0, shown[i].1.as_slice(), width);
                cells.push((cell, shown[i].2));
                i = i + 1;
            }
            parts.push(FormPart::Layouts { row: 5, height: table_rows, cells });
        }
    }
    let folder = match form.new_session_folder() {
        Some(f) => string_from_chars(chars_of(f).as_slice()),
        None => string_from_chars(chars_of("<default>").as_slice()),
    };
    let bottom: usize = if rows >= 2 {
        rows - 2
    } else {
        0
    };
    parts.push(
        FormPart::Field {
            row: bottom,
            field: Theme.field_layout("New session folder:", folder.as_str(), "Ctrl+f: Choose • Ctrl+c: Clear", cols),
        },
    );
    parts
}

} // verus!
