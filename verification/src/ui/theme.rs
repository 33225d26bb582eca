//! Colour roles for the plugin UI, and the fitting of labelled fields and
//! layout rows into a pane.
//!
//! Every colour is an *index*, which Zellij resolves against whatever theme
//! the user has configured: 0 = dim/subtle, 1 = warning, 2 = active, 3 = info.
//! Nothing here reads the palette, so no RGB value is ever hardcoded and the
//! UI follows the user's theme for free.

use vstd::prelude::*;
use crate::strings::{chars_of, push_char, push_chars};
use crate::text::{
    display_width, elide_start, elided, elision_defined, remapped_indices, str_width,
    truncate_columns, truncated_to_columns, try_elide_middle, try_remap_indices_after_elide_middle,
};

verus! {

broadcast use vstd::string::group_string_axioms;

/// The colour roles of the plugin UI.
#[derive(Copy, Clone, Debug, Default)]
pub struct Theme;

/// A labelled field fitted to a width: its text, where the label ends, and
/// where the value starts and ends (in characters). The hint follows the
/// value.
pub struct FieldLayout {
    pub text: String,
    pub label_end: usize,
    pub value_start: usize,
    pub value_end: usize,
}

/// A layout row fitted to a width: its text, where the name ends, and the
/// matched positions on the shortened name.
pub struct LayoutRow {
    pub text: String,
    pub name_end: usize,
    pub indices: Vec<usize>,
}

/// `a - b`, or 0 when `b` is larger.
pub open spec fn minus(a: int, b: int) -> nat {
    if a >= b {
        (a - b) as nat
    } else {
        0
    }
}

/// The label of a field of `width` columns.
pub open spec fn field_label(label: Seq<char>, width: nat) -> Seq<char> {
    truncated_to_columns(label, width)
}

/// The columns left after the label.
pub open spec fn field_remaining(label: Seq<char>, width: nat) -> nat {
    minus(width as int, str_width(field_label(label, width)) as int)
}

/// The space between label and value, when there is room for one.
pub open spec fn field_space(label: Seq<char>, width: nat) -> Seq<char> {
    if field_remaining(label, width) > 0 {
        seq![' ']
    } else {
        Seq::empty()
    }
}

/// The columns for value and hint.
pub open spec fn field_available(label: Seq<char>, width: nat) -> nat {
    minus(field_remaining(label, width) as int, field_space(label, width).len() as int)
}

/// The hint, shown after a space only when it fits beside the value (or the
/// first 12 columns of it).
pub open spec fn field_hint(label: Seq<char>, value: Seq<char>, hint: Seq<char>, width: nat) -> Seq<char> {
    let value_width: nat = if str_width(value) <= 12 {
        str_width(value) as nat
    } else {
        12
    };
    if hint.len() > 0 && field_available(label, width) >= str_width(hint) + 1 + value_width {
        seq![' '] + hint
    } else {
        Seq::empty()
    }
}

/// The value, its start elided to the columns the hint leaves.
pub open spec fn field_value(label: Seq<char>, value: Seq<char>, hint: Seq<char>, width: nat) -> Seq<char> {
    elided(
        value,
        minus(
            field_available(label, width) as int,
            str_width(field_hint(label, value, hint, width)) as int,
        ),
        false,
    )
}

/// The suffix of a built-in layout, when the row is wide enough for it.
pub open spec fn builtin_suffix(builtin: bool, width: nat) -> Seq<char> {
    if builtin && width >= 16 {
        " (built-in)"@
    } else {
        Seq::empty()
    }
}

/// `f` is the field `label`, `value` and `hint` fitted to `width` columns:
/// the label, a space if there is room, the value with its start elided to
/// the room left, then the hint if it fits.
pub open spec fn fitted_field(f: FieldLayout, label: Seq<char>, value: Seq<char>, hint: Seq<char>, width: nat) -> bool {
    let l = field_label(label, width);
    let s = field_space(label, width);
    let v = field_value(label, value, hint, width);
    let h = field_hint(label, value, hint, width);
    &&& f.text@ == l + s + v + h
    &&& f.label_end == l.len()
    &&& f.value_start == l.len() + s.len()
    &&& f.value_end == l.len() + s.len() + v.len()
}

impl Theme {
    /// Fit the editable value first; show the optional hint only if room
    /// remains.
    pub fn field_layout(&self, label: &str, value: &str, hint: &str, width: usize) -> (r: FieldLayout)
        ensures
            fitted_field(r, label@, value@, hint@, width as nat),
    {
        let fitted = truncate_columns(label, width);
        let label_width = display_width(fitted.as_str());
        let remaining: usize = if width >= label_width {
            width - label_width
        } else {
            0
        };
        let space_len: usize = if remaining > 0 {
            1
        } else {
            0
        };
        let available: usize = if remaining >= space_len {
            remaining - space_len
        } else {
            0
        };
        let hint_width = display_width(hint);
        let value_width = display_width(value);
        let value_part: usize = if value_width <= 12 {
            value_width
        } else {
            12
        };
        let mut shown_hint = String::new();
        if !hint.is_empty() && available > hint_width && available - hint_width - 1 >= value_part {
            push_char(&mut shown_hint, ' ');
            push_chars(&mut shown_hint, chars_of(hint).as_slice());
        }
        assert(shown_hint@ == field_hint(label@, value@, hint@, width as nat));
        let shown_hint_width = display_width(shown_hint.as_str());
        let value_columns: usize = if available >= shown_hint_width {
            available - shown_hint_width
        } else {
            0
        };
        let fitted_value = elide_start(value, value_columns);
        let mut buf: Vec<char> = chars_of(fitted.as_str());
        let label_end = buf.len();
        if remaining > 0 {
            buf.push(' ');
        }
        let value_start = buf.len();
        let value_chars = chars_of(fitted_value.as_str());
        let mut i: usize = 0;
        let ghost before = buf@;
        while i < value_chars.len()
            invariant
                i <= value_chars.len(),
                buf@ == before + value_chars@.take(i as int),
            decreases value_chars.len() - i,
        {
            buf.push(value_chars[i]);
            i = i + 1;
        }
        assert(value_chars@.take(value_chars.len() as int) == value_chars@);
        let value_end = buf.len();
        let mut text = String::new();
        push_chars(&mut text, buf.as_slice());
        push_chars(&mut text, chars_of(shown_hint.as_str()).as_slice());
        assert(text@ =~= field_label(label@, width as nat) + field_space(label@, width as nat) + field_value(
            label@,
            value@,
            hint@,
            width as nat,
        ) + field_hint(label@, value@, hint@, width as nat));
        FieldLayout { text, label_end, value_start, value_end }
    }

    /// The search prompt: the label is highlighted, the typed term is not.
    pub fn search_prompt_layout(&self, term: &str, width: usize) -> (r: FieldLayout)
        ensures
            ({
                let label = "Search:"@;
                let value = term@.push('_');
                let l = field_label(label, width as nat);
                let s = field_space(label, width as nat);
                let v = field_value(label, value, Seq::empty(), width as nat);
                let h = field_hint(label, value, Seq::empty(), width as nat);
                &&& r.text@ == l + s + v + h
                &&& r.label_end == l.len()
                &&& r.value_start == l.len() + s.len()
                &&& r.value_end == l.len() + s.len() + v.len()
            }),
    {
        let mut value = String::new();
        push_chars(&mut value, chars_of(term).as_slice());
        push_char(&mut value, '_');
        let empty = String::new();
        self.field_layout("Search:", value.as_str(), empty.as_str(), width)
    }

    /// A layout name fitted to `width` columns with its built-in suffix, and
    /// its matched positions moved onto the shortened name; `None` where the
    /// name cannot be shortened around its middle.
    pub fn layout_row(&self, name: &str, builtin: bool, indices: &[usize], width: usize) -> (r: Option<
        LayoutRow,
    >)
        requires
            name@.len() + 3 <= usize::MAX,
        ensures
            ({
                let suffix = builtin_suffix(builtin, width as nat);
                let name_width = minus(width as int, suffix.len() as int);
                &&& r is Some <==> elision_defined(name@, name_width, true)
                &&& r matches Some(row) ==> {
                    &&& row.text@ == elided(name@, name_width, true) + suffix
                    &&& row.name_end == elided(name@, name_width, true).len()
                    &&& row.indices@ == remapped_indices(name@, name_width, true, indices@)
                }
            }),
    {
        let builtin_text = chars_of(" (built-in)");
        proof {
            reveal_strlit(" (built-in)");
        }
        let with_suffix = builtin && width >= 16;
        let suffix_len: usize = if with_suffix {
            builtin_text.len()
        } else {
            0
        };
        let name_width: usize = if width >= suffix_len {
            width - suffix_len
        } else {
            0
        };
        let shortened = match try_elide_middle(name, name_width) {
            Some(s) => s,
            None => {
                return None;
            },
        };
        let remapped = match try_remap_indices_after_elide_middle(name, name_width, indices) {
            Some(v) => v,
            None => {
                return None;
            },
        };
        let mut text = String::new();
        let shortened_chars = chars_of(shortened.as_str());
        push_chars(&mut text, shortened_chars.as_slice());
        if with_suffix {
            push_chars(&mut text, builtin_text.as_slice());
        }
        Some(LayoutRow { text, name_end: shortened_chars.len(), indices: remapped })
    }
}

} // verus!
