//! Plugin settings that the naming and listing logic read.

use vstd::prelude::*;
use crate::new_session_info::{opt_str_view, opt_view};
use crate::session::listing::{trim_ws, trimmed};
use crate::strings::{char_rows, chars_of, keep_non_empty, non_empty, push_char, split_chars, split_either, string_from_chars};

verus! {

/// Settings of the plugin.
#[derive(Debug)]
pub struct Config {
    /// Joins path segments in generated session names.
    pub session_separator: String,
    /// Prefixes stripped from directories before they are named.
    pub base_paths: Vec<String>,
    /// Layout used by quick session creation, if any.
    pub default_layout: Option<String>,
    /// Whether resurrectable sessions are listed.
    pub show_resurrectable_sessions: bool,
}

impl Config {
    /// The separator, as characters.
    pub open spec fn separator_view(&self) -> Seq<char> {
        self.session_separator@
    }

    /// The base paths, as character sequences.
    pub open spec fn base_paths_view(&self) -> Seq<Seq<char>> {
        path_texts(self.base_paths@)
    }
}

impl Default for Config {
    fn default() -> (c: Self)
        ensures
            c.session_separator@ == seq!['.'],
            c.base_paths@.len() == 0,
            c.default_layout is None,
            !c.show_resurrectable_sessions,
    {
        let mut session_separator = String::new();
        push_char(&mut session_separator, '.');
        Config {
            session_separator,
            base_paths: Vec::new(),
            default_layout: None,
            show_resurrectable_sessions: false,
        }
    }
}


/// Some paths as character sequences.
pub open spec fn path_texts(v: Seq<String>) -> Seq<Seq<char>> {
    v.map_values(|b: String| b@)
}

/// Each piece without the white space around it.
pub open spec fn trimmed_pieces(ps: Seq<Seq<char>>) -> Seq<Seq<char>> {
    ps.map_values(|p: Seq<char>| trim_ws(p))
}

/// The base paths a setting lists: the pieces between `:` and `;`, without
/// the white space around them, empty ones dropped.
pub open spec fn listed_paths(setting: Seq<char>) -> Seq<Seq<char>> {
    non_empty(trimmed_pieces(split_either(setting, ':', ';')))
}

impl Config {
    /// The settings as Zellij hands them over, defaults for those missing:
    /// the separator, the base paths (separated by `:` or `;`), the default
    /// layout, and whether resurrectable sessions are listed (`true`).
    pub fn from_settings(
        separator: Option<&str>,
        base_paths: Option<&str>,
        default_layout: Option<&str>,
        show_resurrectable: Option<&str>,
    ) -> (c: Config)
        ensures
            c.session_separator@ == match separator {
                Some(s) => s@,
                None => seq!['.'],
            },
            c.base_paths_view() == match base_paths {
                Some(b) => listed_paths(b@),
                None => Seq::empty(),
            },
            opt_view(c.default_layout) == opt_str_view(default_layout),
            c.show_resurrectable_sessions == (show_resurrectable matches Some(v) && v@ == "true"@),
    {
        let mut config = Config::default();
        if let Some(s) = separator {
            config.session_separator = string_from_chars(chars_of(s).as_slice());
        }
        if let Some(b) = base_paths {
            let pieces = split_chars(chars_of(b).as_slice(), ':', ';');
            let ghost split = split_either(b@, ':', ';');
            let mut cut: Vec<Vec<char>> = Vec::new();
            let mut i: usize = 0;
            while i < pieces.len()
                invariant
                    i <= pieces.len(),
                    char_rows(pieces@) == split,
                    char_rows(cut@) == trimmed_pieces(split).take(i as int),
                decreases pieces.len() - i,
            {
                let t = trimmed(pieces[i].as_slice());
                assert(pieces@[i as int]@ == split[i as int]);
                assert(char_rows(cut@).len() == cut@.len());
                assert(trimmed_pieces(split).take(i as int).len() == i);
                cut.push(t);
                assert(char_rows(cut@)[i as int] == trimmed_pieces(split)[i as int]);
                assert(char_rows(cut@) =~= trimmed_pieces(split).take(i + 1));
                i = i + 1;
            }
            assert(trimmed_pieces(split).take(pieces.len() as int) =~= trimmed_pieces(split));
            let kept = keep_non_empty(cut);
            let mut paths: Vec<String> = Vec::new();
            let mut k: usize = 0;
            while k < kept.len()
                invariant
                    k <= kept.len(),
                    path_texts(paths@) == char_rows(kept@).take(k as int),
                decreases kept.len() - k,
            {
                let path = string_from_chars(kept[k].as_slice());
                assert(path_texts(paths@).len() == paths@.len());
                assert(char_rows(kept@).take(k as int).len() == k);
                paths.push(path);
                assert(path_texts(paths@)[k as int] == char_rows(kept@)[k as int]);
                assert(path_texts(paths@) =~= char_rows(kept@).take(k + 1));
                k = k + 1;
            }
            assert(char_rows(kept@).take(kept.len() as int) =~= char_rows(kept@));
            config.base_paths = paths;
        }
        config.default_layout = match default_layout {
            Some(d) => Some(string_from_chars(chars_of(d).as_slice())),
            None => None,
        };
        config.show_resurrectable_sessions = match show_resurrectable {
            Some(v) => crate::session_name::str_eq(v, "true"),
            None => false,
        };
        config
    }
}

} // verus!
