//! The new-session form: a name, then a layout picked from a searchable
//! list, and the folder the session starts in.

use vstd::prelude::*;
use crate::list::{lemma_window_inside_list_and_shows_selection, visible_range, window_len, window_start};
use crate::session_name::{creation_validation, str_eq, validate_for_creation, validation_against_current};
use crate::strings::{chars_of, push_char, string_from_chars, sub_chars};
use crate::zoxide::search::{fuzzy_indices, skim_match};

verus! {

broadcast use vstd::string::group_string_axioms;

/// Where a layout comes from.
#[derive(Clone, Copy, Debug, PartialEq, Eq, Structural)]
pub enum LayoutKind {
    /// Compiled into Zellij.
    BuiltIn,
    /// A layout file.
    File,
    /// A layout fetched from a URL.
    Url,
    /// A layout given as text.
    Stringified,
}

/// A layout the new session can start with.
#[derive(Debug, PartialEq, Eq)]
pub struct LayoutEntry {
    pub kind: LayoutKind,
    pub name: String,
}

impl Clone for LayoutEntry {
    fn clone(&self) -> (r: Self)
        ensures
            r == *self,
    {
        LayoutEntry { kind: self.kind, name: self.name.clone() }
    }
}

impl LayoutEntry {
    /// The layout's name.
    pub fn name(&self) -> (r: &str)
        ensures
            r@ == self.name@,
    {
        self.name.as_str()
    }

    /// Whether the layout is compiled into Zellij.
    pub fn is_builtin(&self) -> (r: bool)
        ensures
            r == (self.kind == LayoutKind::BuiltIn),
    {
        self.kind == LayoutKind::BuiltIn
    }
}

/// A layout whose name matches the search term.
#[derive(Debug)]
pub struct LayoutSearchResult {
    pub layout_info: LayoutEntry,
    pub score: i64,
    pub indices: Vec<usize>,
}

impl Clone for LayoutSearchResult {
    fn clone(&self) -> (r: Self)
        ensures
            r.layout_info == self.layout_info,
            r.score == self.score,
            r.indices@ == self.indices@,
    {
        LayoutSearchResult {
            layout_info: self.layout_info.clone(),
            score: self.score,
            indices: clone_indices(&self.indices),
        }
    }
}

/// A copy of some positions.
fn clone_indices(v: &Vec<usize>) -> (r: Vec<usize>)
    ensures
        r@ == v@,
{
    let mut r: Vec<usize> = Vec::new();
    let mut i: usize = 0;
    while i < v.len()
        invariant
            i <= v.len(),
            r@ == v@.take(i as int),
        decreases v.len() - i,
    {
        r.push(v[i]);
        i = i + 1;
    }
    assert(v@.take(v.len() as int) == v@);
    r
}

/// A layout match as a value: layout, score and matched positions.
pub type LayoutMatch = (LayoutEntry, i64, Seq<usize>);

/// The value of a layout search result.
pub open spec fn layout_match(r: LayoutSearchResult) -> LayoutMatch {
    (r.layout_info, r.score, r.indices@)
}

/// The values of some layout search results.
pub open spec fn layout_matches_view(rs: Seq<LayoutSearchResult>) -> Seq<LayoutMatch> {
    rs.map_values(|r: LayoutSearchResult| layout_match(r))
}

/// Two entries stand for the same layout: same kind and name (file
/// metadata can change without changing a layout's identity).
pub open spec fn same_layout(a: LayoutEntry, b: LayoutEntry) -> bool {
    a.kind == b.kind && a.name@ == b.name@
}

/// The layouts whose names match `term`, in order.
pub open spec fn layout_matches(layouts: Seq<LayoutEntry>, term: Seq<char>) -> Seq<LayoutMatch>
    decreases layouts.len(),
{
    if layouts.len() == 0 {
        Seq::empty()
    } else {
        let before = layout_matches(layouts.drop_last(), term);
        match skim_match(layouts.last().name@, term) {
            Some((score, positions)) => before.push((layouts.last(), score, positions)),
            None => before,
        }
    }
}

/// Where `m` goes among matches ordered by score: before the first one it
/// outscores.
pub open spec fn score_point(sorted: Seq<LayoutMatch>, m: LayoutMatch) -> nat
    decreases sorted.len(),
{
    if sorted.len() == 0 {
        0
    } else if m.1 > sorted[0].1 {
        0
    } else {
        1 + score_point(sorted.drop_first(), m)
    }
}

/// Matches by descending score, equal scores in their order.
pub open spec fn score_sorted(ms: Seq<LayoutMatch>) -> Seq<LayoutMatch>
    decreases ms.len(),
{
    if ms.len() == 0 {
        Seq::empty()
    } else {
        let sorted = score_sorted(ms.drop_last());
        sorted.insert(score_point(sorted, ms.last()) as int, ms.last())
    }
}

/// The results of searching `layouts` for `term`: none without a term.
pub open spec fn layout_search(layouts: Seq<LayoutEntry>, term: Seq<char>) -> Seq<LayoutMatch> {
    if term.len() == 0 {
        Seq::empty()
    } else {
        score_sorted(layout_matches(layouts, term))
    }
}

/// The first layout of `layouts` that is `target`.
pub open spec fn layout_position(layouts: Seq<LayoutEntry>, target: LayoutEntry, from: nat) -> Option<nat>
    decreases layouts.len() - from,
{
    if from >= layouts.len() {
        None
    } else if same_layout(layouts[from as int], target) {
        Some(from)
    } else {
        layout_position(layouts, target, from + 1)
    }
}

/// The layouts of some matches.
pub open spec fn matched_layouts(ms: Seq<LayoutMatch>) -> Seq<LayoutEntry> {
    ms.map_values(|m: LayoutMatch| m.0)
}

/// The layouts Zellij offers, a search over them, and the selected row.
pub struct LayoutList {
    layout_list: Vec<LayoutEntry>,
    layout_search_results: Vec<LayoutSearchResult>,
    selected_layout_index: usize,
    layout_search_term: String,
}

impl LayoutList {
    /// The offered layouts.
    pub closed spec fn layouts(self) -> Seq<LayoutEntry> {
        self.layout_list@
    }

    /// The search term.
    pub closed spec fn term(self) -> Seq<char> {
        self.layout_search_term@
    }

    /// The search results.
    pub closed spec fn found(self) -> Seq<LayoutMatch> {
        layout_matches_view(self.layout_search_results@)
    }

    /// The selected row, of the results while searching, else of the
    /// layouts.
    pub closed spec fn selected(self) -> nat {
        self.selected_layout_index as nat
    }

    /// The results are those of the term over the layouts.
    pub open spec fn wf(self) -> bool {
        self.found() == layout_search(self.layouts(), self.term())
    }

    /// The layouts on view: the results while searching, else all.
    pub open spec fn shown(self) -> Seq<LayoutEntry> {
        if self.term().len() > 0 {
            matched_layouts(self.found())
        } else {
            self.layouts()
        }
    }

    /// The selected layout, if the selection is on a row.
    pub open spec fn selection(self) -> Option<LayoutEntry> {
        if self.selected() < self.shown().len() {
            Some(self.shown()[self.selected() as int])
        } else {
            None
        }
    }

    /// The last row of what is on view, or 0.
    pub open spec fn last_row(self) -> nat {
        if self.shown().len() == 0 {
            0
        } else {
            (self.shown().len() - 1) as nat
        }
    }
}

/// Inserts `r` among results ordered by score, after every result it does
/// not outscore.
fn insert_by_score(sorted: &mut Vec<LayoutSearchResult>, r: LayoutSearchResult)
    ensures
        layout_matches_view(final(sorted)@) == layout_matches_view(old(sorted)@).insert(
            score_point(layout_matches_view(old(sorted)@), layout_match(r)) as int,
            layout_match(r),
        ),
{
    let ghost s = layout_matches_view(sorted@);
    let ghost m = layout_match(r);
    let mut k: usize = 0;
    assert(s.skip(0) == s);
    while k < sorted.len() && !(r.score > sorted[k].score)
        invariant
            k <= sorted.len(),
            s == layout_matches_view(sorted@),
            m == layout_match(r),
            score_point(s, m) == k + score_point(s.skip(k as int), m),
        decreases sorted.len() - k,
    {
        assert(s.skip(k as int).drop_first() == s.skip(k + 1));
        assert(s.skip(k as int)[0] == s[k as int]);
        k = k + 1;
    }
    if k < sorted.len() {
        assert(s.skip(k as int)[0] == s[k as int]);
    }
    sorted.insert(k, r);
    assert(layout_matches_view(sorted@) =~= s.insert(k as int, m));
}

/// The results of searching `layouts` for `term`.
fn search_layouts(layouts: &Vec<LayoutEntry>, term: &str) -> (r: Vec<LayoutSearchResult>)
    ensures
        layout_matches_view(r@) == layout_search(layouts@, term@),
{
    let mut results: Vec<LayoutSearchResult> = Vec::new();
    if term.is_empty() {
        assert(layout_matches_view(results@) =~= Seq::<LayoutMatch>::empty());
        return results;
    }
    let mut i: usize = 0;
    assert(layouts@.take(0) == Seq::<LayoutEntry>::empty());
    while i < layouts.len()
        invariant
            i <= layouts.len(),
            term@.len() > 0,
            layout_matches_view(results@) == score_sorted(layout_matches(layouts@.take(i as int), term@)),
        decreases layouts.len() - i,
    {
        let ghost before = layout_matches(layouts@.take(i as int), term@);
        assert(layouts@.take(i + 1).drop_last() == layouts@.take(i as int));
        assert(layouts@.take(i + 1).last() == layouts@[i as int]);
        match fuzzy_indices(layouts[i].name.as_str(), term) {
            Some((score, indices)) => {
                let found = LayoutSearchResult { layout_info: layouts[i].clone(), score, indices };
                let ghost m = layout_match(found);
                assert(before.push(m).drop_last() == before);
                insert_by_score(&mut results, found);
            },
            None => {},
        }
        i = i + 1;
    }
    assert(layouts@.take(layouts.len() as int) == layouts@);
    results
}

/// Where a layout is, by identity.
fn find_layout(layouts: &Vec<LayoutEntry>, target: &LayoutEntry) -> (r: Option<usize>)
    ensures
        match r {
            Some(i) => layout_position(layouts@, *target, 0) == Some(i as nat),
            None => layout_position(layouts@, *target, 0) is None,
        },
{
    let mut i: usize = 0;
    while i < layouts.len()
        invariant
            i <= layouts.len(),
            layout_position(layouts@, *target, 0) == layout_position(layouts@, *target, i as nat),
        decreases layouts.len() - i,
    {
        if layouts[i].kind == target.kind && str_eq(layouts[i].name.as_str(), target.name.as_str()) {
            return Some(i);
        }
        i = i + 1;
    }
    None
}

/// The layouts of some results.
fn result_layouts(results: &Vec<LayoutSearchResult>) -> (r: Vec<LayoutEntry>)
    ensures
        r@ == matched_layouts(layout_matches_view(results@)),
{
    let mut r: Vec<LayoutEntry> = Vec::new();
    let mut i: usize = 0;
    while i < results.len()
        invariant
            i <= results.len(),
            r@ == matched_layouts(layout_matches_view(results@)).take(i as int),
        decreases results.len() - i,
    {
        r.push(results[i].layout_info.clone());
        assert(r@ =~= matched_layouts(layout_matches_view(results@)).take(i + 1));
        i = i + 1;
    }
    assert(matched_layouts(layout_matches_view(results@)).take(results.len() as int) == matched_layouts(
        layout_matches_view(results@),
    ));
    r
}

impl LayoutList {
    /// No layouts, no search.
    pub fn new() -> (r: LayoutList)
        ensures
            r.wf(),
            r.layouts().len() == 0,
            r.term().len() == 0,
            r.selected() == 0,
    {
        let r = LayoutList {
            layout_list: Vec::new(),
            layout_search_results: Vec::new(),
            selected_layout_index: 0,
            layout_search_term: String::new(),
        };
        assert(r.found() =~= Seq::<LayoutMatch>::empty());
        r
    }

    /// Replace the offered layouts, keeping the selected layout selected
    /// where it is still on view, and the first row otherwise.
    pub fn update_layout_list(&mut self, layout_list: Vec<LayoutEntry>)
        requires
            old(self).wf(),
        ensures
            final(self).wf(),
            final(self).layouts() == layout_list@,
            final(self).term() == old(self).term(),
            final(self).selected() == match old(self).selection() {
                Some(l) => match layout_position(final(self).shown(), l, 0) {
                    Some(k) => k,
                    None => 0,
                },
                None => 0,
            },
    {
        let selected = self.selected_layout_info();
        self.layout_list = layout_list;
        self.refresh_search();
        let shown = if self.layout_search_term.as_str().is_empty() {
            result_layouts_of_list(&self.layout_list)
        } else {
            result_layouts(&self.layout_search_results)
        };
        self.selected_layout_index = match selected {
            Some(l) => match find_layout(&shown, &l) {
                Some(k) => k,
                None => 0,
            },
            None => 0,
        };
    }

    /// Recompute the results for the current term.
    fn refresh_search(&mut self)
        ensures
            final(self).wf(),
            final(self).layouts() == old(self).layouts(),
            final(self).term() == old(self).term(),
            final(self).selected() == old(self).selected(),
    {
        self.layout_search_results = search_layouts(&self.layout_list, self.layout_search_term.as_str());
    }

    /// The selected layout, if the selection is on a row.
    pub fn selected_layout_info(&self) -> (r: Option<LayoutEntry>)
        ensures
            r == self.selection(),
    {
        if !self.layout_search_term.as_str().is_empty() {
            if self.selected_layout_index < self.layout_search_results.len() {
                Some(self.layout_search_results[self.selected_layout_index].layout_info.clone())
            } else {
                None
            }
        } else {
            if self.selected_layout_index < self.layout_list.len() {
                Some(self.layout_list[self.selected_layout_index].clone())
            } else {
                None
            }
        }
    }

    /// Select the first row.
    pub fn clear_selection(&mut self)
        ensures
            final(self).selected() == 0,
            final(self).layouts() == old(self).layouts(),
            final(self).term() == old(self).term(),
            final(self).found() == old(self).found(),
    {
        self.selected_layout_index = 0;
    }

    /// End the search.
    fn clear_search(&mut self)
        ensures
            final(self).wf(),
            final(self).term().len() == 0,
            final(self).selected() == 0,
            final(self).layouts() == old(self).layouts(),
    {
        self.layout_search_term = String::new();
        self.layout_search_results.clear();
        assert(self.found() =~= Seq::<LayoutMatch>::empty());
        self.clear_selection();
    }

    /// The last row of what is on view.
    fn max_index(&self) -> (r: usize)
        requires
            self.wf(),
        ensures
            r == self.last_row(),
    {
        if self.layout_search_term.as_str().is_empty() {
            if self.layout_list.len() > 0 {
                self.layout_list.len() - 1
            } else {
                0
            }
        } else {
            if self.layout_search_results.len() > 0 {
                self.layout_search_results.len() - 1
            } else {
                0
            }
        }
    }

    /// Move the selection up, wrapping to the last row.
    fn move_selection_up(&mut self)
        requires
            old(self).wf(),
        ensures
            final(self).wf(),
            final(self).layouts() == old(self).layouts(),
            final(self).term() == old(self).term(),
            final(self).selected() == if old(self).selected() > 0 {
                (old(self).selected() - 1) as nat
            } else {
                old(self).last_row()
            },
    {
        let max_index = self.max_index();
        if self.selected_layout_index > 0 {
            self.selected_layout_index = self.selected_layout_index - 1;
        } else {
            self.selected_layout_index = max_index;
        }
    }

    /// Move the selection down, wrapping to the first row.
    fn move_selection_down(&mut self)
        requires
            old(self).wf(),
        ensures
            final(self).wf(),
            final(self).layouts() == old(self).layouts(),
            final(self).term() == old(self).term(),
            final(self).selected() == if old(self).selected() < old(self).last_row() {
                old(self).selected() + 1
            } else {
                0
            },
    {
        let max_index = self.max_index();
        if self.selected_layout_index < max_index {
            self.selected_layout_index = self.selected_layout_index + 1;
        } else {
            self.selected_layout_index = 0;
        }
    }
}

/// A copy of the layouts.
fn result_layouts_of_list(layouts: &Vec<LayoutEntry>) -> (r: Vec<LayoutEntry>)
    ensures
        r@ == layouts@,
{
    let mut r: Vec<LayoutEntry> = Vec::new();
    let mut i: usize = 0;
    while i < layouts.len()
        invariant
            i <= layouts.len(),
            r@ == layouts@.take(i as int),
        decreases layouts.len() - i,
    {
        r.push(layouts[i].clone());
        assert(r@ =~= layouts@.take(i + 1));
        i = i + 1;
    }
    assert(layouts@.take(layouts.len() as int) == layouts@);
    r
}

/// Which field of the form takes input.
#[derive(Clone, Copy, Debug, PartialEq, Eq, Structural)]
pub enum EnteringState {
    /// The session name.
    EnteringName,
    /// The layout search.
    EnteringLayoutSearch,
}

/// A key press as the form reads it.
pub enum FormKey {
    /// Backspace, without modifiers.
    Backspace,
    /// Ctrl+c.
    CtrlC,
    /// Ctrl+r.
    CtrlR,
    /// Esc, without modifiers.
    Esc,
    /// A character typed without modifiers.
    Char(char),
    /// Up, without modifiers.
    Up,
    /// Down, without modifiers.
    Down,
    /// Any other key.
    Other,
}

/// A session to create: its name (empty for a random one), the folder it
/// starts in and the layout it starts with.
#[derive(Debug, PartialEq, Eq)]
pub struct CreationRequest {
    pub name: String,
    pub folder: Option<String>,
    pub layout: Option<LayoutEntry>,
}

/// What pressing Enter on the new-session screen did.
///
/// The caller needs to tell "moved to the next field" apart from "finished",
/// otherwise it cannot know whether to leave the screen.
#[derive(Debug, PartialEq, Eq)]
pub enum SelectionOutcome {
    /// Moved from the name field to the layout picker; stay on this screen.
    AdvancedToLayout,
    /// A session was requested; leave this screen.
    Create(CreationRequest),
    /// The name cannot be used; show this message instead.
    Rejected(&'static str),
}

/// The first layout named `name`.
pub open spec fn named_layout(layouts: Seq<LayoutEntry>, name: Seq<char>, from: nat) -> Option<LayoutEntry>
    decreases layouts.len() - from,
{
    if from >= layouts.len() {
        None
    } else if layouts[from as int].name@ == name {
        Some(layouts[from as int])
    } else {
        named_layout(layouts, name, from + 1)
    }
}

/// An optional string's characters.
pub open spec fn opt_view(o: Option<String>) -> Option<Seq<char>> {
    match o {
        Some(s) => Some(s@),
        None => None,
    }
}

/// An optional text's characters.
pub open spec fn opt_str_view(o: Option<&str>) -> Option<Seq<char>> {
    match o {
        Some(s) => Some(s@),
        None => None,
    }
}

/// Where the first layout named `name` is.
fn find_named(layouts: &[LayoutEntry], name: &str) -> (r: Option<usize>)
    ensures
        match r {
            Some(i) => i < layouts.len() && named_layout(layouts@, name@, 0) == Some(layouts@[i as int]),
            None => named_layout(layouts@, name@, 0) is None,
        },
{
    let mut i: usize = 0;
    while i < layouts.len()
        invariant
            i <= layouts.len(),
            named_layout(layouts@, name@, 0) == named_layout(layouts@, name@, i as nat),
        decreases layouts.len() - i,
    {
        if str_eq(layouts[i].name.as_str(), name) {
            return Some(i);
        }
        i = i + 1;
    }
    None
}

impl CreationRequest {
    /// A request with the configured default layout, which must be one of
    /// `layouts`; without a default, Zellij's own default applies.
    pub fn with_default_layout(
        name: String,
        folder: Option<String>,
        default_layout: Option<&str>,
        layouts: &[LayoutEntry],
    ) -> (r: Result<CreationRequest, &'static str>)
        ensures
            match default_layout {
                None => r matches Ok(req) && req.name == name && req.folder == folder && req.layout is None,
                Some(d) => match named_layout(layouts@, d@, 0) {
                    Some(l) => r matches Ok(req) && req.name == name && req.folder == folder && req.layout
                        == Some(l),
                    None => r == Err::<CreationRequest, &'static str>(
                        "Default layout is unavailable; select a layout or update default_layout",
                    ),
                },
            },
    {
        let layout = match default_layout {
            None => None,
            Some(d) => match find_named(layouts, d) {
                Some(i) => Some(layouts[i].clone()),
                None => {
                    return Err(
                        "Default layout is unavailable; select a layout or update default_layout",
                    );
                },
            },
        };
        Ok(CreationRequest { name, folder, layout })
    }

    /// Check the request's name against the limits, the current session and
    /// the sessions that exist.
    pub fn validate(&self, current: Option<&str>, is_taken: impl FnOnce(&str) -> bool) -> (r: Result<
        (),
        &'static str,
    >)
        requires
            forall|s: &str| call_requires(is_taken, (s,)),
        ensures
            validation_against_current(self.name@, opt_str_view(current)) is Err ==> r
                == validation_against_current(self.name@, opt_str_view(current)),
            validation_against_current(self.name@, opt_str_view(current)) is Ok ==> (self.name@.len()
                == 0 ==> r is Ok) && (self.name@.len() > 0 ==> exists|s: &str, taken: bool|
                s@ == self.name@ && call_ensures(is_taken, (s,), taken) && r == creation_validation(
                    self.name@,
                    opt_str_view(current),
                    taken,
                )),
    {
        let r = validate_for_creation(self.name.as_str(), current, is_taken);
        proof {
            assert(opt_str_view(current) == match current {
                Some(c) => Some(c@),
                None => None,
            });
        }
        r
    }
}

/// The form as values: name, field, layouts, search term, selected row and
/// folder.
pub type FormView = (Seq<char>, EnteringState, Seq<LayoutEntry>, Seq<char>, nat, Option<Seq<char>>);

/// The layouts on view: the results while searching, else all.
pub open spec fn shown_layouts(layouts: Seq<LayoutEntry>, term: Seq<char>) -> Seq<LayoutEntry> {
    if term.len() > 0 {
        matched_layouts(layout_search(layouts, term))
    } else {
        layouts
    }
}

/// The last row on view, or 0.
pub open spec fn last_row_of(layouts: Seq<LayoutEntry>, term: Seq<char>) -> nat {
    if shown_layouts(layouts, term).len() == 0 {
        0
    } else {
        (shown_layouts(layouts, term).len() - 1) as nat
    }
}

/// `s` without its last character.
pub open spec fn erased(s: Seq<char>) -> Seq<char> {
    if s.len() > 0 {
        s.drop_last()
    } else {
        s
    }
}

/// The form after a key press.
pub open spec fn form_step(v: FormView, key: FormKey) -> FormView {
    let naming = v.1 == EnteringState::EnteringName;
    match key {
        FormKey::Backspace => if naming {
            (erased(v.0), v.1, v.2, v.3, v.4, v.5)
        } else {
            (v.0, v.1, v.2, erased(v.3), 0, v.5)
        },
        FormKey::CtrlC => if naming {
            (Seq::empty(), v.1, v.2, v.3, v.4, v.5)
        } else {
            (v.0, EnteringState::EnteringName, v.2, Seq::empty(), 0, v.5)
        },
        FormKey::CtrlR => if naming {
            v
        } else {
            (v.0, EnteringState::EnteringName, v.2, Seq::empty(), 0, v.5)
        },
        FormKey::Esc => if naming {
            (Seq::empty(), v.1, v.2, v.3, v.4, v.5)
        } else if v.3.len() > 0 {
            (v.0, v.1, v.2, Seq::empty(), 0, v.5)
        } else {
            (v.0, EnteringState::EnteringName, v.2, v.3, v.4, v.5)
        },
        FormKey::Char(c) => if naming {
            (v.0.push(c), v.1, v.2, v.3, v.4, v.5)
        } else {
            (v.0, v.1, v.2, v.3.push(c), 0, v.5)
        },
        FormKey::Up => (
            v.0,
            v.1,
            v.2,
            v.3,
            if v.4 > 0 {
                (v.4 - 1) as nat
            } else {
                last_row_of(v.2, v.3)
            },
            v.5,
        ),
        FormKey::Down => (
            v.0,
            v.1,
            v.2,
            v.3,
            if v.4 < last_row_of(v.2, v.3) {
                v.4 + 1
            } else {
                0
            },
            v.5,
        ),
        FormKey::Other => v,
    }
}

/// The state of the new-session form.
pub struct NewSessionInfo {
    name: String,
    layout_list: LayoutList,
    entering_new_session_info: EnteringState,
    pub new_session_folder: Option<String>,
}

impl LayoutList {
    /// Add a character to the search term and select the first result.
    fn push_term(&mut self, c: char)
        requires
            old(self).wf(),
        ensures
            final(self).wf(),
            final(self).layouts() == old(self).layouts(),
            final(self).term() == old(self).term().push(c),
            final(self).selected() == 0,
    {
        push_char(&mut self.layout_search_term, c);
        self.refresh_search();
        self.clear_selection();
    }

    /// Drop the last character of the search term and select the first
    /// result.
    fn pop_term(&mut self)
        requires
            old(self).wf(),
        ensures
            final(self).wf(),
            final(self).layouts() == old(self).layouts(),
            final(self).term() == erased(old(self).term()),
            final(self).selected() == 0,
    {
        let cs = chars_of(self.layout_search_term.as_str());
        let keep = if cs.len() > 0 {
            cs.len() - 1
        } else {
            0
        };
        self.layout_search_term = string_from_chars(sub_chars(cs.as_slice(), 0, keep).as_slice());
        assert(cs@.len() > 0 ==> cs@.subrange(0, keep as int) == cs@.drop_last());
        assert(cs@.len() == 0 ==> cs@.subrange(0, keep as int) == cs@);
        self.refresh_search();
        self.clear_selection();
    }
}

impl NewSessionInfo {
    /// The form as values.
    pub closed spec fn form(self) -> FormView {
        (
            self.name@,
            self.entering_new_session_info,
            self.layout_list.layouts(),
            self.layout_list.term(),
            self.layout_list.selected(),
            opt_view(self.new_session_folder),
        )
    }

    /// The layout list's results match its term.
    pub closed spec fn wf(self) -> bool {
        self.layout_list.wf()
    }

    /// The selected layout, if the selection is on a row.
    pub open spec fn chosen_layout(self) -> Option<LayoutEntry> {
        let shown = shown_layouts(self.form().2, self.form().3);
        if self.form().4 < shown.len() {
            Some(shown[self.form().4 as int])
        } else {
            None
        }
    }

    /// An empty form.
    pub fn new() -> (r: NewSessionInfo)
        ensures
            r.wf(),
            r.form() == (
                Seq::<char>::empty(),
                EnteringState::EnteringName,
                Seq::<LayoutEntry>::empty(),
                Seq::<char>::empty(),
                0nat,
                None::<Seq<char>>,
            ),
    {
        NewSessionInfo {
            name: String::new(),
            layout_list: LayoutList::new(),
            entering_new_session_info: EnteringState::EnteringName,
            new_session_folder: None,
        }
    }

    /// The name typed so far.
    pub fn name(&self) -> (r: &str)
        ensures
            r@ == self.form().0,
    {
        self.name.as_str()
    }

    /// Set the name.
    pub fn set_name(&mut self, name: &str)
        requires
            old(self).wf(),
        ensures
            final(self).wf(),
            final(self).form() == (name@, old(self).form().1, old(self).form().2, old(self).form().3, old(self).form().4, old(self).form().5),
    {
        self.name = string_from_chars(chars_of(name).as_slice());
    }

    /// Set the folder, or clear it.
    pub fn set_folder(&mut self, folder: Option<String>)
        requires
            old(self).wf(),
        ensures
            final(self).wf(),
            final(self).form() == (old(self).form().0, old(self).form().1, old(self).form().2, old(self).form().3, old(self).form().4, opt_view(folder)),
    {
        self.new_session_folder = folder;
    }

    /// The folder the session starts in, if chosen.
    pub fn new_session_folder(&self) -> (r: Option<&str>)
        ensures
            opt_str_view(r) == self.form().5,
    {
        match &self.new_session_folder {
            Some(f) => Some(f.as_str()),
            None => None,
        }
    }

    /// Move on to the layout picker.
    pub fn advance_to_layout_selection(&mut self)
        requires
            old(self).wf(),
        ensures
            final(self).wf(),
            final(self).form() == (old(self).form().0, EnteringState::EnteringLayoutSearch, old(self).form().2, old(self).form().3, old(self).form().4, old(self).form().5),
    {
        self.entering_new_session_info = EnteringState::EnteringLayoutSearch;
    }

    /// Go back from the layout picker to the name, ending the search.
    pub fn correct_session_name(&mut self)
        requires
            old(self).wf(),
        ensures
            final(self).wf(),
            final(self).form() == (old(self).form().0, EnteringState::EnteringName, old(self).form().2, Seq::<char>::empty(), 0nat, old(self).form().5),
    {
        self.layout_list.clear_search();
        self.entering_new_session_info = EnteringState::EnteringName;
    }

    /// The layout search term.
    pub fn layout_search_term(&self) -> (r: &str)
        ensures
            r@ == self.form().3,
    {
        self.layout_list.layout_search_term.as_str()
    }

    /// Whether the name takes input.
    pub fn entering_new_session_name(&self) -> (r: bool)
        ensures
            r == (self.form().1 == EnteringState::EnteringName),
    {
        self.entering_new_session_info == EnteringState::EnteringName
    }

    /// Whether the layout search takes input.
    pub fn entering_layout_search_term(&self) -> (r: bool)
        ensures
            r == (self.form().1 == EnteringState::EnteringLayoutSearch),
    {
        self.entering_new_session_info == EnteringState::EnteringLayoutSearch
    }

    /// Type a character into the field that takes input.
    pub fn add_char(&mut self, character: char)
        requires
            old(self).wf(),
        ensures
            final(self).wf(),
            final(self).form() == form_step(old(self).form(), FormKey::Char(character)),
    {
        match self.entering_new_session_info {
            EnteringState::EnteringName => {
                push_char(&mut self.name, character);
            },
            EnteringState::EnteringLayoutSearch => {
                self.layout_list.push_term(character);
            },
        }
    }

    /// Erase the last character of the field that takes input.
    pub fn handle_backspace(&mut self)
        requires
            old(self).wf(),
        ensures
            final(self).wf(),
            final(self).form() == form_step(old(self).form(), FormKey::Backspace),
    {
        match self.entering_new_session_info {
            EnteringState::EnteringName => {
                let cs = chars_of(self.name.as_str());
                let keep = if cs.len() > 0 {
                    cs.len() - 1
                } else {
                    0
                };
                self.name = string_from_chars(sub_chars(cs.as_slice(), 0, keep).as_slice());
                assert(cs@.len() > 0 ==> cs@.subrange(0, keep as int) == cs@.drop_last());
                assert(cs@.len() == 0 ==> cs@.subrange(0, keep as int) == cs@);
            },
            EnteringState::EnteringLayoutSearch => {
                self.layout_list.pop_term();
            },
        }
    }

    /// Clear the name, or end the layout search and go back to the name.
    pub fn handle_break(&mut self)
        requires
            old(self).wf(),
        ensures
            final(self).wf(),
            final(self).form() == form_step(old(self).form(), FormKey::CtrlC),
    {
        match self.entering_new_session_info {
            EnteringState::EnteringName => {
                self.name = String::new();
            },
            EnteringState::EnteringLayoutSearch => {
                self.layout_list.clear_search();
                self.entering_new_session_info = EnteringState::EnteringName;
            },
        }
    }

    /// Apply a key press to the form.
    pub fn handle_key(&mut self, key: FormKey)
        requires
            old(self).wf(),
        ensures
            final(self).wf(),
            final(self).form() == form_step(old(self).form(), key),
    {
        match key {
            FormKey::Backspace => {
                self.handle_backspace();
            },
            FormKey::CtrlC => {
                self.handle_break();
            },
            FormKey::CtrlR => {
                // Back to the name, only from the layout search.
                if self.entering_new_session_info == EnteringState::EnteringLayoutSearch {
                    self.correct_session_name();
                }
            },
            FormKey::Esc => {
                // Esc goes back to the previous field or clears the current input.
                match self.entering_new_session_info {
                    EnteringState::EnteringLayoutSearch => {
                        if !self.layout_list.layout_search_term.as_str().is_empty() {
                            self.layout_list.clear_search();
                        } else {
                            self.entering_new_session_info = EnteringState::EnteringName;
                        }
                    },
                    EnteringState::EnteringName => {
                        self.name = String::new();
                    },
                }
            },
            FormKey::Char(character) => {
                self.add_char(character);
            },
            FormKey::Up => {
                self.layout_list.move_selection_up();
            },
            FormKey::Down => {
                self.layout_list.move_selection_down();
            },
            FormKey::Other => {},
        }
    }

    /// A request for the form's name and folder with the configured default
    /// layout.
    pub fn quick_creation_request(&self, default_layout: Option<&str>) -> (r: Result<
        CreationRequest,
        &'static str,
    >)
        ensures
            match default_layout {
                None => r matches Ok(req) && req.name@ == self.form().0 && opt_view(req.folder)
                    == self.form().5 && req.layout is None,
                Some(d) => match named_layout(self.form().2, d@, 0) {
                    Some(l) => r matches Ok(req) && req.name@ == self.form().0 && opt_view(req.folder)
                        == self.form().5 && req.layout == Some(l),
                    None => r == Err::<CreationRequest, &'static str>(
                        "Default layout is unavailable; select a layout or update default_layout",
                    ),
                },
            },
    {
        let folder = match &self.new_session_folder {
            Some(f) => Some(f.clone()),
            None => None,
        };
        CreationRequest::with_default_layout(
            self.name.clone(),
            folder,
            default_layout,
            self.layout_list.layout_list.as_slice(),
        )
    }

    /// Return the form to its initial state while retaining the layouts
    /// fetched from Zellij for the next use.
    pub fn reset_after_creation(&mut self)
        requires
            old(self).wf(),
        ensures
            final(self).wf(),
            final(self).form() == (Seq::<char>::empty(), EnteringState::EnteringName, old(self).form().2, Seq::<char>::empty(), 0nat, None::<Seq<char>>),
    {
        self.name = String::new();
        self.new_session_folder = None;
        self.entering_new_session_info = EnteringState::EnteringName;
        self.layout_list.clear_search();
    }

    /// The layout selected, if the selection is on a row.
    pub fn selected_layout_info(&self) -> (r: Option<LayoutEntry>)
        requires
            self.wf(),
        ensures
            r == self.chosen_layout(),
    {
        self.layout_list.selected_layout_info()
    }

    /// Whether a layout search is active.
    pub fn is_searching(&self) -> (r: bool)
        ensures
            r == (self.form().3.len() > 0),
    {
        !self.layout_list.layout_search_term.as_str().is_empty()
    }

    /// The number of layouts offered.
    pub fn layout_count(&self) -> (r: usize)
        ensures
            r == self.form().2.len(),
    {
        self.layout_list.layout_list.len()
    }

    /// Replace the offered layouts, keeping the selected layout selected
    /// where it is still on view.
    pub fn update_layout_list(&mut self, layout_info: Vec<LayoutEntry>)
        requires
            old(self).wf(),
        ensures
            final(self).wf(),
            final(self).form().0 == old(self).form().0,
            final(self).form().1 == old(self).form().1,
            final(self).form().2 == layout_info@,
            final(self).form().3 == old(self).form().3,
            final(self).form().5 == old(self).form().5,
            final(self).form().4 == match old(self).chosen_layout() {
                Some(l) => match layout_position(shown_layouts(layout_info@, old(self).form().3), l, 0) {
                    Some(k) => k,
                    None => 0,
                },
                None => 0,
            },
    {
        self.layout_list.update_layout_list(layout_info);
    }

    /// Advance the screen: name field to layout picker, layout picker to
    /// creating the session.
    ///
    /// The name is validated on the way out of the name field as well as at
    /// creation, so a name that cannot work is reported while the user is
    /// still looking at it.
    pub fn handle_selection(
        &mut self,
        current_session_name: &Option<String>,
        is_name_taken: impl FnOnce(&str) -> bool,
    ) -> (r: SelectionOutcome)
        requires
            old(self).wf(),
            forall|s: &str| call_requires(is_name_taken, (s,)),
        ensures
            final(self).wf(),
            !(r is AdvancedToLayout) ==> *final(self) == *old(self),
            ({
                let v = old(self).form();
                let check = validation_against_current(v.0, opt_view(*current_session_name));
                let proceed = if v.1 == EnteringState::EnteringLayoutSearch {
                    final(self).form() == v && if v.3.len() > 0 && old(self).chosen_layout() is None {
                        r == SelectionOutcome::Rejected("No matching layout; edit or clear the search")
                    } else {
                        r matches SelectionOutcome::Create(req) && req.name@ == v.0 && opt_view(req.folder)
                            == v.5 && req.layout == old(self).chosen_layout()
                    }
                } else {
                    final(self).form() == (v.0, EnteringState::EnteringLayoutSearch, v.2, v.3, v.4, v.5)
                        && r is AdvancedToLayout
                };
                &&& check is Err ==> final(self).form() == v && r == SelectionOutcome::Rejected(
                    check->Err_0,
                )
                &&& (check is Ok && v.0.len() == 0) ==> proceed
                &&& (check is Ok && v.0.len() > 0) ==> exists|s: &str, taken: bool|
                    s@ == v.0 && call_ensures(is_name_taken, (s,), taken) && (taken ==> final(self).form() == v && r == SelectionOutcome::Rejected(
                        "A session with this name already exists",
                    )) && (!taken ==> proceed)
            }),
    {
        let current = match current_session_name {
            Some(c) => Some(c.as_str()),
            None => None,
        };
        assert(opt_str_view(current) == opt_view(*current_session_name));
        if let Err(message) = validate_for_creation(self.name.as_str(), current, is_name_taken) {
            return SelectionOutcome::Rejected(message);
        }
        match self.entering_new_session_info {
            EnteringState::EnteringLayoutSearch => {
                let layout = self.selected_layout_info();
                if self.is_searching() && layout.is_none() {
                    return SelectionOutcome::Rejected("No matching layout; edit or clear the search");
                }
                let folder = match &self.new_session_folder {
                    Some(f) => Some(f.clone()),
                    None => None,
                };
                SelectionOutcome::Create(CreationRequest { name: self.name.clone(), folder, layout })
            },
            EnteringState::EnteringName => {
                self.entering_new_session_info = EnteringState::EnteringLayoutSearch;
                SelectionOutcome::AdvancedToLayout
            },
        }
    }
}

/// The selected row as an optional index.
pub open spec fn selected_row(v: FormView) -> Option<usize> {
    Some(v.4 as usize)
}

impl NewSessionInfo {
    /// The layouts in the window of `max_rows` rows around the selection,
    /// each with whether it is selected.
    pub fn layout_list(&self, max_rows: usize) -> (r: Vec<(LayoutEntry, bool)>)
        requires
            self.wf(),
        ensures
            ({
                let v = self.form();
                let first = window_start(max_rows as nat, v.2.len(), selected_row(v));
                &&& r@.len() == window_len(max_rows as nat, v.2.len())
                &&& forall|k: int|
                    0 <= k < r@.len() ==> (#[trigger] r@[k]).0 == v.2[first + k] && r@[k].1 == (first + k
                        == v.4)
            }),
    {
        let layouts = &self.layout_list.layout_list;
        let selected = self.layout_list.selected_layout_index;
        let (first, last) = visible_range(max_rows, layouts.len(), Some(selected));
        proof {
            lemma_window_inside_list_and_shows_selection(max_rows as nat, layouts.len() as nat, Some(selected));
        }
        let mut rows: Vec<(LayoutEntry, bool)> = Vec::new();
        let mut i: usize = first;
        while i < last
            invariant
                first <= i <= last,
                last <= layouts.len(),
                rows@.len() == i - first,
                forall|k: int|
                    0 <= k < rows@.len() ==> (#[trigger] rows@[k]).0 == layouts@[first + k] && rows@[k].1
                        == (first + k == selected),
            decreases last - i,
        {
            rows.push((layouts[i].clone(), i == selected));
            i = i + 1;
        }
        rows
    }

    /// The search results in the window of `max_rows` rows around the
    /// selection, each with whether it is selected.
    pub fn layout_search_results(&self, max_rows: usize) -> (r: Vec<(LayoutSearchResult, bool)>)
        requires
            self.wf(),
        ensures
            ({
                let v = self.form();
                let found = layout_search(v.2, v.3);
                let first = window_start(max_rows as nat, found.len(), selected_row(v));
                &&& r@.len() == window_len(max_rows as nat, found.len())
                &&& forall|k: int|
                    0 <= k < r@.len() ==> layout_match((#[trigger] r@[k]).0) == found[first + k] && r@[k].1
                        == (first + k == v.4)
            }),
    {
        let results = &self.layout_list.layout_search_results;
        let selected = self.layout_list.selected_layout_index;
        let (first, last) = visible_range(max_rows, results.len(), Some(selected));
        proof {
            lemma_window_inside_list_and_shows_selection(max_rows as nat, results.len() as nat, Some(selected));
        }
        let mut rows: Vec<(LayoutSearchResult, bool)> = Vec::new();
        let mut i: usize = first;
        while i < last
            invariant
                first <= i <= last,
                last <= results.len(),
                rows@.len() == i - first,
                forall|k: int|
                    0 <= k < rows@.len() ==> layout_match((#[trigger] rows@[k]).0) == layout_match(
                        results@[first + k],
                    ) && rows@[k].1 == (first + k == selected),
            decreases last - i,
        {
            rows.push((results[i].clone(), i == selected));
            i = i + 1;
        }
        rows
    }

    /// The rows of the layout picker: the search results with their matched
    /// positions while searching, otherwise the layouts.
    pub fn layouts_to_render(&self, max_rows: usize) -> (r: Vec<(LayoutEntry, Vec<usize>, bool)>)
        requires
            self.wf(),
        ensures
            ({
                let v = self.form();
                let found = layout_search(v.2, v.3);
                let n = if v.3.len() > 0 {
                    found.len()
                } else {
                    v.2.len()
                };
                let first = window_start(max_rows as nat, n, selected_row(v));
                &&& r@.len() == window_len(max_rows as nat, n)
                &&& forall|k: int|
                    0 <= k < r@.len() ==> if v.3.len() > 0 {
                        (#[trigger] r@[k]).0 == found[first + k].0 && r@[k].1@ == found[first + k].2
                            && r@[k].2 == (first + k == v.4)
                    } else {
                        r@[k].0 == v.2[first + k] && r@[k].1@.len() == 0 && r@[k].2 == (first + k == v.4)
                    }
            }),
    {
        let mut rows: Vec<(LayoutEntry, Vec<usize>, bool)> = Vec::new();
        if self.is_searching() {
            let found = self.layout_search_results(max_rows);
            let mut i: usize = 0;
            while i < found.len()
                invariant
                    i <= found.len(),
                    rows@.len() == i,
                    forall|k: int|
                        0 <= k < i ==> (#[trigger] rows@[k]).0 == found@[k].0.layout_info && rows@[k].1@
                            == found@[k].0.indices@ && rows@[k].2 == found@[k].1,
                decreases found.len() - i,
            {
                let (result, selected) = (found[i].0.clone(), found[i].1);
                rows.push((result.layout_info, result.indices, selected));
                i = i + 1;
            }
        } else {
            let listed = self.layout_list(max_rows);
            let mut i: usize = 0;
            while i < listed.len()
                invariant
                    i <= listed.len(),
                    rows@.len() == i,
                    forall|k: int|
                        0 <= k < i ==> (#[trigger] rows@[k]).0 == listed@[k].0 && rows@[k].1@.len() == 0
                            && rows@[k].2 == listed@[k].1,
                decreases listed.len() - i,
            {
                rows.push((listed[i].0.clone(), Vec::new(), listed[i].1));
                i = i + 1;
            }
        }
        rows
    }
}

impl Default for NewSessionInfo {
    fn default() -> (r: Self)
        ensures
            r.wf(),
            r.form() == (
                Seq::<char>::empty(),
                EnteringState::EnteringName,
                Seq::<LayoutEntry>::empty(),
                Seq::<char>::empty(),
                0nat,
                None::<Seq<char>>,
            ),
    {
        NewSessionInfo::new()
    }
}

impl NewSessionInfo {
    /// Move the layout selection up, wrapping to the last row.
    pub fn move_selection_up(&mut self)
        requires
            old(self).wf(),
        ensures
            final(self).wf(),
            final(self).form() == form_step(old(self).form(), FormKey::Up),
    {
        self.layout_list.move_selection_up();
    }

    /// Move the layout selection down, wrapping to the first row.
    pub fn move_selection_down(&mut self)
        requires
            old(self).wf(),
        ensures
            final(self).wf(),
            final(self).form() == form_step(old(self).form(), FormKey::Down),
    {
        self.layout_list.move_selection_down();
    }
}

impl Default for LayoutList {
    fn default() -> (r: Self)
        ensures
            r.wf(),
            r.layouts().len() == 0,
            r.term().len() == 0,
            r.selected() == 0,
    {
        LayoutList::new()
    }
}


/// Where the score point lies: after every match `m` does not outscore,
/// before the first one it does.
proof fn lemma_score_point(s: Seq<LayoutMatch>, m: LayoutMatch)
    ensures
        score_point(s, m) <= s.len(),
        forall|j: int| 0 <= j < score_point(s, m) ==> m.1 <= #[trigger] s[j].1,
        score_point(s, m) < s.len() ==> m.1 > s[score_point(s, m) as int].1,
    decreases s.len(),
{
    if s.len() > 0 && !(m.1 > s[0].1) {
        let t = s.drop_first();
        lemma_score_point(t, m);
        assert forall|j: int| 0 <= j < score_point(s, m) implies m.1 <= #[trigger] s[j].1 by {
            if j > 0 {
                assert(s[j] == t[j - 1]);
            }
        }
        if score_point(s, m) < s.len() {
            assert(s[score_point(s, m) as int] == t[score_point(t, m) as int]);
        }
    }
}

/// Sorting by score leaves the scores non-increasing and keeps every match.
proof fn lemma_score_sorted(ms: Seq<LayoutMatch>)
    ensures
        forall|a: int, b: int|
            0 <= a < b < score_sorted(ms).len() ==> #[trigger] score_sorted(ms)[a].1
                >= #[trigger] score_sorted(ms)[b].1,
        score_sorted(ms).len() == ms.len(),
        forall|m: LayoutMatch| ms.contains(m) <==> score_sorted(ms).contains(m),
    decreases ms.len(),
{
    if ms.len() > 0 {
        let s = score_sorted(ms.drop_last());
        let x = ms.last();
        lemma_score_sorted(ms.drop_last());
        lemma_score_point(s, x);
        let k = score_point(s, x) as int;
        let t = s.insert(k, x);
        assert(score_sorted(ms) == t);
        assert forall|a: int, b: int| 0 <= a < b < t.len() implies #[trigger] t[a].1 >= #[trigger] t[b].1 by {
            if b < k {
                assert(t[a] == s[a] && t[b] == s[b]);
            } else if b == k {
                assert(t[a] == s[a] && t[b] == x);
            } else if a < k {
                assert(t[a] == s[a] && t[b] == s[b - 1]);
            } else if a == k {
                assert(t[a] == x && t[b] == s[b - 1]);
                assert(s[k].1 >= s[b - 1].1);
            } else {
                assert(t[a] == s[a - 1] && t[b] == s[b - 1]);
            }
        }
        assert forall|m: LayoutMatch| ms.contains(m) <==> t.contains(m) by {
            if ms.contains(m) {
                let i = choose|i: int| 0 <= i < ms.len() && ms[i] == m;
                if i < ms.len() - 1 {
                    assert(ms.drop_last()[i] == m);
                    assert(ms.drop_last().contains(m));
                    let j = choose|j: int| 0 <= j < s.len() && s[j] == m;
                    if j < k {
                        assert(t[j] == m);
                    } else {
                        assert(t[j + 1] == m);
                    }
                } else {
                    assert(t[k] == m);
                }
            }
            if t.contains(m) {
                let i = choose|i: int| 0 <= i < t.len() && t[i] == m;
                if i == k {
                    assert(ms[ms.len() - 1] == m);
                } else {
                    let j = if i < k {
                        i
                    } else {
                        i - 1
                    };
                    assert(s[j] == m);
                    assert(ms.drop_last().contains(m));
                    let l = choose|l: int| 0 <= l < ms.drop_last().len() && ms.drop_last()[l] == m;
                    assert(ms[l] == m);
                }
            }
        }
    }
}

/// Layout search results come best score first: down the list the scores
/// never rise, so the preselected first row is a best match. Every layout
/// matching the term is listed, and nothing else, as many results as matches.
pub proof fn lemma_layout_results_best_first(layouts: Seq<LayoutEntry>, term: Seq<char>)
    ensures
        forall|a: int, b: int|
            0 <= a < b < layout_search(layouts, term).len() ==> #[trigger] layout_search(layouts, term)[a].1
                >= #[trigger] layout_search(layouts, term)[b].1,
        term.len() > 0 ==> layout_search(layouts, term).len() == layout_matches(layouts, term).len(),
        term.len() > 0 ==> forall|m: LayoutMatch|
            layout_matches(layouts, term).contains(m) <==> layout_search(layouts, term).contains(m),
{
    lemma_score_sorted(layout_matches(layouts, term));
}

} // verus!
