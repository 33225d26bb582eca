//! The picker's state: what the plugin knows of sessions, directories and
//! records, what is on screen, and what each event and key press changes.
//! Work only the host can do (running commands, switching sessions, hiding
//! the pane) is handed back as effects, which the caller carries out in
//! order.

use vstd::prelude::*;
use crate::config::Config;
use crate::list::{as_nat_option, clamp_selection, clamped_index};
use crate::input::{
    deletion_action, deletion_confirmation_action, main_action, main_screen_action, new_session_action,
    new_session_screen_action, pane_focused, pane_visible, picker_activity, DeletionAction, MainAction,
    NewSessionAction, PickerKey, PickerPane,
};
use crate::list::{next_index, previous_index, select_next, select_previous};
use crate::new_session_info::{
    form_step, layout_position, named_layout, opt_str_view, opt_view, shown_layouts, CreationRequest, EnteringState,
    FormKey, LayoutEntry, NewSessionInfo, SelectionOutcome,
};
use crate::session_name::{creation_validation, validation_against_current};
use crate::picker::{
    directory_rows, directory_rows_spec, is_dead_row, is_live_row, lemma_visit_sorted_keeps_rows, session_rows,
    session_rows_spec, sort_by_visits, texts, visit_sorted,
};
use crate::projects::{apply_lines, next_stamp, pin_key, pin_value, pinned_in, record_line, session_key, Projects};
use crate::session::listing::{dead_view, joined, read_listing, trim_ws, trimmed, SessionListing};
use crate::session::manager::{
    clone_layouts, clone_sessions, dead_names, find_current, first_current, incremented_name, is_taken, kept,
    name_flags, new_uuid, session_names,
    notified, sessions_view, uuid_text, with_listing, LiveSession, SessionManager, SessionView,
};
use crate::session::types::Elapsed;
use crate::session_usage::{pruned, remember_all, remembered, visit_line};
use crate::strings::{lemma_lex_lt_asymmetric, lemma_lex_lt_irreflexive, lex_lt};
use crate::strings::text_lines;
use crate::session::types::{same_item, SessionItem};
use crate::session_name::str_eq;
use crate::session_usage::SessionUsage;
use crate::strings::{chars_of, string_from_chars};
use crate::zoxide::search::{matches_of, ordered_matches, searched_selection, SearchEngine};

verus! {

broadcast use vstd::string::group_string_axioms;

/// Represents the different screens in the plugin
#[derive(Clone, Copy, Debug, PartialEq, Eq, Structural)]
pub enum ActiveScreen {
    /// Main screen showing zoxide directories and sessions
    Main,
    /// New session creation screen
    NewSession,
}

impl Default for ActiveScreen {
    fn default() -> (r: Self)
        ensures
            r == ActiveScreen::Main,
    {
        ActiveScreen::Main
    }
}

/// Work the host carries out for the picker, in the order given.
#[derive(Debug)]
pub enum Effect {
    /// Fetch the session list from Zellij and hand it to
    /// `update_session_list`; then start the CLI listing if
    /// `begin_session_listing` allows it.
    FetchSessions,
    /// Run `zoxide query -l -s`; its directories go to
    /// `update_zoxide_directories`.
    FetchZoxide,
    /// Share these visit records through the usage store.
    StoreVisits(Vec<String>),
    /// Run the projects store, appending `record` if there is one; the outcome
    /// goes to `project_command_finished` with `creation_id`.
    StoreProjects { record: Option<String>, creation_id: Option<String> },
    /// The effects of `refresh_session_usage`, at this point.
    RefreshUsage,
    /// Switch to this session.
    Switch(String),
    /// Kill this session, or delete it when `dead` holds; the outcome goes to
    /// `deletion_finished`.
    Kill { name: String, dead: bool },
    /// Hide the picker's pane.
    Hide,
    /// Start the one-second refresh timer.
    StartTimer,
    /// Ask the filepicker for a folder, tagged with `request_id`, starting at
    /// `folder`.
    PickFolder { request_id: String, folder: Option<String> },
    /// Create or switch to the requested session.
    Create(CreationRequest),
    /// The effects of `finish_creation` for this request, at this point.
    FinishCreation(CreationRequest),
    /// Print this line to the log.
    Log(String),
}

/// The main plugin state
pub struct PluginState {
    /// Whether the plugin may run commands and act on sessions.
    pub permissions_granted: bool,
    /// Whether the picker's pane is on screen.
    pub is_visible: bool,
    /// Whether the refresh timer is running.
    pub refresh_timer_pending: bool,
    /// Whether a CLI listing of the sessions is under way.
    pub session_listing_pending: bool,
    /// Whether the picker's pane has focus.
    pub is_focused: bool,
    /// The last visit of each session, shared between instances.
    pub session_usage: SessionUsage,
    /// Pins and session folders, shared between instances.
    pub projects: Projects,
    /// Whether the projects store answered at least once.
    pub projects_loaded: bool,
    /// A creation waiting for its folder to be saved, under its id.
    pub pending_creation: Option<(String, CreationRequest)>,
    /// Plugin configuration
    pub config: Config,
    /// Session manager
    pub session_manager: SessionManager,
    /// Zoxide directories, most used first (managed separately from sessions)
    pub zoxide_directories: Vec<String>,
    /// The directory rows: zoxide's directories and the pins it lost.
    pub directory_items: Vec<SessionItem>,
    /// Search engine for fuzzy finding
    pub search_engine: SearchEngine,
    /// New session creation component
    pub new_session_info: NewSessionInfo,
    /// Current active screen
    pub active_screen: ActiveScreen,
    /// Error message to display
    pub error: Option<String>,
    /// Current session name
    pub current_session_name: Option<String>,
    /// Request IDs for plugin communication
    pub request_ids: Vec<String>,
    /// Selected index in main list (when not searching)
    pub selected_index: Option<usize>,
    /// Cached merge of sessions and zoxide directories, rebuilt only when
    /// sessions, directories or records change: it is read several times per
    /// render and once per keystroke.
    pub combined_items: Vec<SessionItem>,
}

/// Where the first item standing for the same row as `item` is, from `from`
/// on.
pub open spec fn item_position(items: Seq<SessionItem>, item: SessionItem, from: nat) -> Option<nat>
    decreases items.len() - from,
{
    if from >= items.len() {
        None
    } else if same_item(items[from as int], item) {
        Some(from)
    } else {
        item_position(items, item, from + 1)
    }
}

/// The list selection after a rebuild, before it is clamped: the row that
/// was selected keeps the selection where it is still listed; a search
/// keeps its own.
pub open spec fn reselected(
    index: Option<usize>,
    selected: Option<SessionItem>,
    searching: bool,
    items: Seq<SessionItem>,
) -> Option<usize> {
    if searching {
        index
    } else {
        match selected {
            Some(s) => match item_position(items, s, 0) {
                Some(k) => Some(k as usize),
                None => index,
            },
            None => index,
        }
    }
}

/// What a search for `term` over `items` leaves, from the engine `old`.
pub open spec fn searched(old: SearchEngine, new: SearchEngine, term: Seq<char>, items: Seq<SessionItem>) -> bool {
    &&& new.wf()
    &&& new.term() == term
    &&& new.active() == (term.len() > 0)
    &&& term.len() > 0 ==> new.found() == ordered_matches(matches_of(items, term))
    &&& term.len() > 0 ==> as_nat_option(new.selection()) == searched_selection(
        old.term(),
        old.selected_match(),
        old.selection(),
        term,
        new.found(),
    )
    &&& term.len() == 0 ==> new.found().len() == 0 && new.selection() is None
}

/// `new` is the form `old` with its layouts replaced by `layouts`, the
/// selected layout kept selected where it is still on view.
pub open spec fn layouts_replaced(old: NewSessionInfo, new: NewSessionInfo, layouts: Seq<LayoutEntry>) -> bool {
    &&& new.wf()
    &&& new.form().0 == old.form().0
    &&& new.form().1 == old.form().1
    &&& new.form().2 == layouts
    &&& new.form().3 == old.form().3
    &&& new.form().5 == old.form().5
    &&& new.form().4 == match old.chosen_layout() {
        Some(l) => match layout_position(shown_layouts(layouts, old.form().3), l, 0) {
            Some(k) => k,
            None => 0,
        },
        None => 0,
    }
}

/// `items` is the picker's list: the rows of the live sessions `live` and
/// the resurrectable sessions `dead` (shown when `show` holds), ordered by
/// last visit in `usage`, then the directory rows `dirs`.
pub open spec fn combined_list(
    items: Seq<SessionItem>,
    live: Seq<(Seq<char>, bool)>,
    dead: Seq<(Seq<char>, (u64, u32))>,
    show: bool,
    projects: Map<Seq<char>, (u128, Seq<char>)>,
    usage: Map<Seq<char>, u128>,
    dirs: Seq<SessionItem>,
) -> bool {
    exists|rows: Seq<SessionItem>|
        session_rows_spec(rows, live, dead, show, projects) && items == visit_sorted(usage, rows) + dirs
}

/// `items` are the directory rows for the zoxide directories `zoxide` and
/// the pinned paths of `projects`, in increasing order.
pub open spec fn directory_list(
    items: Seq<SessionItem>,
    zoxide: Seq<Seq<char>>,
    projects: Map<Seq<char>, (u128, Seq<char>)>,
    base_paths: Seq<Seq<char>>,
    separator: Seq<char>,
) -> bool {
    exists|pins: Seq<Seq<char>>|
        (forall|a: int, b: int| 0 <= a < b < pins.len() ==> lex_lt(#[trigger] pins[a], #[trigger] pins[b]))
            && (forall|p: Seq<char>| pinned_in(projects, p) <==> #[trigger] pins.contains(p))
            && directory_rows_spec(items, zoxide, pins, projects, base_paths, separator)
}

/// `now` a nanosecond later, where that fits.
pub open spec fn just_after(now: u128) -> u128 {
    if now < u128::MAX {
        (now + 1) as u128
    } else {
        now
    }
}

/// A named destination: none when the name is empty.
pub open spec fn named(destination: Option<Seq<char>>) -> Option<Seq<char>> {
    match destination {
        Some(d) => if d.len() > 0 {
            Some(d)
        } else {
            None
        },
        None => None,
    }
}

/// The visit history once the current session, if known, is recorded at
/// `now` and the destination, if named, a nanosecond later.
pub open spec fn visits_recorded(
    history: Map<Seq<char>, u128>,
    current: Option<Seq<char>>,
    destination: Option<Seq<char>>,
    now: u128,
) -> Map<Seq<char>, u128> {
    let first = match current {
        Some(n) => pruned(remembered(history, n, now)),
        None => history,
    };
    match named(destination) {
        Some(d) => pruned(remembered(first, d, just_after(now))),
        None => first,
    }
}

/// The history lines of those visits, in the same order.
pub open spec fn visit_lines(current: Option<Seq<char>>, destination: Option<Seq<char>>, now: u128) -> Seq<
    Seq<char>,
> {
    let first = match current {
        Some(n) => seq![visit_line(n, now)],
        None => Seq::empty(),
    };
    match named(destination) {
        Some(d) => first.push(visit_line(d, just_after(now))),
        None => first,
    }
}

/// Two lists sorted strictly in lexicographic order that hold the same texts
/// are the same list.
proof fn lemma_sorted_same_texts(a: Seq<Seq<char>>, b: Seq<Seq<char>>)
    requires
        forall|i: int, j: int| 0 <= i < j < a.len() ==> lex_lt(#[trigger] a[i], #[trigger] a[j]),
        forall|i: int, j: int| 0 <= i < j < b.len() ==> lex_lt(#[trigger] b[i], #[trigger] b[j]),
        forall|p: Seq<char>| a.contains(p) <==> b.contains(p),
    ensures
        a == b,
    decreases a.len(),
{
    if a.len() == 0 {
        if b.len() > 0 {
            assert(b.contains(b[0]));
        }
        assert(a =~= b);
    } else if b.len() == 0 {
        assert(a.contains(a[0]));
    } else {
        assert(a.contains(a[0]));
        assert(b.contains(b[0]));
        if a[0] != b[0] {
            let k = choose|k: int| 0 <= k < a.len() && a[k] == b[0];
            let m = choose|m: int| 0 <= m < b.len() && b[m] == a[0];
            assert(k != 0 && m != 0);
            assert(lex_lt(a[0], a[k]));
            assert(lex_lt(b[0], b[m]));
            lemma_lex_lt_asymmetric(a[0], b[0], 0);
        }
        let ra = a.drop_first();
        let rb = b.drop_first();
        assert forall|p: Seq<char>| ra.contains(p) <==> rb.contains(p) by {
            if ra.contains(p) {
                let k = choose|k: int| 0 <= k < ra.len() && ra[k] == p;
                assert(a[k + 1] == p);
                assert(lex_lt(a[0], a[k + 1]));
                lemma_lex_lt_irreflexive(p, 0);
                assert(a.contains(p));
                let m = choose|m: int| 0 <= m < b.len() && b[m] == p;
                assert(m != 0);
                assert(rb[m - 1] == p);
            }
            if rb.contains(p) {
                let m = choose|m: int| 0 <= m < rb.len() && rb[m] == p;
                assert(b[m + 1] == p);
                assert(lex_lt(b[0], b[m + 1]));
                lemma_lex_lt_irreflexive(p, 0);
                assert(b.contains(p));
                let k = choose|k: int| 0 <= k < a.len() && a[k] == p;
                assert(k != 0);
                assert(ra[k - 1] == p);
            }
        }
        assert forall|i: int, j: int| 0 <= i < j < ra.len() implies lex_lt(#[trigger] ra[i], #[trigger] ra[j]) by {
            assert(lex_lt(a[i + 1], a[j + 1]));
        }
        assert forall|i: int, j: int| 0 <= i < j < rb.len() implies lex_lt(#[trigger] rb[i], #[trigger] rb[j]) by {
            assert(lex_lt(b[i + 1], b[j + 1]));
        }
        lemma_sorted_same_texts(ra, rb);
        assert(a =~= seq![a[0]] + ra);
        assert(b =~= seq![b[0]] + rb);
    }
}

/// Whether two lists hold the same texts in the same order.
fn same_texts(a: &[String], b: &[String]) -> (r: bool)
    ensures
        r == (texts(a@) == texts(b@)),
{
    if a.len() != b.len() {
        assert(texts(a@).len() != texts(b@).len());
        return false;
    }
    let mut i: usize = 0;
    while i < a.len()
        invariant
            i <= a.len(),
            a.len() == b.len(),
            forall|j: int| 0 <= j < i ==> texts(a@)[j] == texts(b@)[j],
        decreases a.len() - i,
    {
        if !str_eq(a[i].as_str(), b[i].as_str()) {
            assert(texts(a@)[i as int] != texts(b@)[i as int]);
            return false;
        }
        i = i + 1;
    }
    assert(texts(a@) =~= texts(b@));
    true
}

/// `effects` is the one run of the projects store that saves `line` for the
/// creation `id`.
pub open spec fn stored_for(effects: Seq<Effect>, id: String, line: Seq<char>) -> bool {
    &&& effects.len() == 1
    &&& effects[0] matches Effect::StoreProjects { record: Some(l), creation_id: Some(c) } && c == id && l@ == line
}

/// The texts left once every `x` is taken out.
pub open spec fn without(v: Seq<Seq<char>>, x: Seq<char>) -> Seq<Seq<char>>
    decreases v.len(),
{
    if v.len() == 0 {
        v
    } else if v.last() == x {
        without(v.drop_last(), x)
    } else {
        without(v.drop_last(), x).push(v.last())
    }
}

/// The path a pin toggle acts on: a directory's own, or the folder recorded
/// for a session.
pub open spec fn pin_target(selected: Option<SessionItem>) -> Option<Seq<char>> {
    match selected {
        Some(SessionItem::Directory { path, .. }) => Some(path@),
        Some(SessionItem::ExistingSession { directory, .. }) => if directory@.len() > 0 {
            Some(directory@)
        } else {
            None
        },
        _ => None,
    }
}

/// The form after a creation: empty again, with its layouts kept.
pub open spec fn form_reset(old: NewSessionInfo, new: NewSessionInfo) -> bool {
    new.wf() && new.form() == (
        Seq::<char>::empty(),
        EnteringState::EnteringName,
        old.form().2,
        Seq::<char>::empty(),
        0nat,
        None::<Seq<char>>,
    )
}

/// The layouts of the first current session, if there is one.
pub open spec fn current_layouts(v: Seq<SessionView>) -> Seq<LayoutEntry> {
    match first_current(v, 0) {
        Some(i) => v[i as int].2,
        None => Seq::empty(),
    }
}

/// The key as the new-session form reads it.
pub open spec fn form_key_of(key: PickerKey) -> FormKey {
    match key {
        PickerKey::Backspace => FormKey::Backspace,
        PickerKey::Ctrl(c) => if c == 'c' {
            FormKey::CtrlC
        } else if c == 'r' {
            FormKey::CtrlR
        } else {
            FormKey::Other
        },
        PickerKey::Esc => FormKey::Esc,
        PickerKey::Char(c) => FormKey::Char(c),
        PickerKey::Up => FormKey::Up,
        PickerKey::Down => FormKey::Down,
        _ => FormKey::Other,
    }
}

/// The key as the new-session form reads it.
fn form_key(key: &PickerKey) -> (r: FormKey)
    ensures
        r == form_key_of(*key),
{
    match key {
        PickerKey::Backspace => FormKey::Backspace,
        PickerKey::Ctrl(c) => if *c == 'c' {
            FormKey::CtrlC
        } else if *c == 'r' {
            FormKey::CtrlR
        } else {
            FormKey::Other
        },
        PickerKey::Esc => FormKey::Esc,
        PickerKey::Char(c) => FormKey::Char(*c),
        PickerKey::Up => FormKey::Up,
        PickerKey::Down => FormKey::Down,
        _ => FormKey::Other,
    }
}

/// What the host reports to the picker.
pub enum PluginEvent {
    /// The input mode changed, and with it maybe the theme.
    ModeUpdate,
    /// A key press.
    Key(PickerKey),
    /// Whether the permissions were granted.
    Permissions(bool),
    /// Zellij's notification of the sessions.
    SessionUpdate(Vec<LiveSession>),
    /// A pane or tab report: the picker's pane as it now stands, if found.
    PaneReport(Option<PickerPane>),
    /// The CLI listing finished: its output, or its error output.
    SessionListing(Result<String, String>),
    /// The zoxide query finished: the directories, most used first, or its
    /// error output.
    Zoxide(Result<Vec<String>, String>),
    /// The usage store finished: the shared history, or its error output.
    SessionUsage(Result<String, String>),
    /// The projects store finished, for the creation `creation_id` if any.
    Projects { success: bool, output: String, error: String, creation_id: Option<String> },
    /// The pane was shown or hidden.
    Visible(bool),
    /// The refresh timer fired.
    Timer,
}

/// `effects` is one log line: `prefix` and then `text`.
pub open spec fn logged(effects: Seq<Effect>, prefix: Seq<char>, text: Seq<char>) -> bool {
    &&& effects.len() == 1
    &&& effects[0] matches Effect::Log(line) && line@ == prefix + text
}

/// One log line: `prefix` and then `text`.
fn log_line(prefix: &str, text: &str) -> (effects: Vec<Effect>)
    ensures
        logged(effects@, prefix@, text@),
{
    let mut effects: Vec<Effect> = Vec::new();
    effects.push(Effect::Log(joined(prefix, chars_of(text).as_slice())));
    effects
}

/// Where the first item standing for the same row as `item` is.
fn position_of(items: &[SessionItem], item: &SessionItem) -> (r: Option<usize>)
    ensures
        as_nat_option(r) == item_position(items@, *item, 0),
{
    let mut i: usize = 0;
    while i < items.len()
        invariant
            i <= items.len(),
            item_position(items@, *item, 0) == item_position(items@, *item, i as nat),
        decreases items.len() - i,
    {
        if items[i].same_identity(item) {
            return Some(i);
        }
        i = i + 1;
    }
    None
}

impl PluginState {
    /// The search results and the new-session form are consistent.
    pub open spec fn wf(self) -> bool {
        self.search_engine.wf() && self.new_session_info.wf()
    }

    /// The selected row: the selected result while searching, else the
    /// selected row of the list.
    pub open spec fn selection(self) -> Option<SessionItem> {
        if self.search_engine.active() {
            self.search_engine.selected_match()
        } else {
            match self.selected_index {
                Some(i) => if i < self.combined_items@.len() {
                    Some(self.combined_items@[i as int])
                } else {
                    None
                },
                None => None,
            }
        }
    }

    /// `items` is the list as the state `s` builds it: the sessions ordered
    /// by last visit, then the directory rows.
    pub open spec fn is_combined(items: Seq<SessionItem>, s: PluginState) -> bool {
        combined_list(
            items,
            name_flags(s.session_manager.known()),
            s.session_manager.dead(),
            s.config.show_resurrectable_sessions,
            s.projects@,
            s.session_usage@,
            s.directory_items@,
        )
    }

    /// `items` are the directory rows as the state `s` builds them: the zoxide
    /// directories and the pinned paths zoxide lost, pinned first.
    pub open spec fn is_directory_list(items: Seq<SessionItem>, s: PluginState) -> bool {
        directory_list(
            items,
            texts(s.zoxide_directories@),
            s.projects@,
            s.config.base_paths_view(),
            s.config.separator_view(),
        )
    }

    /// Rebuild the directory rows. Pinned paths remain available even if
    /// zoxide later drops them.
    fn rebuild_directory_items(&mut self)
        ensures
            Self::is_directory_list(final(self).directory_items@, *old(self)),
            *final(self) == (PluginState { directory_items: final(self).directory_items, ..*old(self) }),
    {
        let pins = self.projects.pinned_paths();
        let rows = directory_rows(self.zoxide_directories.as_slice(), pins.as_slice(), &self.projects, &self.config);
        proof {
            let w = texts(pins@);
            assert forall|a: int, b: int| 0 <= a < b < w.len() implies lex_lt(#[trigger] w[a], #[trigger] w[b]) by {
                assert(lex_lt(pins@[a]@, pins@[b]@));
            }
            assert forall|p: Seq<char>| pinned_in(self.projects@, p) <==> #[trigger] w.contains(p) by {
                if pinned_in(self.projects@, p) {
                    let a = choose|a: int| 0 <= a < pins.len() && #[trigger] pins@[a]@ == p;
                    assert(w[a] == p);
                }
                if w.contains(p) {
                    let a = choose|a: int| 0 <= a < w.len() && w[a] == p;
                    assert(pins@[a]@ == p);
                }
            }
            assert(Self::is_directory_list(rows@, *self));
        }
        self.directory_items = rows;
    }

    /// Combine sessions and zoxide directories for display
    fn build_combined_items(&self) -> (r: Vec<SessionItem>)
        ensures
            Self::is_combined(r@, *self),
    {
        // Only explicit associations are trustworthy: generated names change
        // with zoxide membership, configuration, and suffix truncation.
        let live = self.session_manager.live();
        let rows = session_rows(
            live.as_slice(),
            self.session_manager.resurrectable_sessions(),
            self.config.show_resurrectable_sessions,
            &self.projects,
        );
        let ghost row_seq = rows@;
        let mut items = sort_by_visits(rows, &self.session_usage);
        let ghost sorted = items@;
        let mut i: usize = 0;
        while i < self.directory_items.len()
            invariant
                i <= self.directory_items.len(),
                items@ == sorted + self.directory_items@.take(i as int),
            decreases self.directory_items.len() - i,
        {
            items.push(self.directory_items[i].clone());
            assert(items@ =~= sorted + self.directory_items@.take(i + 1));
            i = i + 1;
        }
        assert(self.directory_items@.take(self.directory_items.len() as int) == self.directory_items@);
        assert(session_rows_spec(
            row_seq,
            name_flags(self.session_manager.known()),
            self.session_manager.dead(),
            self.config.show_resurrectable_sessions,
            self.projects@,
        ));
        items
    }

    /// Get selected item
    pub fn selected_item(&self) -> (r: Option<SessionItem>)
        ensures
            r == self.selection(),
    {
        if self.search_engine.is_searching() {
            match self.search_engine.selected_item() {
                Some(item) => Some(item.clone()),
                None => None,
            }
        } else {
            match self.selected_index {
                Some(index) => if index < self.combined_items.len() {
                    Some(self.combined_items[index].clone())
                } else {
                    None
                },
                None => None,
            }
        }
    }

    /// Rebuild the cached item list, then bring the search and selection back
    /// in line with it.
    fn rebuild_combined_items(&mut self)
        requires
            old(self).wf(),
        ensures
            Self::rebuilt(*old(self), *final(self)),
    {
        let selected = self.selected_item();
        self.combined_items = self.build_combined_items();
        if !self.search_engine.is_searching() {
            if let Some(selected) = selected {
                if let Some(index) = position_of(self.combined_items.as_slice(), &selected) {
                    self.selected_index = Some(index);
                }
            }
        }
        // Re-run the active search against the rebuilt item list.
        if self.search_engine.is_searching() {
            let term = string_from_chars(chars_of(self.search_engine.search_term()).as_slice());
            self.search_engine.update_search(term, self.combined_items.as_slice());
        }
        self.selected_index = clamp_selection(self.selected_index, self.combined_items.len());
    }

    /// `after` is `before` with its list rebuilt: sessions then directories
    /// as `before` builds them, an active search run again over them, and
    /// the selected row kept selected where it is still listed.
    pub open spec fn rebuilt(before: PluginState, after: PluginState) -> bool {
        &&& after.wf()
        &&& Self::is_combined(after.combined_items@, before)
        &&& before.search_engine.active() ==> searched(
            before.search_engine,
            after.search_engine,
            before.search_engine.term(),
            after.combined_items@,
        )
        &&& !before.search_engine.active() ==> after.search_engine == before.search_engine
        &&& as_nat_option(after.selected_index) == clamped_index(
            reselected(
                before.selected_index,
                before.selection(),
                before.search_engine.active(),
                after.combined_items@,
            ),
            after.combined_items@.len(),
        )
        &&& after == (PluginState {
            combined_items: after.combined_items,
            search_engine: after.search_engine,
            selected_index: after.selected_index,
            ..before
        })
    }

    /// `new` is `old` once the first current session of `sessions`, if any,
    /// names the session the plugin runs in and offers its layouts to the
    /// form.
    pub open spec fn current_info_taken(old: PluginState, new: PluginState, sessions: Seq<SessionView>) -> bool {
        match first_current(sessions, 0) {
            Some(i) => {
                &&& opt_view(new.current_session_name) == Some(sessions[i as int].0)
                &&& layouts_replaced(old.new_session_info, new.new_session_info, sessions[i as int].2)
                &&& new == (PluginState {
                    current_session_name: new.current_session_name,
                    new_session_info: new.new_session_info,
                    ..old
                })
            },
            None => new == old,
        }
    }

    /// `new` is `old` with the search cleared, nothing selected, no error and
    /// no deletion waiting for confirmation.
    pub open spec fn search_reset(old: PluginState, new: PluginState) -> bool {
        &&& new.search_engine.wf()
        &&& new.search_engine.term().len() == 0
        &&& new.search_engine.found().len() == 0
        &&& new.search_engine.selection() is None
        &&& !new.search_engine.active()
        &&& new.session_manager.pending() is None
        &&& new.session_manager.known() == old.session_manager.known()
        &&& new.session_manager.dead() == old.session_manager.dead()
        &&& new.session_manager.listed() == old.session_manager.listed()
        &&& new == (PluginState {
            search_engine: new.search_engine,
            selected_index: None,
            error: None,
            session_manager: new.session_manager,
            ..old
        })
    }

    /// `new` is `old` after the pane went on screen (`visible`) or off it:
    /// the search is reset when it goes off screen or comes back, and focus
    /// is lost off screen.
    pub open spec fn visibility_set(old: PluginState, new: PluginState, visible: bool) -> bool {
        let rest = PluginState { is_visible: old.is_visible, is_focused: old.is_focused, ..new };
        &&& new.is_visible == visible
        &&& new.is_focused == (visible && old.is_focused)
        &&& if !visible || !old.is_visible {
            Self::search_reset(old, rest)
        } else {
            rest == old
        }
    }

    /// Update session information
    fn update_current_session_info(&mut self, sessions: &[LiveSession])
        requires
            old(self).wf(),
        ensures
            final(self).wf(),
            Self::current_info_taken(*old(self), *final(self), sessions_view(sessions@)),
    {
        // Store current session name
        match find_current(sessions) {
            Some(i) => {
                self.current_session_name = Some(sessions[i].name.clone());
                let layouts = clone_layouts(&sessions[i].layouts);
                self.new_session_info.update_layout_list(layouts);
            },
            None => {},
        }
    }

    /// Apply API metadata, retaining membership confirmed by the CLI listing.
    pub fn update_session_list(&mut self, sessions: Vec<LiveSession>, resurrectable_sessions: Vec<(String, Elapsed)>)
        requires
            old(self).wf(),
        ensures
            final(self).wf(),
            ({
                let fresh = sessions_view(sessions@);
                let listed = old(self).session_manager.listed();
                let first = with_listing(
                    kept(fresh, old(self).session_manager.known(), listed),
                    old(self).session_manager.dead(),
                    listed,
                );
                let second = with_listing(first.0, dead_view(resurrectable_sessions@), listed);
                let informed = PluginState {
                    current_session_name: final(self).current_session_name,
                    new_session_info: final(self).new_session_info,
                    ..*old(self)
                };
                &&& final(self).session_manager.known() == second.0
                &&& final(self).session_manager.dead() == second.1
                &&& final(self).session_manager.listed() == listed
                &&& final(self).session_manager.pending() == old(self).session_manager.pending()
                &&& Self::current_info_taken(*old(self), informed, fresh)
                &&& Self::rebuilt(
                    PluginState { session_manager: final(self).session_manager, ..informed },
                    *final(self),
                )
            }),
    {
        self.update_current_session_info(sessions.as_slice());
        self.session_manager.update_sessions(sessions);
        self.session_manager.update_resurrectable_sessions(resurrectable_sessions);
        self.rebuild_combined_items();
    }

    /// Take in a passive notification: only the current session is fresh.
    pub fn update_session_notification(&mut self, sessions: Vec<LiveSession>)
        requires
            old(self).wf(),
        ensures
            final(self).wf(),
            Self::notification_taken(*old(self), *final(self), sessions@),
    {
        self.update_current_session_info(sessions.as_slice());
        self.session_manager.update_current_session(sessions);
        self.rebuild_combined_items();
    }

    /// Take in the listing the CLI printed; a listing that cannot be read
    /// changes nothing.
    pub fn update_session_listing(&mut self, output: &str) -> (r: Result<(), String>)
        requires
            old(self).wf(),
        ensures
            final(self).wf(),
            Self::listing_taken(*old(self), *final(self), output@, r),
    {
        let listing = SessionListing::parse(output)?;
        self.session_manager.update_listing(listing);
        let sessions = clone_sessions(self.session_manager.sessions());
        self.update_current_session_info(sessions.as_slice());
        self.rebuild_combined_items();
        Ok(())
    }

    fn reset_picker_search(&mut self)
        requires
            old(self).wf(),
        ensures
            final(self).wf(),
            Self::search_reset(*old(self), *final(self)),
    {
        self.search_engine.clear();
        self.selected_index = None;
        self.error = None;
        self.session_manager.cancel_deletion();
    }

    /// Reset the picker on a visibility transition, preserving a filepicker's
    /// in-progress new-session form when focus returns from that plugin.
    pub fn set_visible(&mut self, visible: bool)
        requires
            old(self).wf(),
        ensures
            final(self).wf(),
            Self::visibility_set(*old(self), *final(self), visible),
    {
        if !visible || !self.is_visible {
            self.reset_picker_search();
        }
        if !visible {
            self.is_focused = false;
        }
        self.is_visible = visible;
    }

    /// Take in what a pane or tab report says of the picker's pane. Restoring
    /// a suppressed plugin does not reliably emit a visibility event; pane
    /// and tab reports also cover refocusing and moving it to another tab.
    /// Returns whether the picker just opened.
    pub fn update_pane_activity(&mut self, pane: Option<PickerPane>) -> (r: bool)
        requires
            old(self).wf(),
        ensures
            final(self).wf(),
            Self::pane_reported(*old(self), *final(self), pane, r),
    {
        let activity = picker_activity(pane, self.is_visible, self.is_focused);
        self.set_visible(activity.visible);
        if activity.opened {
            self.reset_picker_search();
        }
        self.is_focused = activity.focused;
        activity.opened
    }

    /// Take in visit records shared by other instances.
    pub fn update_session_usage(&mut self, history: &str)
        requires
            old(self).wf(),
        ensures
            Self::usage_taken(*old(self), *final(self), history@),
    {
        self.session_usage.merge(history);
        self.rebuild_combined_items();
    }


    /// The effects of fetching the zoxide directories: none without
    /// permission to run commands.
    pub open spec fn zoxide_fetch(s: PluginState) -> Seq<Effect> {
        if s.permissions_granted {
            seq![Effect::FetchZoxide]
        } else {
            Seq::empty()
        }
    }

    /// The effects of fetching the sessions: none without permission.
    pub open spec fn sessions_fetch(s: PluginState) -> Seq<Effect> {
        if s.permissions_granted {
            seq![Effect::FetchSessions]
        } else {
            Seq::empty()
        }
    }

    /// `new` and `effects` are what recording a switch at `now` to
    /// `destination` (or no switch) leaves of `old`: with permission, the
    /// visits of the current session and the named destination are recorded
    /// and shared, and the list is rebuilt; without it, nothing happens.
    pub open spec fn visit_recorded(
        old: PluginState,
        new: PluginState,
        destination: Option<Seq<char>>,
        now: u128,
        effects: Seq<Effect>,
    ) -> bool {
        if !old.permissions_granted {
            new == old && effects.len() == 0
        } else {
            &&& new.session_usage@ == visits_recorded(
                old.session_usage@,
                opt_view(old.current_session_name),
                destination,
                now,
            )
            &&& effects.len() == 1
            &&& effects[0] matches Effect::StoreVisits(records) && texts(records@) == visit_lines(
                opt_view(old.current_session_name),
                destination,
                now,
            )
            &&& Self::rebuilt(PluginState { session_usage: new.session_usage, ..old }, new)
        }
    }

    /// Record the source and destination before switching; this also covers
    /// sessions where the picker has not been opened yet.
    fn record_session_visit(&mut self, destination: Option<&str>, now: u128) -> (effects: Vec<Effect>)
        requires
            old(self).wf(),
        ensures
            final(self).wf(),
            Self::visit_recorded(*old(self), *final(self), crate::new_session_info::opt_str_view(destination), now, effects@),
    {
        if !self.permissions_granted {
            return Vec::new();
        }
        let mut records: Vec<String> = Vec::new();
        match &self.current_session_name {
            Some(name) => {
                let line = self.session_usage.record(name.as_str(), now);
                records.push(line);
            },
            None => {},
        }
        match destination {
            Some(name) => {
                if !name.is_empty() {
                    let later = if now < u128::MAX {
                        now + 1
                    } else {
                        now
                    };
                    let line = self.session_usage.record(name, later);
                    records.push(line);
                }
            },
            None => {},
        }
        assert(texts(records@) =~= visit_lines(
            opt_view(old(self).current_session_name),
            crate::new_session_info::opt_str_view(destination),
            now,
        ));
        let mut effects: Vec<Effect> = Vec::new();
        effects.push(Effect::StoreVisits(records));
        self.rebuild_combined_items();
        effects
    }

    /// The effects of running the projects store: none without permission.
    fn run_project_command(&self, record: Option<String>, creation_id: Option<String>) -> (effects: Vec<
        Effect,
    >)
        ensures
            effects@ == if self.permissions_granted {
                seq![Effect::StoreProjects { record: record, creation_id: creation_id }]
            } else {
                Seq::empty()
            },
    {
        let mut effects: Vec<Effect> = Vec::new();
        if self.permissions_granted {
            effects.push(Effect::StoreProjects { record, creation_id });
        }
        assert(effects@ =~= if self.permissions_granted {
            seq![Effect::StoreProjects { record: record, creation_id: creation_id }]
        } else {
            Seq::empty()
        });
        effects
    }

    /// Share the current session's visit and reload the projects.
    pub fn refresh_session_usage(&mut self, now: u128) -> (effects: Vec<Effect>)
        requires
            old(self).wf(),
        ensures
            final(self).wf(),
            !old(self).permissions_granted ==> *final(self) == *old(self) && effects@.len() == 0,
            old(self).permissions_granted ==> {
                &&& effects@.len() == 2
                &&& Self::visit_recorded(*old(self), *final(self), None, now, effects@.take(1))
                &&& effects@[1] == (Effect::StoreProjects { record: None, creation_id: None })
            },
    {
        let mut effects = self.record_session_visit(None, now);
        let ghost first = effects@;
        let mut more = self.run_project_command(None, None);
        effects.append(&mut more);
        assert(effects@.take(first.len() as int) =~= first);
        effects
    }

    /// The effects of fetching the zoxide directories.
    pub fn fetch_zoxide_directories(&self) -> (effects: Vec<Effect>)
        ensures
            effects@ == Self::zoxide_fetch(*self),
    {
        let mut effects: Vec<Effect> = Vec::new();
        if self.permissions_granted {
            effects.push(Effect::FetchZoxide);
        }
        assert(effects@ =~= Self::zoxide_fetch(*self));
        effects
    }

    /// The effects of fetching the sessions: metadata from the API and
    /// membership from the CLI's socket probes.
    pub fn fetch_sessions(&self) -> (effects: Vec<Effect>)
        ensures
            effects@ == Self::sessions_fetch(*self),
    {
        let mut effects: Vec<Effect> = Vec::new();
        if self.permissions_granted {
            effects.push(Effect::FetchSessions);
        }
        assert(effects@ =~= Self::sessions_fetch(*self));
        effects
    }

    /// Whether to start a CLI listing: only when none is under way, which
    /// from now on one is.
    pub fn begin_session_listing(&mut self) -> (r: bool)
        ensures
            r == !old(self).session_listing_pending,
            *final(self) == (PluginState { session_listing_pending: true, ..*old(self) }),
    {
        if self.session_listing_pending {
            return false;
        }
        self.session_listing_pending = true;
        true
    }

    /// Start the refresh timer unless it runs already. Fetching in response
    /// to session notifications instead would loop: fetching emits one.
    pub fn schedule_session_refresh(&mut self) -> (effects: Vec<Effect>)
        ensures
            ({
                let start = old(self).permissions_granted && old(self).is_visible && !old(
                    self,
                ).refresh_timer_pending;
                &&& start ==> *final(self) == (PluginState { refresh_timer_pending: true, ..*old(self) })
                    && effects@ == seq![Effect::StartTimer]
                &&& !start ==> *final(self) == *old(self) && effects@.len() == 0
            }),
    {
        let mut effects: Vec<Effect> = Vec::new();
        if self.permissions_granted && self.is_visible && !self.refresh_timer_pending {
            self.refresh_timer_pending = true;
            effects.push(Effect::StartTimer);
            assert(effects@ =~= seq![Effect::StartTimer]);
        }
        effects
    }

    /// Hide the picker. The search is cleared now: Zellij can restore a
    /// suppressed pane without any visibility event.
    fn hide_picker(&mut self) -> (effects: Vec<Effect>)
        requires
            old(self).wf(),
        ensures
            final(self).wf(),
            Self::visibility_set(*old(self), *final(self), false),
            effects@ == seq![Effect::Hide],
    {
        self.set_visible(false);
        let mut effects: Vec<Effect> = Vec::new();
        effects.push(Effect::Hide);
        assert(effects@ =~= seq![Effect::Hide]);
        effects
    }

    /// Update zoxide directories (managed separately from sessions)
    pub fn update_zoxide_directories(&mut self, directories: Vec<String>)
        requires
            old(self).wf(),
        ensures
            Self::directories_taken(*old(self), *final(self), directories),
    {
        self.zoxide_directories = directories;
        self.rebuild_directory_items();
        self.rebuild_combined_items();
    }

    /// `new` is `old` once the projects store answered with `output`: the
    /// projects are loaded and merged, the directory rows rebuilt when the
    /// pins changed, and the list rebuilt.
    pub open spec fn projects_merged(old: PluginState, new: PluginState, output: Seq<char>) -> bool {
        let changed = exists|p: Seq<char>| pinned_in(old.projects@, p) != pinned_in(new.projects@, p);
        &&& new.projects@ == apply_lines(old.projects@, text_lines(output))
        &&& changed ==> Self::is_directory_list(
            new.directory_items@,
            PluginState { projects: new.projects, ..old },
        )
        &&& !changed ==> new.directory_items == old.directory_items
        &&& Self::rebuilt(
            PluginState {
                projects_loaded: true,
                projects: new.projects,
                directory_items: new.directory_items,
                ..old
            },
            new,
        )
    }

    /// Take in what the projects store answered. A creation waiting for its
    /// folder to be saved goes on once the sessions are fetched again; on
    /// failure the form stays for another try.
    pub fn project_command_finished(
        &mut self,
        success: bool,
        output: &str,
        error: &str,
        creation_id: Option<&str>,
    ) -> (effects: Vec<Effect>)
        requires
            old(self).wf(),
        ensures
            final(self).wf(),
            Self::projects_answered(*old(self), *final(self), success, output@, error@, opt_str_view(creation_id), effects@),
    {
        if success {
            self.projects_loaded = true;
            let old_pins = self.projects.pinned_paths();
            let ghost before = self.projects@;
            self.projects.merge(output);
            let new_pins = self.projects.pinned_paths();
            if !same_texts(old_pins.as_slice(), new_pins.as_slice()) {
                proof {
                    if forall|p: Seq<char>| pinned_in(before, p) == pinned_in(self.projects@, p) {
                        let a = texts(old_pins@);
                        let b = texts(new_pins@);
                        assert forall|i: int, j: int| 0 <= i < j < a.len() implies lex_lt(#[trigger] a[i], #[trigger] a[j]) by {
                            assert(lex_lt(old_pins@[i]@, old_pins@[j]@));
                        }
                        assert forall|i: int, j: int| 0 <= i < j < b.len() implies lex_lt(#[trigger] b[i], #[trigger] b[j]) by {
                            assert(lex_lt(new_pins@[i]@, new_pins@[j]@));
                        }
                        assert forall|p: Seq<char>| a.contains(p) <==> b.contains(p) by {
                            if a.contains(p) {
                                let i = choose|i: int| 0 <= i < a.len() && a[i] == p;
                                assert(old_pins@[i]@ == p);
                                assert(pinned_in(before, p));
                                assert(pinned_in(before, p) == pinned_in(self.projects@, p));
                                let j = choose|j: int| 0 <= j < new_pins.len() && #[trigger] new_pins@[j]@ == p;
                                assert(b[j] == p);
                            }
                            if b.contains(p) {
                                let j = choose|j: int| 0 <= j < b.len() && b[j] == p;
                                assert(new_pins@[j]@ == p);
                                assert(pinned_in(self.projects@, p));
                                assert(pinned_in(before, p) == pinned_in(self.projects@, p));
                                let i = choose|i: int| 0 <= i < old_pins.len() && #[trigger] old_pins@[i]@ == p;
                                assert(a[i] == p);
                            }
                        }
                        lemma_sorted_same_texts(a, b);
                    }
                }
                self.rebuild_directory_items();
            } else {
                proof {
                    assert forall|p: Seq<char>| pinned_in(before, p) == pinned_in(self.projects@, p) by {
                        if pinned_in(before, p) {
                            let i = choose|i: int| 0 <= i < old_pins.len() && #[trigger] old_pins@[i]@ == p;
                            assert(texts(old_pins@)[i] == p);
                            assert(new_pins@[i]@ == p);
                        }
                        if pinned_in(self.projects@, p) {
                            let j = choose|j: int| 0 <= j < new_pins.len() && #[trigger] new_pins@[j]@ == p;
                            assert(texts(new_pins@)[j] == p);
                            assert(old_pins@[j]@ == p);
                        }
                    }
                }
            }
            self.rebuild_combined_items();
        } else {
            let message = joined("Could not save or load projects: ", trimmed(chars_of(error).as_slice()).as_slice());
            self.set_error(message);
        }
        let waiting = match (&self.pending_creation, creation_id) {
            (Some(pending), Some(id)) => str_eq(pending.0.as_str(), id),
            _ => false,
        };
        if waiting {
            let mut taken: Option<(String, CreationRequest)> = None;
            std::mem::swap(&mut taken, &mut self.pending_creation);
            if success {
                match taken {
                    Some((_, request)) => {
                        // Revalidate after the asynchronous write, since
                        // membership can change while a command is running.
                        let mut effects = self.fetch_sessions();
                        effects.push(Effect::FinishCreation(request));
                        return effects;
                    },
                    None => {},
                }
            }
        }
        Vec::new()
    }


    /// `new` and `effects` are what switching from `old` to session `name`
    /// at `now` leaves: the visit recorded, the switch, and the picker hidden.
    pub open spec fn switched(old: PluginState, new: PluginState, name: Seq<char>, now: u128, effects: Seq<Effect>) -> bool {
        exists|mid: PluginState|
            {
                &&& effects.len() >= 2
                &&& Self::visit_recorded(old, mid, Some(name), now, effects.take(effects.len() - 2))
                &&& mid.wf()
                &&& effects[effects.len() - 2] matches Effect::Switch(n) && n@ == name
                &&& effects[effects.len() - 1] == Effect::Hide
                &&& #[trigger] Self::visibility_set(mid, new, false)
            }
    }

    /// Switch to session `name`: record the visit, switch, hide.
    fn switch_to(&mut self, name: String, now: u128) -> (effects: Vec<Effect>)
        requires
            old(self).wf(),
        ensures
            final(self).wf(),
            Self::switched(*old(self), *final(self), name@, now, effects@),
    {
        let mut effects = self.record_session_visit(Some(name.as_str()), now);
        let ghost mid = *self;
        let ghost first = effects@;
        effects.push(Effect::Switch(name));
        let mut hide = self.hide_picker();
        effects.append(&mut hide);
        assert(effects@.take(effects@.len() - 2) =~= first);
        assert(Self::visit_recorded(*old(self), mid, Some(name@), now, effects@.take(effects@.len() - 2)));
        effects
    }

    /// `new` and `effects` are what starting a creation of a session named
    /// `name` (empty for a random one) in `folder` with `layout` leaves of
    /// `old`: nothing but an error until the projects are loaded; else the
    /// name is chosen, checked, and its folder saved before the switch.
    pub open spec fn creation_started(
        old: PluginState,
        new: PluginState,
        name: Seq<char>,
        folder: Option<Seq<char>>,
        layout: Option<LayoutEntry>,
        now: u128,
        effects: Seq<Effect>,
    ) -> bool {
        if !old.projects_loaded {
            &&& opt_view(new.error) == Some("Projects are still loading; try again shortly"@)
            &&& new == (PluginState { error: new.error, ..old })
            &&& effects.len() == 0
        } else {
            exists|chosen: Seq<char>|
                Self::chosen_name(old, name, chosen) && #[trigger] Self::creation_checked(
                    old,
                    new,
                    chosen,
                    folder,
                    layout,
                    now,
                    effects,
                )
        }
    }

    /// The name a creation goes on with: the requested one, or for an empty
    /// one a name made from `session-` and a random fragment.
    pub open spec fn chosen_name(old: PluginState, name: Seq<char>, chosen: Seq<char>) -> bool {
        if name.len() > 0 {
            chosen == name
        } else {
            exists|u: Seq<char>|
                uuid_text(u) && #[trigger] incremented_name(
                    old.session_manager.known(),
                    old.session_manager.dead(),
                    "session-"@ + u.take(8),
                    old.config.separator_view(),
                    chosen,
                )
        }
    }

    /// The creation of `name` once checked: refused with the reason, or
    /// waiting under a fresh id for its folder to be saved.
    pub open spec fn creation_checked(
        old: PluginState,
        new: PluginState,
        name: Seq<char>,
        folder: Option<Seq<char>>,
        layout: Option<LayoutEntry>,
        now: u128,
        effects: Seq<Effect>,
    ) -> bool {
        let verdict = creation_validation(
            name,
            opt_view(old.current_session_name),
            is_taken(old.session_manager.known(), old.session_manager.dead(), name),
        );
        match verdict {
            Err(m) => {
                &&& opt_view(new.error) == Some(m@)
                &&& new == (PluginState { error: new.error, ..old })
                &&& effects.len() == 0
            },
            Ok(_) => {
                let k = session_key(name);
                let v = match folder {
                    Some(f) => f,
                    None => Seq::empty(),
                };
                &&& new == (PluginState { pending_creation: new.pending_creation, ..old })
                &&& new.pending_creation matches Some(p) && uuid_text(p.0@) && p.1.name@ == name && opt_view(p.1.folder)
                    == folder && p.1.layout == layout && (old.permissions_granted ==> stored_for(
                    effects,
                    p.0,
                    record_line(next_stamp(old.projects@, k, now), k, v),
                ))
                &&& !old.permissions_granted ==> effects.len() == 0
            },
        }
    }

    /// Validate and start every new-session request through one path: the
    /// folder is saved first, and the switch follows in `finish_creation`.
    fn create_session(&mut self, request: CreationRequest, now: u128) -> (effects: Vec<Effect>)
        requires
            old(self).wf(),
        ensures
            final(self).wf(),
            Self::creation_started(
                *old(self),
                *final(self),
                request.name@,
                opt_view(request.folder),
                request.layout,
                now,
                effects@,
            ),
    {
        if !self.projects_loaded {
            self.set_error(string_from_chars(chars_of("Projects are still loading; try again shortly").as_slice()));
            return Vec::new();
        }
        let mut request = request;
        let ghost requested = request.name@;
        // Choose the random name here so its directory can be recorded before
        // switching. Every session created here has a known, validated name.
        if request.name.as_str().is_empty() {
            let unique = new_uuid();
            let fragment = crate::strings::sub_chars(chars_of(unique.as_str()).as_slice(), 0, 8);
            let random = joined("session-", fragment.as_slice());
            assert(random@ == "session-"@ + unique@.take(8));
            request.name = self.session_manager.generate_incremented_name(random.as_str(), self.config.session_separator.as_str());
            proof {
                assert(incremented_name(
                    old(self).session_manager.known(),
                    old(self).session_manager.dead(),
                    "session-"@ + unique@.take(8),
                    old(self).config.separator_view(),
                    request.name@,
                ));
                assert(Self::chosen_name(*old(self), requested, request.name@));
            }
        }
        let ghost chosen = request.name@;
        assert(Self::chosen_name(*old(self), requested, chosen));
        let verdict = {
            let manager = &self.session_manager;
            let current = match &self.current_session_name {
                Some(c) => Some(c.as_str()),
                None => None,
            };
            let taken = |name: &str| -> (t: bool)
                ensures
                    t == is_taken(manager.known(), manager.dead(), name@),
                { manager.name_taken(name) };
            request.validate(current, taken)
        };
        match verdict {
            Err(message) => {
                self.set_error(string_from_chars(chars_of(message).as_slice()));
                assert(Self::creation_checked(*old(self), *self, chosen, opt_view(request.folder), request.layout, now, Seq::empty()));
                return Vec::new();
            },
            Ok(()) => {},
        }
        let mut next = self.projects.clone();
        let folder = match &request.folder {
            Some(f) => Some(f.as_str()),
            None => None,
        };
        let record = next.set_directory(request.name.as_str(), folder, now);
        let id = new_uuid();
        let effects = self.run_project_command(Some(record), Some(id.clone()));
        let ghost asked_folder = opt_view(request.folder);
        let ghost asked_layout = request.layout;
        self.pending_creation = Some((id, request));
        assert(Self::creation_checked(*old(self), *self, chosen, asked_folder, asked_layout, now, effects@));
        effects
    }


    /// `new` and `effects` are what finishing the creation of `request`
    /// leaves of `old`, once its folder is saved and the sessions fetched
    /// again: checked again, since sessions can appear meanwhile, then the
    /// visit recorded, the session created, the form reset and the picker
    /// hidden.
    pub open spec fn creation_finished(old: PluginState, new: PluginState, request: CreationRequest, now: u128, effects: Seq<Effect>) -> bool {
        let verdict = creation_validation(
            request.name@,
            opt_view(old.current_session_name),
            is_taken(old.session_manager.known(), old.session_manager.dead(), request.name@),
        );
        match verdict {
            Err(m) => {
                &&& opt_view(new.error) == Some(m@)
                &&& new == (PluginState { error: new.error, ..old })
                &&& effects.len() == 0
            },
            Ok(_) => exists|mid: PluginState|
                {
                    &&& effects.len() >= 2
                    &&& Self::visit_recorded(old, mid, Some(request.name@), now, effects.take(effects.len() - 2))
                    &&& mid.wf()
                    &&& effects[effects.len() - 2] == Effect::Create(request)
                    &&& effects[effects.len() - 1] == Effect::Hide
                    &&& form_reset(mid.new_session_info, new.new_session_info)
                    &&& #[trigger] Self::visibility_set(
                        PluginState { new_session_info: new.new_session_info, active_screen: ActiveScreen::Main, ..mid },
                        new,
                        false,
                    )
                },
        }
    }

    /// Finish a creation whose folder was saved: check the name again, then
    /// switch to the new session.
    pub fn finish_creation(&mut self, request: CreationRequest, now: u128) -> (effects: Vec<Effect>)
        requires
            old(self).wf(),
        ensures
            final(self).wf(),
            Self::creation_finished(*old(self), *final(self), request, now, effects@),
    {
        let verdict = {
            let manager = &self.session_manager;
            let current = match &self.current_session_name {
                Some(c) => Some(c.as_str()),
                None => None,
            };
            let taken = |name: &str| -> (t: bool)
                ensures
                    t == is_taken(manager.known(), manager.dead(), name@),
                { manager.name_taken(name) };
            request.validate(current, taken)
        };
        if let Err(message) = verdict {
            self.set_error(string_from_chars(chars_of(message).as_slice()));
            return Vec::new();
        }
        let mut effects = self.record_session_visit(Some(request.name.as_str()), now);
        let ghost mid = *self;
        let ghost first = effects@;
        let ghost asked = request;
        effects.push(Effect::Create(request));
        self.new_session_info.reset_after_creation();
        self.active_screen = ActiveScreen::Main;
        let mut hide = self.hide_picker();
        effects.append(&mut hide);
        assert(effects@.take(effects@.len() - 2) =~= first);
        assert(Self::visit_recorded(*old(self), mid, Some(asked.name@), now, effects@.take(effects@.len() - 2)));
        effects
    }

    /// Pin or unpin the selected directory, or the folder of the selected
    /// session; only once the projects are loaded.
    fn toggle_selected_pin(&mut self, now: u128) -> (effects: Vec<Effect>)
        requires
            old(self).wf(),
        ensures
            final(self).wf(),
            Self::pin_toggled(*old(self), *final(self), now, effects@),
    {
        if !self.projects_loaded {
            self.set_error(string_from_chars(chars_of("Projects are still loading; try again shortly").as_slice()));
            return Vec::new();
        }
        let path = match self.selected_item() {
            Some(SessionItem::Directory { path, .. }) => path,
            Some(SessionItem::ExistingSession { directory, .. }) => {
                if directory.as_str().is_empty() {
                    return Vec::new();
                }
                directory
            },
            _ => {
                return Vec::new();
            },
        };
        let mut next = self.projects.clone();
        let pinned = self.projects.is_pinned(path.as_str());
        let record = next.set_pinned(path.as_str(), !pinned, now);
        self.run_project_command(Some(record), None)
    }


    /// `new` is `old` with the selection one row up, among the results while
    /// searching, wrapping at the top.
    pub open spec fn moved_up(old: PluginState, new: PluginState) -> bool {
        if old.search_engine.active() {
            &&& new.search_engine.wf()
            &&& new.search_engine.term() == old.search_engine.term()
            &&& new.search_engine.found() == old.search_engine.found()
            &&& new.search_engine.active()
            &&& as_nat_option(new.search_engine.selection()) == previous_index(
                old.search_engine.selection(),
                old.search_engine.found().len(),
            )
            &&& new == (PluginState { search_engine: new.search_engine, ..old })
        } else {
            &&& as_nat_option(new.selected_index) == previous_index(old.selected_index, old.combined_items@.len())
            &&& new == (PluginState { selected_index: new.selected_index, ..old })
        }
    }

    /// `new` is `old` with the selection one row down, among the results
    /// while searching, wrapping at the end.
    pub open spec fn moved_down(old: PluginState, new: PluginState) -> bool {
        if old.search_engine.active() {
            &&& new.search_engine.wf()
            &&& new.search_engine.term() == old.search_engine.term()
            &&& new.search_engine.found() == old.search_engine.found()
            &&& new.search_engine.active()
            &&& as_nat_option(new.search_engine.selection()) == next_index(
                old.search_engine.selection(),
                old.search_engine.found().len(),
            )
            &&& new == (PluginState { search_engine: new.search_engine, ..old })
        } else {
            &&& as_nat_option(new.selected_index) == next_index(old.selected_index, old.combined_items@.len())
            &&& new == (PluginState { selected_index: new.selected_index, ..old })
        }
    }

    /// `new` and `effects` are what a pin toggle leaves of `old`: an error
    /// until the projects are loaded; else the pin record of the selected
    /// directory (or session folder), flipped, goes to the projects store.
    pub open spec fn pin_toggled(old: PluginState, new: PluginState, now: u128, effects: Seq<Effect>) -> bool {
        if !old.projects_loaded {
            &&& opt_view(new.error) == Some("Projects are still loading; try again shortly"@)
            &&& new == (PluginState { error: new.error, ..old })
            &&& effects.len() == 0
        } else {
            &&& new == old
            &&& match pin_target(old.selection()) {
                None => effects.len() == 0,
                Some(path) => {
                    let k = pin_key(path);
                    let line = record_line(next_stamp(old.projects@, k, now), k, pin_value(!pinned_in(old.projects@, path)));
                    &&& old.permissions_granted ==> effects.len() == 1 && (effects[0] matches Effect::StoreProjects {
                        record: Some(l),
                        creation_id: None,
                    } && l@ == line)
                    &&& !old.permissions_granted ==> effects.len() == 0
                },
            }
        }
    }

    /// `new` and `effects` are what Enter on the list leaves of `old`: a
    /// selected session is switched to; for a selected directory a session
    /// named after it is prepared and the layout is picked next.
    pub open spec fn item_selected(old: PluginState, new: PluginState, now: u128, effects: Seq<Effect>) -> bool {
        match old.selection() {
            Some(SessionItem::ExistingSession { name, .. }) => Self::switched(old, new, name@, now, effects),
            Some(SessionItem::ResurrectableSession { name, .. }) => Self::switched(old, new, name@, now, effects),
            Some(SessionItem::Directory { session_name, path, .. }) => {
                let v = old.new_session_info.form();
                &&& effects.len() == 0
                &&& new.new_session_info.wf()
                &&& incremented_name(
                    old.session_manager.known(),
                    old.session_manager.dead(),
                    session_name@,
                    old.config.separator_view(),
                    new.new_session_info.form().0,
                )
                &&& new.new_session_info.form() == (
                    new.new_session_info.form().0,
                    EnteringState::EnteringLayoutSearch,
                    v.2,
                    v.3,
                    v.4,
                    Some(path@),
                )
                &&& new == (PluginState {
                    new_session_info: new.new_session_info,
                    active_screen: ActiveScreen::NewSession,
                    ..old
                })
            },
            None => new == old && effects.len() == 0,
        }
    }

    /// `new` and `effects` are what Ctrl+Enter on the list leaves of `old`: a
    /// selected session is switched to; for a selected directory a session
    /// named after it is created with the default layout straight away.
    pub open spec fn quick_created(old: PluginState, new: PluginState, now: u128, effects: Seq<Effect>) -> bool {
        match old.selection() {
            Some(SessionItem::ExistingSession { name, .. }) => Self::switched(old, new, name@, now, effects),
            Some(SessionItem::ResurrectableSession { name, .. }) => Self::switched(old, new, name@, now, effects),
            Some(SessionItem::Directory { session_name, path, .. }) => exists|name: Seq<char>|
                #[trigger] incremented_name(
                    old.session_manager.known(),
                    old.session_manager.dead(),
                    session_name@,
                    old.config.separator_view(),
                    name,
                ) && match old.config.default_layout {
                    None => Self::creation_started(old, new, name, Some(path@), None, now, effects),
                    Some(d) => match named_layout(current_layouts(old.session_manager.known()), d@, 0) {
                        Some(l) => Self::creation_started(old, new, name, Some(path@), Some(l), now, effects),
                        None => opt_view(new.error) == Some(
                            "Default layout is unavailable; select a layout or update default_layout"@,
                        ) && new == (PluginState { error: new.error, ..old }) && effects.len() == 0,
                    },
                },
            None => opt_view(new.error) == Some("Please select a directory"@) && new == (PluginState {
                error: new.error,
                ..old
            }) && effects.len() == 0,
        }
    }

    /// `new` is `old` after the kill shortcut: a selected session waits for
    /// its deletion to be confirmed; nothing else changes.
    pub open spec fn kill_asked(old: PluginState, new: PluginState) -> bool {
        match old.selection() {
            Some(SessionItem::ExistingSession { name, .. }) => Self::deletion_asked(old, new, name@),
            Some(SessionItem::ResurrectableSession { name, .. }) => Self::deletion_asked(old, new, name@),
            _ => new == old,
        }
    }

    /// Move selection up
    fn move_selection_up(&mut self)
        requires
            old(self).wf(),
        ensures
            final(self).wf(),
            Self::moved_up(*old(self), *final(self)),
    {
        if self.search_engine.is_searching() {
            self.search_engine.move_selection_up();
        } else {
            self.selected_index = select_previous(self.selected_index, self.combined_items.len());
        }
    }

    /// Move selection down
    fn move_selection_down(&mut self)
        requires
            old(self).wf(),
        ensures
            final(self).wf(),
            Self::moved_down(*old(self), *final(self)),
    {
        if self.search_engine.is_searching() {
            self.search_engine.move_selection_down();
        } else {
            self.selected_index = select_next(self.selected_index, self.combined_items.len());
        }
    }

    /// Enter on the list: switch to a selected session; for a selected
    /// directory, prepare a session named after it and go on to the layout.
    fn handle_item_selection(&mut self, now: u128) -> (effects: Vec<Effect>)
        requires
            old(self).wf(),
        ensures
            final(self).wf(),
            Self::item_selected(*old(self), *final(self), now, effects@),
    {
        match self.selected_item() {
            Some(SessionItem::ExistingSession { name, .. }) => self.switch_to(name, now),
            Some(SessionItem::ResurrectableSession { name, .. }) => self.switch_to(name, now),
            Some(SessionItem::Directory { session_name, path, .. }) => {
                // Create new session with incremented name
                let incremented_name = self.session_manager.generate_incremented_name(
                    session_name.as_str(),
                    self.config.session_separator.as_str(),
                );
                self.new_session_info.set_name(incremented_name.as_str());
                self.new_session_info.set_folder(Some(path));
                self.new_session_info.advance_to_layout_selection();
                self.active_screen = ActiveScreen::NewSession;
                Vec::new()
            },
            None => Vec::new(),
        }
    }

    /// Ctrl+Enter on the list: switch to a selected session; for a selected
    /// directory, create a session named after it with the default layout
    /// straight away.
    fn handle_quick_session_creation(&mut self, now: u128) -> (effects: Vec<Effect>)
        requires
            old(self).wf(),
        ensures
            final(self).wf(),
            Self::quick_created(*old(self), *final(self), now, effects@),
    {
        match self.selected_item() {
            Some(SessionItem::ExistingSession { name, .. }) => self.switch_to(name, now),
            Some(SessionItem::ResurrectableSession { name, .. }) => self.switch_to(name, now),
            Some(SessionItem::Directory { session_name, path, .. }) => {
                let name = self.session_manager.generate_incremented_name(
                    session_name.as_str(),
                    self.config.session_separator.as_str(),
                );
                let ghost chosen = name@;
                let sessions = self.session_manager.sessions();
                let layouts = match find_current(sessions) {
                    Some(i) => {
                        let found = clone_layouts(&sessions[i].layouts);
                        assert(sessions_view(sessions@)[i as int].2 == found@);
                        found
                    },
                    None => Vec::new(),
                };
                assert(layouts@ == current_layouts(self.session_manager.known()));
                let default_layout = match &self.config.default_layout {
                    Some(d) => Some(d.as_str()),
                    None => None,
                };
                match CreationRequest::with_default_layout(name, Some(path), default_layout, layouts.as_slice()) {
                    Ok(request) => {
                        let effects = self.create_session(request, now);
                        assert(incremented_name(
                            old(self).session_manager.known(),
                            old(self).session_manager.dead(),
                            session_name@,
                            old(self).config.separator_view(),
                            chosen,
                        ));
                        effects
                    },
                    Err(message) => {
                        self.set_error(string_from_chars(chars_of(message).as_slice()));
                        assert(incremented_name(
                            old(self).session_manager.known(),
                            old(self).session_manager.dead(),
                            session_name@,
                            old(self).config.separator_view(),
                            chosen,
                        ));
                        Vec::new()
                    },
                }
            },
            None => {
                self.set_error(string_from_chars(chars_of("Please select a directory").as_slice()));
                Vec::new()
            },
        }
    }

    /// Handle the kill-session shortcut: ask to confirm killing the selected
    /// session.
    fn handle_kill_shortcut(&mut self)
        requires
            old(self).wf(),
        ensures
            final(self).wf(),
            Self::kill_asked(*old(self), *final(self)),
    {
        match self.selected_item() {
            Some(SessionItem::ExistingSession { name, .. }) => self.session_manager.start_deletion(name),
            Some(SessionItem::ResurrectableSession { name, .. }) => self.session_manager.start_deletion(name),
            _ => {},
        }
    }

    /// `new` is `old` waiting for the deletion of session `name` to be
    /// confirmed.
    pub open spec fn deletion_asked(old: PluginState, new: PluginState, name: Seq<char>) -> bool {
        &&& new.session_manager.pending() == Some(name)
        &&& new.session_manager.known() == old.session_manager.known()
        &&& new.session_manager.dead() == old.session_manager.dead()
        &&& new.session_manager.listed() == old.session_manager.listed()
        &&& new == (PluginState { session_manager: new.session_manager, ..old })
    }

    /// Ask the filepicker for the new session's folder, starting at the folder
    /// chosen so far.
    fn launch_filepicker(&mut self) -> (effects: Vec<Effect>)
        ensures
            effects@.len() == 1,
            effects@[0] matches Effect::PickFolder { request_id, folder } && uuid_text(request_id@) && texts(
                final(self).request_ids@,
            ) == texts(old(self).request_ids@).push(request_id@) && opt_view(folder)
                == old(self).new_session_info.form().5,
            *final(self) == (PluginState { request_ids: final(self).request_ids, ..*old(self) }),
    {
        let request_id = new_uuid();
        self.request_ids.push(request_id.clone());
        assert(texts(self.request_ids@) =~= texts(old(self).request_ids@).push(request_id@));
        let folder = match self.new_session_info.new_session_folder() {
            Some(f) => Some(string_from_chars(chars_of(f).as_slice())),
            None => None,
        };
        let mut effects: Vec<Effect> = Vec::new();
        effects.push(Effect::PickFolder { request_id, folder });
        effects
    }

    /// Check if a request ID is valid (exists in our request list)
    pub fn is_valid_request_id(&self, request_id: &str) -> (r: bool)
        ensures
            r == texts(self.request_ids@).contains(request_id@),
    {
        let mut i: usize = 0;
        while i < self.request_ids.len()
            invariant
                i <= self.request_ids.len(),
                forall|j: int| 0 <= j < i ==> texts(self.request_ids@)[j] != request_id@,
            decreases self.request_ids.len() - i,
        {
            if str_eq(self.request_ids[i].as_str(), request_id) {
                assert(texts(self.request_ids@)[i as int] == request_id@);
                return true;
            }
            i = i + 1;
        }
        false
    }

    /// Remove a request ID from our tracking list
    pub fn remove_request_id(&mut self, request_id: &str)
        ensures
            texts(final(self).request_ids@) == without(texts(old(self).request_ids@), request_id@),
            *final(self) == (PluginState { request_ids: final(self).request_ids, ..*old(self) }),
    {
        let mut kept_ids: Vec<String> = Vec::new();
        let ghost all = texts(self.request_ids@);
        let mut i: usize = 0;
        assert(all.take(0) =~= Seq::<Seq<char>>::empty());
        while i < self.request_ids.len()
            invariant
                i <= self.request_ids.len(),
                all == texts(self.request_ids@),
                texts(kept_ids@) == without(all.take(i as int), request_id@),
            decreases self.request_ids.len() - i,
        {
            assert(all.take(i + 1).drop_last() =~= all.take(i as int));
            assert(all.take(i + 1).last() == all[i as int]);
            if !str_eq(self.request_ids[i].as_str(), request_id) {
                kept_ids.push(self.request_ids[i].clone());
                assert(texts(kept_ids@) =~= without(all.take(i as int), request_id@).push(all[i as int]));
            }
            i = i + 1;
        }
        assert(all.take(self.request_ids.len() as int) =~= all);
        self.request_ids = kept_ids;
    }

    /// Set new session folder
    pub fn set_new_session_folder(&mut self, folder: Option<String>)
        requires
            old(self).wf(),
        ensures
            final(self).wf(),
            ({
                let v = old(self).new_session_info.form();
                final(self).new_session_info.form() == (v.0, v.1, v.2, v.3, v.4, opt_view(folder))
            }),
            *final(self) == (PluginState { new_session_info: final(self).new_session_info, ..*old(self) }),
    {
        self.new_session_info.set_folder(folder);
    }

    /// Take in how killing a session went: fetch the sessions again, since
    /// ours still list the killed one, or show why it failed.
    pub fn deletion_finished(&mut self, outcome: Result<(), String>) -> (effects: Vec<Effect>)
        ensures
            match outcome {
                Ok(()) => *final(self) == *old(self) && effects@ == Self::sessions_fetch(*old(self)),
                Err(e) => opt_view(final(self).error) == Some("Failed to delete session: "@ + e@) && *final(self) == (
                PluginState { error: final(self).error, ..*old(self) }) && effects@.len() == 0,
            },
    {
        match outcome {
            Ok(()) => self.fetch_sessions(),
            Err(e) => {
                self.set_error(joined("Failed to delete session: ", chars_of(e.as_str()).as_slice()));
                Vec::new()
            },
        }
    }

    /// Get current screen
    pub fn active_screen(&self) -> (r: ActiveScreen)
        ensures
            r == self.active_screen,
    {
        self.active_screen
    }

    /// The merged session and directory list, as last built.
    pub fn combined_items(&self) -> (r: &[SessionItem])
        ensures
            r@ == self.combined_items@,
    {
        self.combined_items.as_slice()
    }

    /// How many rows are on screen: search results while searching, otherwise
    /// the full list.
    pub fn visible_item_count(&self) -> (r: usize)
        ensures
            r == if self.search_engine.active() {
                self.search_engine.found().len()
            } else {
                self.combined_items@.len()
            },
    {
        if self.search_engine.is_searching() {
            self.search_engine.results().len()
        } else {
            self.combined_items.len()
        }
    }

    /// Get search engine (for UI rendering)
    pub fn search_engine(&self) -> (r: &SearchEngine)
        ensures
            *r == self.search_engine,
    {
        &self.search_engine
    }

    /// Get new session info (for UI rendering)
    pub fn new_session_info(&self) -> (r: &NewSessionInfo)
        ensures
            *r == self.new_session_info,
    {
        &self.new_session_info
    }

    /// Get session manager (for UI rendering)
    pub fn session_manager(&self) -> (r: &SessionManager)
        ensures
            *r == self.session_manager,
    {
        &self.session_manager
    }

    /// Get selected index for main screen
    pub fn selected_index(&self) -> (r: Option<usize>)
        ensures
            r == if self.search_engine.active() {
                self.search_engine.selection()
            } else {
                self.selected_index
            },
    {
        if self.search_engine.is_searching() {
            self.search_engine.selected_index()
        } else {
            self.selected_index
        }
    }

    /// Whether `name` is the session the plugin is running in.
    pub fn is_current_session(&self, name: &str) -> (r: bool)
        ensures
            r == (opt_view(self.current_session_name) == Some(name@)),
    {
        match &self.current_session_name {
            Some(c) => str_eq(c.as_str(), name),
            None => false,
        }
    }

    /// Get current error
    pub fn error(&self) -> (r: Option<&str>)
        ensures
            opt_str_view(r) == opt_view(self.error),
    {
        match &self.error {
            Some(e) => Some(e.as_str()),
            None => None,
        }
    }


    /// The effects of refreshing the shared records: none without
    /// permission.
    pub open spec fn usage_refresh(s: PluginState) -> Seq<Effect> {
        if s.permissions_granted {
            seq![Effect::RefreshUsage]
        } else {
            Seq::empty()
        }
    }

    /// `new` and `effects` are what refreshing the picker leaves of `old`:
    /// directories, sessions and shared records fetched, and the refresh
    /// timer started unless it runs.
    pub open spec fn picker_refreshed(old: PluginState, new: PluginState, effects: Seq<Effect>) -> bool {
        let start = old.permissions_granted && old.is_visible && !old.refresh_timer_pending;
        let fetches = Self::zoxide_fetch(old) + Self::sessions_fetch(old) + Self::usage_refresh(old);
        &&& start ==> new == (PluginState { refresh_timer_pending: true, ..old }) && effects == fetches + seq![
            Effect::StartTimer,
        ]
        &&& !start ==> new == old && effects == fetches
    }

    /// Refresh directories, sessions and shared records, and keep the
    /// session list fresh while the picker shows.
    pub fn refresh_picker(&mut self) -> (effects: Vec<Effect>)
        ensures
            Self::picker_refreshed(*old(self), *final(self), effects@),
    {
        let mut effects = self.fetch_zoxide_directories();
        let mut sessions = self.fetch_sessions();
        effects.append(&mut sessions);
        if self.permissions_granted {
            effects.push(Effect::RefreshUsage);
        }
        let ghost fetches = effects@;
        assert(fetches =~= Self::zoxide_fetch(*old(self)) + Self::sessions_fetch(*old(self)) + Self::usage_refresh(*old(self)));
        let mut timer = self.schedule_session_refresh();
        let ghost started = timer@;
        effects.append(&mut timer);
        assert(effects@ =~= fetches + started);
        effects
    }

    /// `new` and `effects` are what a key on the main screen leaves of
    /// `old`, for the action the key asks for.
    pub open spec fn main_key_done(old: PluginState, new: PluginState, action: MainAction, now: u128, effects: Seq<Effect>) -> bool {
        let term = old.search_engine.term();
        match action {
            MainAction::MoveUp => Self::moved_up(old, new) && effects.len() == 0,
            MainAction::MoveDown => Self::moved_down(old, new) && effects.len() == 0,
            MainAction::Select => Self::item_selected(old, new, now, effects),
            MainAction::QuickCreate => Self::quick_created(old, new, now, effects),
            MainAction::TogglePin => Self::pin_toggled(old, new, now, effects),
            MainAction::Kill => Self::kill_asked(old, new) && effects.len() == 0,
            MainAction::Search(c) => {
                // Always search the full item list, never the previous results.
                &&& searched(old.search_engine, new.search_engine, term.push(c), old.combined_items@)
                &&& new == (PluginState { search_engine: new.search_engine, ..old })
                &&& effects.len() == 0
            },
            MainAction::EraseSearch => {
                let shorter = if term.len() > 0 {
                    term.drop_last()
                } else {
                    term
                };
                &&& searched(old.search_engine, new.search_engine, shorter, old.combined_items@)
                &&& new == (PluginState { search_engine: new.search_engine, ..old })
                &&& effects.len() == 0
            },
            MainAction::ClearSearch => {
                &&& searched(old.search_engine, new.search_engine, Seq::empty(), old.combined_items@)
                &&& new == (PluginState { search_engine: new.search_engine, ..old })
                &&& effects.len() == 0
            },
            MainAction::Hide => Self::visibility_set(old, new, false) && effects == seq![Effect::Hide],
            MainAction::Reload => new == old && effects == Self::zoxide_fetch(old) + Self::sessions_fetch(old)
                + Self::usage_refresh(old),
            MainAction::Ignore => new == old && effects.len() == 0,
        }
    }

    /// Handle main screen key input
    fn handle_main_screen_key(&mut self, key: PickerKey, now: u128) -> (r: (bool, Vec<Effect>))
        requires
            old(self).wf(),
        ensures
            final(self).wf(),
            ({
                let (action, render) = main_action(key, old(self).search_engine.active());
                r.0 == render && Self::main_key_done(*old(self), *final(self), action, now, r.1@)
            }),
    {
        let (action, render) = main_screen_action(key, self.search_engine.is_searching());
        let effects = match action {
            MainAction::MoveUp => {
                self.move_selection_up();
                Vec::new()
            },
            MainAction::MoveDown => {
                self.move_selection_down();
                Vec::new()
            },
            MainAction::Select => self.handle_item_selection(now),
            MainAction::QuickCreate => self.handle_quick_session_creation(now),
            MainAction::TogglePin => self.toggle_selected_pin(now),
            MainAction::Kill => {
                self.handle_kill_shortcut();
                Vec::new()
            },
            MainAction::Search(c) => {
                self.search_engine.add_char(c, self.combined_items.as_slice());
                Vec::new()
            },
            MainAction::EraseSearch => {
                self.search_engine.backspace(self.combined_items.as_slice());
                Vec::new()
            },
            MainAction::ClearSearch => {
                self.search_engine.clear();
                assert(self.search_engine.term() =~= Seq::<char>::empty());
                Vec::new()
            },
            MainAction::Hide => self.hide_picker(),
            MainAction::Reload => {
                // Reload zoxide directories and re-pull the session list.
                let mut effects = self.fetch_zoxide_directories();
                let mut sessions = self.fetch_sessions();
                effects.append(&mut sessions);
                if self.permissions_granted {
                    effects.push(Effect::RefreshUsage);
                }
                assert(effects@ =~= Self::zoxide_fetch(*old(self)) + Self::sessions_fetch(*old(self))
                    + Self::usage_refresh(*old(self)));
                effects
            },
            MainAction::Ignore => Vec::new(),
        };
        (render, effects)
    }

    /// `new` and `effects` are what Enter on the new-session screen leaves of
    /// `old`: a name that cannot be used is refused; from the name field the
    /// layout is picked next; from the layout picker the session is created
    /// with the selected layout, unless the search matches none.
    pub open spec fn form_submitted(old: PluginState, new: PluginState, now: u128, effects: Seq<Effect>) -> bool {
        let v = old.new_session_info.form();
        let verdict = creation_validation(
            v.0,
            opt_view(old.current_session_name),
            is_taken(old.session_manager.known(), old.session_manager.dead(), v.0),
        );
        match verdict {
            Err(m) => {
                &&& opt_view(new.error) == Some(m@)
                &&& new == (PluginState { error: new.error, ..old })
                &&& effects.len() == 0
            },
            Ok(_) => if v.1 == EnteringState::EnteringLayoutSearch {
                if v.3.len() > 0 && old.new_session_info.chosen_layout() is None {
                    &&& opt_view(new.error) == Some("No matching layout; edit or clear the search"@)
                    &&& new == (PluginState { error: new.error, ..old })
                    &&& effects.len() == 0
                } else {
                    Self::creation_started(old, new, v.0, v.5, old.new_session_info.chosen_layout(), now, effects)
                }
            } else {
                &&& new.new_session_info.wf()
                &&& new.new_session_info.form() == (v.0, EnteringState::EnteringLayoutSearch, v.2, v.3, v.4, v.5)
                &&& new == (PluginState { new_session_info: new.new_session_info, ..old })
                &&& effects.len() == 0
            },
        }
    }

    /// `new` and `effects` are what Ctrl+Enter on the new-session screen
    /// leaves of `old`: the session is created with the default layout, if
    /// it is one of the offered layouts.
    pub open spec fn form_quick_created(old: PluginState, new: PluginState, now: u128, effects: Seq<Effect>) -> bool {
        let v = old.new_session_info.form();
        match old.config.default_layout {
            None => Self::creation_started(old, new, v.0, v.5, None, now, effects),
            Some(d) => match named_layout(v.2, d@, 0) {
                Some(l) => Self::creation_started(old, new, v.0, v.5, Some(l), now, effects),
                None => {
                    &&& opt_view(new.error) == Some(
                        "Default layout is unavailable; select a layout or update default_layout"@,
                    )
                    &&& new == (PluginState { error: new.error, ..old })
                    &&& effects.len() == 0
                },
            },
        }
    }

    /// `new` and `effects` are what a key on the new-session screen leaves
    /// of `old`, for the action the key asks for.
    pub open spec fn form_key_done(
        old: PluginState,
        new: PluginState,
        key: PickerKey,
        action: NewSessionAction,
        now: u128,
        effects: Seq<Effect>,
    ) -> bool {
        let v = old.new_session_info.form();
        match action {
            NewSessionAction::Select => Self::form_submitted(old, new, now, effects),
            NewSessionAction::QuickCreate => Self::form_quick_created(old, new, now, effects),
            NewSessionAction::BackToMain => new == (PluginState { active_screen: ActiveScreen::Main, ..old })
                && effects.len() == 0,
            NewSessionAction::ChooseFolder => {
                &&& effects.len() == 1
                &&& effects[0] matches Effect::PickFolder { request_id, folder } && uuid_text(request_id@) && texts(
                    new.request_ids@,
                ) == texts(old.request_ids@).push(request_id@) && opt_view(folder) == v.5
                &&& new == (PluginState { request_ids: new.request_ids, ..old })
            },
            NewSessionAction::ClearFolder => {
                &&& new.new_session_info.wf()
                &&& new.new_session_info.form() == (v.0, v.1, v.2, v.3, v.4, None::<Seq<char>>)
                &&& new == (PluginState { new_session_info: new.new_session_info, ..old })
                &&& effects.len() == 0
            },
            NewSessionAction::Form => {
                &&& new.new_session_info.wf()
                &&& new.new_session_info.form() == form_step(v, form_key_of(key))
                &&& new == (PluginState { new_session_info: new.new_session_info, ..old })
                &&& effects.len() == 0
            },
        }
    }

    /// Handle new session screen key input
    fn handle_new_session_key(&mut self, key: PickerKey, now: u128) -> (effects: Vec<Effect>)
        requires
            old(self).wf(),
        ensures
            final(self).wf(),
            Self::form_key_done(
                *old(self),
                *final(self),
                key,
                new_session_action(
                    key,
                    old(self).new_session_info.form().1 == EnteringState::EnteringName,
                    old(self).new_session_info.form().0.len() == 0,
                ),
                now,
                effects@,
            ),
    {
        let action = new_session_screen_action(
            key,
            self.new_session_info.entering_new_session_name(),
            self.new_session_info.name().is_empty(),
        );
        match action {
            NewSessionAction::Select => {
                // Only leave the screen once a session was actually requested.
                // Enter in the name field just moves on to the layout picker.
                let outcome = {
                    let manager = &self.session_manager;
                    let taken = |name: &str| -> (t: bool)
                        ensures
                            t == is_taken(manager.known(), manager.dead(), name@),
                        { manager.name_taken(name) };
                    self.new_session_info.handle_selection(&self.current_session_name, taken)
                };
                match outcome {
                    SelectionOutcome::AdvancedToLayout => Vec::new(),
                    SelectionOutcome::Create(request) => self.create_session(request, now),
                    SelectionOutcome::Rejected(message) => {
                        self.set_error(string_from_chars(chars_of(message).as_slice()));
                        Vec::new()
                    },
                }
            },
            NewSessionAction::QuickCreate => {
                let default_layout = match &self.config.default_layout {
                    Some(d) => Some(d.as_str()),
                    None => None,
                };
                match self.new_session_info.quick_creation_request(default_layout) {
                    Ok(request) => self.create_session(request, now),
                    Err(message) => {
                        self.set_error(string_from_chars(chars_of(message).as_slice()));
                        Vec::new()
                    },
                }
            },
            NewSessionAction::BackToMain => {
                // Esc in an empty name field goes back to the main screen.
                self.active_screen = ActiveScreen::Main;
                Vec::new()
            },
            NewSessionAction::ChooseFolder => self.launch_filepicker(),
            NewSessionAction::ClearFolder => {
                // Clear the session folder; the form does not see this key.
                self.new_session_info.set_folder(None);
                Vec::new()
            },
            NewSessionAction::Form => {
                self.new_session_info.handle_key(form_key(&key));
                Vec::new()
            },
        }
    }


    /// `new` and `effects` are what a key leaves of `old` while a deletion
    /// waits for confirmation: `y` kills the session (deleting it when only
    /// resurrectable), `n` or Esc cancels.
    pub open spec fn deletion_key_done(old: PluginState, new: PluginState, action: DeletionAction, effects: Seq<Effect>) -> bool {
        match action {
            DeletionAction::Confirm => match old.session_manager.pending() {
                Some(n) => {
                    &&& new.session_manager.pending() is None
                    &&& new.session_manager.known() == old.session_manager.known()
                    &&& new.session_manager.dead() == old.session_manager.dead()
                    &&& new.session_manager.listed() == old.session_manager.listed()
                    &&& new == (PluginState { session_manager: new.session_manager, ..old })
                    &&& effects.len() == 1
                    &&& effects[0] matches Effect::Kill { name, dead } && name@ == n && dead == (!session_names(
                        old.session_manager.known(),
                    ).contains(n) && dead_names(old.session_manager.dead()).contains(n))
                },
                None => new == old && effects == Self::sessions_fetch(old),
            },
            DeletionAction::Cancel => {
                &&& new.session_manager.pending() is None
                &&& new.session_manager.known() == old.session_manager.known()
                &&& new.session_manager.dead() == old.session_manager.dead()
                &&& new.session_manager.listed() == old.session_manager.listed()
                &&& new == (PluginState { session_manager: new.session_manager, ..old })
                &&& effects.len() == 0
            },
            DeletionAction::Ignore => new == old && effects.len() == 0,
        }
    }

    /// Handle deletion confirmation
    fn handle_deletion_confirmation(&mut self, key: PickerKey) -> (r: (bool, Vec<Effect>))
        ensures
            ({
                let (action, render) = deletion_action(key);
                r.0 == render && Self::deletion_key_done(*old(self), *final(self), action, r.1@)
            }),
    {
        let (action, render) = deletion_confirmation_action(key);
        let effects = match action {
            DeletionAction::Confirm => match self.session_manager.confirm_deletion() {
                Some(name) => {
                    let dead = self.session_manager.deletes_dead_session(name.as_str());
                    let mut effects: Vec<Effect> = Vec::new();
                    effects.push(Effect::Kill { name, dead });
                    effects
                },
                None => self.fetch_sessions(),
            },
            DeletionAction::Cancel => {
                self.session_manager.cancel_deletion();
                Vec::new()
            },
            DeletionAction::Ignore => Vec::new(),
        };
        (render, effects)
    }

    /// `new`, the render flag and `effects` are what key `key` leaves of
    /// `old`: nothing while a creation is being saved; a shown error is
    /// dismissed; a deletion waiting for confirmation takes the key; else
    /// the screen on view does.
    pub open spec fn key_handled(old: PluginState, new: PluginState, key: PickerKey, now: u128, render: bool, effects: Seq<Effect>) -> bool {
        if old.pending_creation is Some {
            new == old && !render && effects.len() == 0
        } else if old.error is Some {
            new == (PluginState { error: None, ..old }) && render && effects.len() == 0
        } else if old.session_manager.pending() is Some {
            let (action, shown) = deletion_action(key);
            render == shown && Self::deletion_key_done(old, new, action, effects)
        } else if old.active_screen == ActiveScreen::Main {
            let (action, shown) = main_action(key, old.search_engine.active());
            render == shown && Self::main_key_done(old, new, action, now, effects)
        } else {
            let v = old.new_session_info.form();
            render && Self::form_key_done(
                old,
                new,
                key,
                new_session_action(key, v.1 == EnteringState::EnteringName, v.0.len() == 0),
                now,
                effects,
            )
        }
    }

    /// Handle key input at `now`: whether to draw again, and the effects.
    pub fn handle_key(&mut self, key: PickerKey, now: u128) -> (r: (bool, Vec<Effect>))
        requires
            old(self).wf(),
        ensures
            final(self).wf(),
            Self::key_handled(*old(self), *final(self), key, now, r.0, r.1@),
    {
        if self.pending_creation.is_some() {
            return (false, Vec::new());
        }
        // Clear error on any key press
        if self.error.is_some() {
            self.error = None;
            return (true, Vec::new());
        }
        if self.session_manager.pending_deletion().is_some() {
            return self.handle_deletion_confirmation(key);
        }
        match self.active_screen {
            ActiveScreen::Main => self.handle_main_screen_key(key, now),
            ActiveScreen::NewSession => (true, self.handle_new_session_key(key, now)),
        }
    }

    /// Take in a pipe message: a folder the filepicker picked for one of our
    /// requests becomes the new session's folder. Whether to draw again.
    pub fn pipe(&mut self, name: &str, payload: Option<String>, request_id: Option<&str>) -> (r: bool)
        requires
            old(self).wf(),
        ensures
            final(self).wf(),
            ({
                let answered = name@ == "filepicker_result"@ && payload is Some && (request_id matches Some(id)
                    && texts(old(self).request_ids@).contains(id@));
                let v = old(self).new_session_info.form();
                &&& r == answered
                &&& !answered ==> *final(self) == *old(self)
                &&& answered ==> {
                    &&& texts(final(self).request_ids@) == without(
                        texts(old(self).request_ids@),
                        request_id->0@,
                    )
                    &&& final(self).new_session_info.form() == (v.0, v.1, v.2, v.3, v.4, opt_view(payload))
                    &&& *final(self) == (PluginState {
                        request_ids: final(self).request_ids,
                        new_session_info: final(self).new_session_info,
                        ..*old(self)
                    })
                }
            }),
    {
        if !str_eq(name, "filepicker_result") {
            return false;
        }
        match (payload, request_id) {
            (Some(payload), Some(request_id)) => {
                if self.is_valid_request_id(request_id) {
                    self.remove_request_id(request_id);
                    // The plugin only sees its WASI preopens, so the picked
                    // path cannot be probed from here: the filepicker was
                    // asked for a folder, so the path is the folder.
                    self.set_new_session_folder(Some(payload));
                    true
                } else {
                    false
                }
            },
            _ => false,
        }
    }

    /// `new` is `old` after a passive notification of `sessions`: only the
    /// current session is fresh.
    pub open spec fn notification_taken(old: PluginState, new: PluginState, sessions: Seq<LiveSession>) -> bool {
        let fresh = sessions_view(sessions);
        let informed = PluginState {
            current_session_name: new.current_session_name,
            new_session_info: new.new_session_info,
            ..old
        };
        &&& new.session_manager.known() == notified(old.session_manager.known(), fresh)
        &&& new.session_manager.dead() == old.session_manager.dead()
        &&& new.session_manager.listed() == old.session_manager.listed()
        &&& new.session_manager.pending() == old.session_manager.pending()
        &&& Self::current_info_taken(old, informed, fresh)
        &&& Self::rebuilt(PluginState { session_manager: new.session_manager, ..informed }, new)
    }

    /// `new` and `r` are what the CLI listing `output` leaves of `old`: a listing
    /// that cannot be read changes nothing.
    pub open spec fn listing_taken(old: PluginState, new: PluginState, output: Seq<char>, r: Result<(), String>) -> bool {
        match read_listing(output) {
            Err(e) => r matches Err(m) && m@ == e && new == old,
            Ok(v) => {
                let listed = PluginState { session_manager: new.session_manager, ..old };
                let informed = PluginState {
                    current_session_name: new.current_session_name,
                    new_session_info: new.new_session_info,
                    ..listed
                };
                &&& r is Ok
                &&& new.session_manager.listed() == Some(v)
                &&& (new.session_manager.known(), new.session_manager.dead())
                    == with_listing(
                    old.session_manager.known(),
                    old.session_manager.dead(),
                    Some(v),
                )
                &&& new.session_manager.pending() == old.session_manager.pending()
                &&& Self::current_info_taken(listed, informed, new.session_manager.known())
                &&& Self::rebuilt(informed, new)
            },
        }
    }

    /// `new` and `r` are what a report of the picker's pane leaves of `old`;
    /// `r` tells whether the picker just opened.
    pub open spec fn pane_reported(old: PluginState, new: PluginState, pane: Option<PickerPane>, r: bool) -> bool {
        ({
            let visible = pane_visible(pane);
            let focused = pane_focused(pane);
            let opened = visible && (!old.is_visible || (focused && !old.is_focused));
            let rest = PluginState {
                is_visible: old.is_visible,
                is_focused: old.is_focused,
                ..new
            };
            &&& r == opened
            &&& new.is_visible == visible
            &&& new.is_focused == focused
            &&& if !visible || !old.is_visible || opened {
                Self::search_reset(old, rest)
            } else {
                rest == old
            }
        })
    }

    /// `new` is `old` with the shared visit `history` taken in.
    pub open spec fn usage_taken(old: PluginState, new: PluginState, history: Seq<char>) -> bool {
        &&& new.session_usage@ == pruned(remember_all(old.session_usage@, text_lines(history)))
        &&& Self::rebuilt(PluginState { session_usage: new.session_usage, ..old }, new)
    }

    /// `new` is `old` with the zoxide `directories` taken in.
    pub open spec fn directories_taken(old: PluginState, new: PluginState, directories: Vec<String>) -> bool {
        ({
            let listed = PluginState { zoxide_directories: directories, ..old };
            &&& Self::is_directory_list(new.directory_items@, listed)
            &&& Self::rebuilt(PluginState { directory_items: new.directory_items, ..listed }, new)
        })
    }

    /// `new` and `effects` are what the projects store's answer leaves of
    /// `old`.
    pub open spec fn projects_answered(old: PluginState, new: PluginState, success: bool, output: Seq<char>, error: Seq<char>, creation_id: Option<Seq<char>>, effects: Seq<Effect>) -> bool {
        ({
            let first = PluginState { pending_creation: old.pending_creation, ..new };
            let waiting = match old.pending_creation {
                Some(p) => creation_id == Some(p.0@),
                None => false,
            };
            &&& success ==> Self::projects_merged(old, first, output)
            &&& !success ==> opt_view(first.error) == Some(
                "Could not save or load projects: "@ + trim_ws(error),
            ) && first == (PluginState { error: first.error, ..old })
            &&& waiting ==> new.pending_creation is None && (success ==> effects
                == Self::sessions_fetch(old).push(
                Effect::FinishCreation((old.pending_creation->0).1),
            )) && (!success ==> effects.len() == 0)
            &&& !waiting ==> new.pending_creation == old.pending_creation && effects.len()
                == 0
        })
    }


    /// `new`, the render flag and `effects` are what `event` at `now` leaves
    /// of `old`.
    pub open spec fn event_handled(
        old: PluginState,
        new: PluginState,
        event: PluginEvent,
        now: u128,
        render: bool,
        effects: Seq<Effect>,
    ) -> bool {
        match event {
            // The UI uses indexed colours, which Zellij resolves against the
            // user's theme, so a theme change just needs a repaint.
            PluginEvent::ModeUpdate => new == old && render && effects.len() == 0,
            PluginEvent::Key(key) => Self::key_handled(old, new, key, now, render, effects),
            PluginEvent::Permissions(granted) => if granted {
                render && Self::picker_refreshed(PluginState { permissions_granted: true, ..old }, new, effects)
            } else {
                &&& opt_view(new.error) == Some("RunCommands permission denied - cannot fetch zoxide directories"@)
                &&& new == (PluginState { permissions_granted: false, error: new.error, ..old })
                &&& render
                &&& effects.len() == 0
            },
            // Notifications can precede a newer explicit snapshot: they never
            // replace its membership with the host's stale peer cache.
            PluginEvent::SessionUpdate(sessions) => render && effects.len() == 0 && Self::notification_taken(
                old,
                new,
                sessions@,
            ),
            PluginEvent::PaneReport(pane) => exists|mid: PluginState|
                {
                    &&& #[trigger] Self::pane_reported(old, mid, pane, render)
                    &&& mid.wf()
                    &&& render ==> Self::picker_refreshed(mid, new, effects)
                    &&& !render ==> new == mid && effects.len() == 0
                },
            PluginEvent::SessionListing(outcome) => {
                let cleared = PluginState { session_listing_pending: false, ..old };
                match outcome {
                    Ok(output) => match read_listing(output@) {
                        Ok(_) => render && effects.len() == 0 && Self::listing_taken(cleared, new, output@, Ok(())),
                        Err(e) => !render && new == cleared && logged(effects, "[zsm] session listing failed: "@, e),
                    },
                    Err(e) => !render && new == cleared && logged(effects, "[zsm] session listing failed: "@, e@),
                }
            },
            PluginEvent::Zoxide(outcome) => render && effects.len() == 0 && match outcome {
                Ok(directories) => Self::directories_taken(old, new, directories),
                Err(e) => opt_view(new.error) == Some("Failed to run zoxide (is it installed?): "@ + e@) && new == (
                PluginState { error: new.error, ..old }),
            },
            PluginEvent::SessionUsage(outcome) => match outcome {
                Ok(history) => render && effects.len() == 0 && Self::usage_taken(old, new, history@),
                Err(e) => !render && new == old && logged(effects, "[zsm] session usage cache failed: "@, e@),
            },
            PluginEvent::Projects { success, output, error, creation_id } => render && Self::projects_answered(
                old,
                new,
                success,
                output@,
                error@,
                opt_view(creation_id),
                effects,
            ),
            // Reopened: directories and sessions may have changed meanwhile.
            PluginEvent::Visible(visible) => exists|mid: PluginState|
                {
                    &&& #[trigger] Self::visibility_set(old, mid, visible)
                    &&& mid.wf()
                    &&& visible ==> render && Self::picker_refreshed(mid, new, effects)
                    &&& !visible ==> !render && new == mid && effects.len() == 0
                },
            PluginEvent::Timer => if old.is_visible && old.permissions_granted {
                &&& render
                &&& new == (PluginState { refresh_timer_pending: true, ..old })
                &&& effects == Self::sessions_fetch(old) + seq![Effect::StartTimer]
            } else {
                !render && new == (PluginState { refresh_timer_pending: false, ..old }) && effects.len() == 0
            },
        }
    }

    /// Take in an event at `now`: whether to draw again, and the effects.
    #[verifier::spinoff_prover]
    #[verifier::rlimit(60)]
    pub fn update(&mut self, event: PluginEvent, now: u128) -> (r: (bool, Vec<Effect>))
        requires
            old(self).wf(),
        ensures
            final(self).wf(),
            Self::event_handled(*old(self), *final(self), event, now, r.0, r.1@),
    {
        match event {
            PluginEvent::ModeUpdate => (true, Vec::new()),
            PluginEvent::Key(key) => self.handle_key(key, now),
            PluginEvent::Permissions(granted) => {
                if granted {
                    self.permissions_granted = true;
                    (true, self.refresh_picker())
                } else {
                    self.permissions_granted = false;
                    self.set_error(string_from_chars(
                        chars_of("RunCommands permission denied - cannot fetch zoxide directories").as_slice(),
                    ));
                    (true, Vec::new())
                }
            },
            PluginEvent::SessionUpdate(sessions) => {
                self.update_session_notification(sessions);
                (true, Vec::new())
            },
            PluginEvent::PaneReport(pane) => {
                if self.update_pane_activity(pane) {
                    let ghost mid = *self;
                    let effects = self.refresh_picker();
                    assert(Self::pane_reported(*old(self), mid, pane, true));
                    (true, effects)
                } else {
                    assert(Self::pane_reported(*old(self), *self, pane, false));
                    (false, Vec::new())
                }
            },
            PluginEvent::SessionListing(outcome) => {
                self.session_listing_pending = false;
                match outcome {
                    Ok(output) => match self.update_session_listing(output.as_str()) {
                        Ok(()) => (true, Vec::new()),
                        Err(error) => (false, log_line("[zsm] session listing failed: ", error.as_str())),
                    },
                    Err(error) => (false, log_line("[zsm] session listing failed: ", error.as_str())),
                }
            },
            PluginEvent::Zoxide(outcome) => {
                match outcome {
                    Ok(directories) => self.update_zoxide_directories(directories),
                    Err(error) => self.set_error(
                        joined("Failed to run zoxide (is it installed?): ", chars_of(error.as_str()).as_slice()),
                    ),
                }
                (true, Vec::new())
            },
            PluginEvent::SessionUsage(outcome) => match outcome {
                Ok(history) => {
                    self.update_session_usage(history.as_str());
                    (true, Vec::new())
                },
                Err(error) => (false, log_line("[zsm] session usage cache failed: ", error.as_str())),
            },
            PluginEvent::Projects { success, output, error, creation_id } => {
                let id = match &creation_id {
                    Some(c) => Some(c.as_str()),
                    None => None,
                };
                (true, self.project_command_finished(success, output.as_str(), error.as_str(), id))
            },
            PluginEvent::Visible(visible) => {
                self.set_visible(visible);
                if visible {
                    let ghost mid = *self;
                    let effects = self.refresh_picker();
                    assert(Self::visibility_set(*old(self), mid, visible));
                    (true, effects)
                } else {
                    assert(Self::visibility_set(*old(self), *self, visible));
                    (false, Vec::new())
                }
            },
            PluginEvent::Timer => {
                self.refresh_timer_pending = false;
                if self.is_visible && self.permissions_granted {
                    let mut effects = self.fetch_sessions();
                    let mut timer = self.schedule_session_refresh();
                    effects.append(&mut timer);
                    assert(effects@ =~= Self::sessions_fetch(*old(self)) + seq![Effect::StartTimer]);
                    (true, effects)
                } else {
                    (false, Vec::new())
                }
            },
        }
    }


    /// Initialize plugin with configuration
    pub fn initialize(&mut self, config: Config)
        ensures
            *final(self) == (PluginState { config: config, ..*old(self) }),
    {
        self.config = config;
    }

    /// Show error message
    pub fn set_error(&mut self, error: String)
        ensures
            *final(self) == (PluginState { error: Some(error), ..*old(self) }),
    {
        self.error = Some(error);
    }
}


/// The item `item_position` finds stands for the same row.
proof fn lemma_item_position(items: Seq<SessionItem>, item: SessionItem, from: nat)
    ensures
        item_position(items, item, from) matches Some(k) ==> from <= k < items.len() && same_item(items[k as int], item),
    decreases items.len() - from,
{
    if from < items.len() && !same_item(items[from as int], item) {
        lemma_item_position(items, item, from + 1);
    }
}

/// Hiding the picker and showing it again leaves no search, no selection,
/// no error and no deletion waiting for confirmation, and keeps the
/// new-session form and the screen on view.
pub proof fn lemma_hide_then_show_resets(a: PluginState, b: PluginState, c: PluginState)
    requires
        PluginState::visibility_set(a, b, false),
        PluginState::visibility_set(b, c, true),
    ensures
        c.is_visible,
        !c.search_engine.active(),
        c.search_engine.term().len() == 0,
        c.search_engine.found().len() == 0,
        c.selected_index is None,
        c.error is None,
        c.session_manager.pending() is None,
        c.new_session_info == a.new_session_info,
        c.active_screen == a.active_screen,
{
}

/// Showing a picker that already shows changes nothing: an active search
/// survives repeated visibility events.
pub proof fn lemma_showing_again_changes_nothing(a: PluginState, b: PluginState)
    requires
        PluginState::visibility_set(a, b, true),
        a.is_visible,
    ensures
        b == a,
{
    let rest = PluginState { is_visible: a.is_visible, is_focused: a.is_focused, ..b };
    assert(rest == a);
    assert(b == PluginState { is_visible: b.is_visible, is_focused: b.is_focused, ..rest });
}

/// A rebuild keeps the selected row selected wherever it is still listed.
pub proof fn lemma_rebuild_keeps_selected_row(before: PluginState, after: PluginState, item: SessionItem)
    requires
        PluginState::rebuilt(before, after),
        !before.search_engine.active(),
        before.selection() == Some(item),
        item_position(after.combined_items@, item, 0) is Some,
    ensures
        after.selection() matches Some(now) && same_item(now, item),
{
    lemma_item_position(after.combined_items@, item, 0);
    let k = item_position(after.combined_items@, item, 0)->0;
    assert(after.combined_items@.len() == after.combined_items.len());
    assert(as_nat_option(after.selected_index) == Some(k));
}

/// In the list, the sessions come first, every one of them a session row,
/// and the directory rows follow, unchanged.
pub proof fn lemma_sessions_before_directories(items: Seq<SessionItem>, s: PluginState)
    requires
        PluginState::is_combined(items, s),
    ensures
        items.len() >= s.directory_items@.len(),
        items.skip(items.len() - s.directory_items@.len()) == s.directory_items@,
        forall|i: int| 0 <= i < items.len() - s.directory_items@.len() ==> !(#[trigger] items[i] is Directory),
{
    let live = name_flags(s.session_manager.known());
    let rows = choose|rows: Seq<SessionItem>|
        session_rows_spec(
            rows,
            live,
            s.session_manager.dead(),
            s.config.show_resurrectable_sessions,
            s.projects@,
        ) && items == visit_sorted(s.session_usage@, rows) + s.directory_items@;
    lemma_visit_sorted_keeps_rows(s.session_usage@, rows);
    let sorted = visit_sorted(s.session_usage@, rows);
    assert(items.skip(items.len() - s.directory_items@.len()) =~= s.directory_items@);
    assert forall|i: int| 0 <= i < items.len() - s.directory_items@.len() implies !(#[trigger] items[i] is Directory) by {
        assert(items[i] == sorted[i]);
        let j = choose|j: int| 0 <= j < rows.len() && sorted[i] == rows[j];
        if j < live.len() {
            assert(is_live_row(rows[j], live[j].0, crate::picker::association(s.projects@, live[j].0), live[j].1));
        } else {
            let dead = if s.config.show_resurrectable_sessions {
                crate::picker::unlisted(s.session_manager.dead(), live)
            } else {
                Seq::empty()
            };
            let d = j - live.len();
            assert(is_dead_row(rows[live.len() + d], dead[d].0, dead[d].1));
        }
    }
}

/// A listing that cannot be read changes nothing: the last good list stays.
pub proof fn lemma_unreadable_listing_changes_nothing(old: PluginState, new: PluginState, output: Seq<char>, r: Result<(), String>)
    requires
        PluginState::listing_taken(old, new, output, r),
        read_listing(output) is Err,
    ensures
        new == old,
        r is Err,
{
}

/// A failed save of the projects keeps the new-session form, the screen and
/// the list, shows why, and releases the creation that waited for it.
pub proof fn lemma_failed_save_keeps_the_form(
    old: PluginState,
    new: PluginState,
    output: Seq<char>,
    error: Seq<char>,
    id: Seq<char>,
    effects: Seq<Effect>,
)
    requires
        PluginState::projects_answered(old, new, false, output, error, Some(id), effects),
        old.pending_creation matches Some(p) && p.0@ == id,
    ensures
        new.pending_creation is None,
        new.new_session_info == old.new_session_info,
        new.active_screen == old.active_screen,
        new.combined_items == old.combined_items,
        opt_view(new.error) == Some("Could not save or load projects: "@ + trim_ws(error)),
        effects.len() == 0,
{
}

/// While a creation waits for its folder to be saved, keys do nothing.
pub proof fn lemma_keys_wait_for_creation(
    old: PluginState,
    new: PluginState,
    key: PickerKey,
    now: u128,
    render: bool,
    effects: Seq<Effect>,
)
    requires
        PluginState::key_handled(old, new, key, now, render, effects),
        old.pending_creation is Some,
    ensures
        new == old,
        !render,
        effects.len() == 0,
{
}

impl Default for PluginState {
    fn default() -> (r: Self)
        ensures
            r.wf(),
            !r.permissions_granted && !r.is_visible && !r.is_focused,
            !r.refresh_timer_pending && !r.session_listing_pending && !r.projects_loaded,
            r.session_usage@ == Map::<Seq<char>, u128>::empty(),
            r.projects@ == Map::<Seq<char>, (u128, Seq<char>)>::empty(),
            r.pending_creation is None,
            r.session_manager.known().len() == 0,
            r.session_manager.dead().len() == 0,
            r.session_manager.pending() is None,
            r.session_manager.listed() is None,
            r.zoxide_directories@.len() == 0,
            r.directory_items@.len() == 0,
            r.combined_items@.len() == 0,
            !r.search_engine.active() && r.search_engine.term().len() == 0 && r.search_engine.found().len() == 0,
            r.search_engine.selection() is None,
            r.new_session_info.form() == (
                Seq::<char>::empty(),
                EnteringState::EnteringName,
                Seq::<LayoutEntry>::empty(),
                Seq::<char>::empty(),
                0nat,
                None::<Seq<char>>,
            ),
            r.active_screen == ActiveScreen::Main,
            r.error is None,
            r.current_session_name is None,
            r.request_ids@.len() == 0,
            r.selected_index is None,
    {
        PluginState {
            permissions_granted: false,
            is_visible: false,
            refresh_timer_pending: false,
            session_listing_pending: false,
            is_focused: false,
            session_usage: SessionUsage::default(),
            projects: Projects::default(),
            projects_loaded: false,
            pending_creation: None,
            config: Config::default(),
            session_manager: SessionManager::default(),
            zoxide_directories: Vec::new(),
            directory_items: Vec::new(),
            search_engine: SearchEngine::default(),
            new_session_info: NewSessionInfo::default(),
            active_screen: ActiveScreen::Main,
            error: None,
            current_session_name: None,
            request_ids: Vec::new(),
            selected_index: None,
            combined_items: Vec::new(),
        }
    }
}


/// Enter on a directory row of the main screen opens the new-session form
/// at the layout step, with the row's path as the new session's folder and
/// the row's session name, or a free numbered form of it, as its name; the
/// host is asked for nothing yet.
pub proof fn lemma_enter_on_directory_opens_form(
    old: PluginState,
    new: PluginState,
    now: u128,
    render: bool,
    effects: Seq<Effect>,
)
    requires
        old.pending_creation is None,
        old.error is None,
        old.session_manager.pending() is None,
        old.active_screen == ActiveScreen::Main,
        old.selection() matches Some(SessionItem::Directory { .. }),
        PluginState::key_handled(old, new, PickerKey::Enter, now, render, effects),
    ensures
        match old.selection() {
            Some(SessionItem::Directory { path, session_name, .. }) => {
                &&& new.active_screen == ActiveScreen::NewSession
                &&& new.new_session_info.form().5 == Some(path@)
                &&& new.new_session_info.form().1 == EnteringState::EnteringLayoutSearch
                &&& incremented_name(
                    old.session_manager.known(),
                    old.session_manager.dead(),
                    session_name@,
                    old.config.separator_view(),
                    new.new_session_info.form().0,
                )
                &&& render
                &&& effects.len() == 0
            },
            _ => false,
        },
{
}

} // verus!
