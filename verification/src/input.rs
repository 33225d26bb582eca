//! What key presses and pane reports mean to the picker: each screen's keys
//! map to one action, and pane and tab reports decide whether the picker is
//! on screen, focused, and freshly opened.

use vstd::prelude::*;

verus! {

/// A key press as the picker reads it; modifiers not named here make the
/// key `Other`.
#[derive(Clone, Copy, Debug, PartialEq, Eq, Structural)]
pub enum PickerKey {
    /// Up, without modifiers.
    Up,
    /// Down, without modifiers.
    Down,
    /// Enter, without modifiers.
    Enter,
    /// Ctrl+Enter.
    CtrlEnter,
    /// Ctrl and a character.
    Ctrl(char),
    /// A character typed without modifiers.
    Char(char),
    /// Backspace, without modifiers.
    Backspace,
    /// Esc, without modifiers.
    Esc,
    /// Any other key.
    Other,
}

/// What a key on the main screen asks for.
#[derive(Debug, PartialEq, Eq)]
pub enum MainAction {
    MoveUp,
    MoveDown,
    /// Switch to the selected session, or start a new one in the selected
    /// directory.
    Select,
    /// Switch, or create a session with the default layout, at once.
    QuickCreate,
    TogglePin,
    /// Ask to kill the selected session.
    Kill,
    /// Add a character to the search.
    Search(char),
    /// Erase the last character of the search.
    EraseSearch,
    ClearSearch,
    /// Hide the picker.
    Hide,
    /// Reload directories, sessions and shared records.
    Reload,
    Ignore,
}

/// What a key on the new-session screen asks for.
#[derive(Debug, PartialEq, Eq)]
pub enum NewSessionAction {
    /// Advance the form, or create the session.
    Select,
    /// Create the session with the default layout.
    QuickCreate,
    /// Leave the form for the main screen.
    BackToMain,
    /// Pick the folder with the file picker.
    ChooseFolder,
    ClearFolder,
    /// Let the form handle the key.
    Form,
}

/// What a key asks for while a deletion waits for confirmation.
#[derive(Debug, PartialEq, Eq)]
pub enum DeletionAction {
    Confirm,
    Cancel,
    Ignore,
}

/// The action of a key on the main screen, and whether the screen must be
/// drawn again (hiding the picker draws nothing).
pub open spec fn main_action(key: PickerKey, searching: bool) -> (MainAction, bool) {
    match key {
        PickerKey::Up => (MainAction::MoveUp, true),
        PickerKey::Down => (MainAction::MoveDown, true),
        PickerKey::Enter => (MainAction::Select, true),
        PickerKey::CtrlEnter => (MainAction::QuickCreate, true),
        PickerKey::Ctrl(c) => if c == 'p' {
            (MainAction::TogglePin, true)
        } else if c == 'd' {
            (MainAction::Kill, true)
        } else if c == 'c' {
            (MainAction::Hide, false)
        } else if c == 'r' {
            (MainAction::Reload, true)
        } else {
            (MainAction::Ignore, false)
        },
        PickerKey::Char(c) => if c != '\n' {
            (MainAction::Search(c), true)
        } else {
            (MainAction::Ignore, false)
        },
        PickerKey::Backspace => (MainAction::EraseSearch, true),
        PickerKey::Esc => if searching {
            (MainAction::ClearSearch, true)
        } else {
            (MainAction::Hide, false)
        },
        PickerKey::Other => (MainAction::Ignore, false),
    }
}

/// The action of a key on the new-session screen; Esc in an empty name
/// field leaves the screen.
pub open spec fn new_session_action(key: PickerKey, entering_name: bool, name_empty: bool) -> NewSessionAction {
    match key {
        PickerKey::Enter => NewSessionAction::Select,
        PickerKey::CtrlEnter => NewSessionAction::QuickCreate,
        PickerKey::Esc => if entering_name && name_empty {
            NewSessionAction::BackToMain
        } else {
            NewSessionAction::Form
        },
        PickerKey::Ctrl(c) => if c == 'f' {
            NewSessionAction::ChooseFolder
        } else if c == 'c' {
            NewSessionAction::ClearFolder
        } else {
            NewSessionAction::Form
        },
        _ => NewSessionAction::Form,
    }
}

/// The action of a key while a deletion waits for confirmation, and whether
/// the screen must be drawn again.
pub open spec fn deletion_action(key: PickerKey) -> (DeletionAction, bool) {
    match key {
        PickerKey::Char(c) => if c == 'y' || c == 'Y' {
            (DeletionAction::Confirm, true)
        } else if c == 'n' || c == 'N' {
            (DeletionAction::Cancel, true)
        } else {
            (DeletionAction::Ignore, false)
        },
        PickerKey::Esc => (DeletionAction::Cancel, true),
        _ => (DeletionAction::Ignore, false),
    }
}

/// The action of a key on the main screen, and whether to draw again.
pub fn main_screen_action(key: PickerKey, searching: bool) -> (r: (MainAction, bool))
    ensures
        r == main_action(key, searching),
{
    match key {
        PickerKey::Up => (MainAction::MoveUp, true),
        PickerKey::Down => (MainAction::MoveDown, true),
        PickerKey::Enter => (MainAction::Select, true),
        PickerKey::CtrlEnter => (MainAction::QuickCreate, true),
        PickerKey::Ctrl(c) => {
            if c == 'p' {
                (MainAction::TogglePin, true)
            } else if c == 'd' {
                (MainAction::Kill, true)
            } else if c == 'c' {
                (MainAction::Hide, false)
            } else if c == 'r' {
                (MainAction::Reload, true)
            } else {
                (MainAction::Ignore, false)
            }
        },
        // Always search the full item list, never the previous results.
        PickerKey::Char(c) => {
            if c != '\n' {
                (MainAction::Search(c), true)
            } else {
                (MainAction::Ignore, false)
            }
        },
        PickerKey::Backspace => (MainAction::EraseSearch, true),
        PickerKey::Esc => {
            if searching {
                (MainAction::ClearSearch, true)
            } else {
                (MainAction::Hide, false)
            }
        },
        PickerKey::Other => (MainAction::Ignore, false),
    }
}

/// The action of a key on the new-session screen.
pub fn new_session_screen_action(key: PickerKey, entering_name: bool, name_empty: bool) -> (r:
    NewSessionAction)
    ensures
        r == new_session_action(key, entering_name, name_empty),
{
    match key {
        // Only leave the screen once a session was actually requested.
        PickerKey::Enter => NewSessionAction::Select,
        PickerKey::CtrlEnter => NewSessionAction::QuickCreate,
        PickerKey::Esc => {
            if entering_name && name_empty {
                NewSessionAction::BackToMain
            } else {
                NewSessionAction::Form
            }
        },
        PickerKey::Ctrl(c) => {
            if c == 'f' {
                NewSessionAction::ChooseFolder
            } else if c == 'c' {
                NewSessionAction::ClearFolder
            } else {
                NewSessionAction::Form
            }
        },
        _ => NewSessionAction::Form,
    }
}

/// The action of a key while a deletion waits for confirmation.
pub fn deletion_confirmation_action(key: PickerKey) -> (r: (DeletionAction, bool))
    ensures
        r == deletion_action(key),
{
    match key {
        PickerKey::Char(c) => {
            if c == 'y' || c == 'Y' {
                (DeletionAction::Confirm, true)
            } else if c == 'n' || c == 'N' {
                (DeletionAction::Cancel, true)
            } else {
                (DeletionAction::Ignore, false)
            }
        },
        PickerKey::Esc => (DeletionAction::Cancel, true),
        _ => (DeletionAction::Ignore, false),
    }
}

/// What a pane report says of the picker's own pane and the tab it is in.
pub struct PickerPane {
    pub is_suppressed: bool,
    pub is_floating: bool,
    pub is_focused: bool,
    pub tab_active: bool,
    pub floating_panes_visible: bool,
}

/// Whether the picker shows, whether it has focus, and whether it just
/// opened (came on screen, or regained focus).
pub struct PickerActivity {
    pub visible: bool,
    pub focused: bool,
    pub opened: bool,
}

/// Whether the picker's pane is on screen: not suppressed, in the active
/// tab, and, when floating, with floating panes shown.
pub open spec fn pane_visible(pane: Option<PickerPane>) -> bool {
    match pane {
        Some(p) => !p.is_suppressed && p.tab_active && (!p.is_floating || p.floating_panes_visible),
        None => false,
    }
}

/// Whether the picker's pane has focus: on screen, focused, and in the layer
/// that takes input.
pub open spec fn pane_focused(pane: Option<PickerPane>) -> bool {
    pane_visible(pane) && match pane {
        Some(p) => p.is_focused && (p.is_floating || !p.floating_panes_visible),
        None => false,
    }
}

/// The picker's activity after a pane report. Restoring a suppressed
/// plugin does not reliably report visibility, so pane and tab reports
/// decide; refocusing counts as opening.
pub fn picker_activity(pane: Option<PickerPane>, was_visible: bool, was_focused: bool) -> (r:
    PickerActivity)
    ensures
        r.visible == pane_visible(pane),
        r.focused == pane_focused(pane),
        r.opened == (pane_visible(pane) && (!was_visible || (pane_focused(pane) && !was_focused))),
{
    let (visible, focused) = match &pane {
        Some(p) => {
            let v = !p.is_suppressed && p.tab_active && (!p.is_floating || p.floating_panes_visible);
            (v, v && p.is_focused && (p.is_floating || !p.floating_panes_visible))
        },
        None => (false, false),
    };
    let opened = visible && (!was_visible || (focused && !was_focused));
    PickerActivity { visible, focused, opened }
}


/// A pane as a pane report lists it.
pub struct PaneEntry {
    pub id: u32,
    pub is_plugin: bool,
    pub is_suppressed: bool,
    pub is_floating: bool,
    pub is_focused: bool,
}

/// A tab as a tab report lists it.
pub struct TabEntry {
    pub position: usize,
    pub active: bool,
    pub floating_panes_visible: bool,
}

/// Where the first plugin pane with id `id` is among `panes`, from `from` on.
pub open spec fn plugin_pane_at(panes: Seq<PaneEntry>, id: u32, from: nat) -> Option<nat>
    decreases panes.len() - from,
{
    if from >= panes.len() {
        None
    } else if panes[from as int].is_plugin && panes[from as int].id == id {
        Some(from)
    } else {
        plugin_pane_at(panes, id, from + 1)
    }
}

/// Where the first tab at `position` is among `tabs`, from `from` on.
pub open spec fn tab_at(tabs: Seq<TabEntry>, position: usize, from: nat) -> Option<nat>
    decreases tabs.len() - from,
{
    if from >= tabs.len() {
        None
    } else if tabs[from as int].position == position {
        Some(from)
    } else {
        tab_at(tabs, position, from + 1)
    }
}

/// The picker's pane as found in the pane groups from the `k`-th on: the
/// first group holding the plugin pane `id` whose position has a tab.
pub open spec fn picker_pane_in(groups: Seq<(usize, Seq<PaneEntry>)>, tabs: Seq<TabEntry>, id: u32, k: nat) -> Option<
    PickerPane,
>
    decreases groups.len() - k,
{
    if k >= groups.len() {
        None
    } else {
        let (position, panes) = groups[k as int];
        match (plugin_pane_at(panes, id, 0), tab_at(tabs, position, 0)) {
            (Some(p), Some(t)) => Some(
                PickerPane {
                    is_suppressed: panes[p as int].is_suppressed,
                    is_floating: panes[p as int].is_floating,
                    is_focused: panes[p as int].is_focused,
                    tab_active: tabs[t as int].active,
                    floating_panes_visible: tabs[t as int].floating_panes_visible,
                },
            ),
            _ => picker_pane_in(groups, tabs, id, k + 1),
        }
    }
}

/// Pane groups as values.
pub open spec fn groups_view(groups: Seq<(usize, Vec<PaneEntry>)>) -> Seq<(usize, Seq<PaneEntry>)> {
    groups.map_values(|g: (usize, Vec<PaneEntry>)| (g.0, g.1@))
}

/// Where the first plugin pane with id `id` is.
fn find_plugin_pane(panes: &[PaneEntry], id: u32) -> (r: Option<usize>)
    ensures
        as_index(r) == plugin_pane_at(panes@, id, 0),
        r matches Some(i) ==> i < panes.len(),
{
    let mut i: usize = 0;
    while i < panes.len()
        invariant
            i <= panes.len(),
            plugin_pane_at(panes@, id, 0) == plugin_pane_at(panes@, id, i as nat),
        decreases panes.len() - i,
    {
        if panes[i].is_plugin && panes[i].id == id {
            return Some(i);
        }
        i = i + 1;
    }
    None
}

/// Where the first tab at `position` is.
fn find_tab(tabs: &[TabEntry], position: usize) -> (r: Option<usize>)
    ensures
        as_index(r) == tab_at(tabs@, position, 0),
        r matches Some(i) ==> i < tabs.len(),
{
    let mut i: usize = 0;
    while i < tabs.len()
        invariant
            i <= tabs.len(),
            tab_at(tabs@, position, 0) == tab_at(tabs@, position, i as nat),
        decreases tabs.len() - i,
    {
        if tabs[i].position == position {
            return Some(i);
        }
        i = i + 1;
    }
    None
}

/// An index read as a spec one.
pub open spec fn as_index(o: Option<usize>) -> Option<nat> {
    match o {
        Some(i) => Some(i as nat),
        None => None,
    }
}

/// The picker's own pane and its tab in a pane report: the first group
/// holding the plugin pane `plugin_id` whose position has a tab.
pub fn find_picker_pane(groups: &[(usize, Vec<PaneEntry>)], tabs: &[TabEntry], plugin_id: u32) -> (r: Option<
    PickerPane,
>)
    ensures
        r == picker_pane_in(groups_view(groups@), tabs@, plugin_id, 0),
{
    let ghost g = groups_view(groups@);
    let mut k: usize = 0;
    while k < groups.len()
        invariant
            k <= groups.len(),
            g == groups_view(groups@),
            picker_pane_in(g, tabs@, plugin_id, 0) == picker_pane_in(g, tabs@, plugin_id, k as nat),
        decreases groups.len() - k,
    {
        let (position, panes) = (&groups[k].0, &groups[k].1);
        assert(g[k as int] == (*position, panes@));
        match (find_plugin_pane(panes.as_slice(), plugin_id), find_tab(tabs, *position)) {
            (Some(p), Some(t)) => {
                return Some(
                    PickerPane {
                        is_suppressed: panes[p].is_suppressed,
                        is_floating: panes[p].is_floating,
                        is_focused: panes[p].is_focused,
                        tab_active: tabs[t].active,
                        floating_panes_visible: tabs[t].floating_panes_visible,
                    },
                );
            },
            _ => {},
        }
        k = k + 1;
    }
    None
}

} // verus!
