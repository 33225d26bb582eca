use zsm::input::{
    deletion_confirmation_action, find_picker_pane, main_screen_action, new_session_screen_action,
    picker_activity, DeletionAction, MainAction, NewSessionAction, PaneEntry, PickerKey, PickerPane, TabEntry,
};

#[test]
fn main_screen_keys() {
    assert_eq!(main_screen_action(PickerKey::Up, false), (MainAction::MoveUp, true));
    assert_eq!(main_screen_action(PickerKey::Char('a'), false), (MainAction::Search('a'), true));
    assert_eq!(main_screen_action(PickerKey::Char('\n'), false), (MainAction::Ignore, false));
    assert_eq!(main_screen_action(PickerKey::Esc, true), (MainAction::ClearSearch, true));
    assert_eq!(main_screen_action(PickerKey::Esc, false), (MainAction::Hide, false));
    assert_eq!(main_screen_action(PickerKey::Ctrl('p'), false), (MainAction::TogglePin, true));
    assert_eq!(main_screen_action(PickerKey::Ctrl('c'), true), (MainAction::Hide, false));
    assert_eq!(main_screen_action(PickerKey::Ctrl('x'), true), (MainAction::Ignore, false));
}

#[test]
fn new_session_keys() {
    assert_eq!(new_session_screen_action(PickerKey::Esc, true, true), NewSessionAction::BackToMain);
    assert_eq!(new_session_screen_action(PickerKey::Esc, true, false), NewSessionAction::Form);
    assert_eq!(new_session_screen_action(PickerKey::Ctrl('f'), false, false), NewSessionAction::ChooseFolder);
    assert_eq!(new_session_screen_action(PickerKey::Ctrl('c'), false, false), NewSessionAction::ClearFolder);
    assert_eq!(new_session_screen_action(PickerKey::Ctrl('r'), false, false), NewSessionAction::Form);
}

#[test]
fn deletion_keys() {
    assert_eq!(deletion_confirmation_action(PickerKey::Char('Y')), (DeletionAction::Confirm, true));
    assert_eq!(deletion_confirmation_action(PickerKey::Esc), (DeletionAction::Cancel, true));
    assert_eq!(deletion_confirmation_action(PickerKey::Char('q')), (DeletionAction::Ignore, false));
}

fn pane(suppressed: bool, focused: bool) -> Option<PickerPane> {
    Some(PickerPane {
        is_suppressed: suppressed,
        is_floating: true,
        is_focused: focused,
        tab_active: true,
        floating_panes_visible: true,
    })
}

#[test]
fn suppressed_panes_are_hidden_and_refocusing_counts_as_opening() {
    let hidden = picker_activity(pane(true, true), true, true);
    assert!(!hidden.visible && !hidden.focused && !hidden.opened);
    let shown = picker_activity(pane(false, false), false, false);
    assert!(shown.visible && !shown.focused && shown.opened);
    let refocused = picker_activity(pane(false, true), true, false);
    assert!(refocused.visible && refocused.focused && refocused.opened);
    let again = picker_activity(pane(false, true), true, true);
    assert!(again.visible && !again.opened);
    assert!(!picker_activity(None, true, true).visible);
}

#[test]
fn the_picker_pane_is_found_in_a_tab_that_is_listed() {
    let pane = |id: u32, is_plugin: bool, focused: bool| PaneEntry {
        id,
        is_plugin,
        is_suppressed: false,
        is_floating: true,
        is_focused: focused,
    };
    let tabs = vec![TabEntry { position: 1, active: true, floating_panes_visible: true }];
    let groups = vec![
        (0usize, vec![pane(7, true, false)]),
        (1usize, vec![pane(7, false, false), pane(7, true, true)]),
    ];
    let found = find_picker_pane(&groups, &tabs, 7).expect("the pane in the listed tab");
    assert!(found.is_focused && found.tab_active && found.floating_panes_visible);
    assert!(find_picker_pane(&groups, &tabs, 8).is_none());
    assert!(find_picker_pane(&groups[..1], &tabs, 7).is_none());
}
