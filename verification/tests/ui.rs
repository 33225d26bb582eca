use zsm::session::manager::LiveSession;
use zsm::state::PluginState;
use zsm::ui::renderer::{Overlay, RowRole, ScreenPart};
use zsm::new_session_info::{FormKey, LayoutEntry, LayoutKind, NewSessionInfo};
use zsm::ui::components::{new_session_block, FormPart, LayoutCell};
use zsm::session::types::SessionItem;
use zsm::ui::renderer::PluginRenderer;
use zsm::ui::theme::Theme;

#[test]
fn the_main_area_is_the_whole_pane() {
    assert_eq!(PluginRenderer::calculate_main_size(30, 80), (0, 0, 80, 30));
}

#[test]
fn a_field_shows_label_value_and_hint_when_they_fit() {
    let field = Theme.field_layout("Name:", "zsm", "Enter: Continue", 40);
    assert_eq!(field.text, "Name: zsm Enter: Continue");
    assert_eq!((field.label_end, field.value_start, field.value_end), (5, 6, 9));
}

#[test]
fn a_narrow_field_drops_the_hint_and_keeps_the_value_tail() {
    let field = Theme.field_layout("Folder:", "/home/user/projects/zsm", "Ctrl+f: Choose", 20);
    assert_eq!(field.text, "Folder: ...jects/zsm");
    assert_eq!((field.label_end, field.value_start, field.value_end), (7, 8, 20));
}

#[test]
fn the_search_prompt_shows_a_cursor() {
    let field = Theme.search_prompt_layout("abc", 40);
    assert_eq!(field.text, "Search: abc_");
}

#[test]
fn built_in_layouts_are_marked_when_there_is_room() {
    let row = Theme.layout_row("default", true, &[0, 1], 30).unwrap();
    assert_eq!(row.text, "default (built-in)");
    assert_eq!(row.name_end, 7);
    assert_eq!(row.indices, vec![0, 1]);
    let narrow = Theme.layout_row("default", true, &[], 10).unwrap();
    assert_eq!(narrow.text, "default");
}

#[test]
fn directory_rows_keep_their_tail_and_session_rows_both_ends() {
    let dir = SessionItem::Directory { path: "/home/user/projects/zsm".into(), session_name: "zsm".into(), pinned: false };
    assert_eq!(PluginRenderer::row_text(&dir, 10).unwrap(), "...cts/zsm");
    let session = SessionItem::ExistingSession {
        name: "session".into(),
        directory: "/home/user/projects/zsm".into(),
        is_current: false,
    };
    let row = PluginRenderer::row_text(&session, 20).unwrap();
    assert!(row.starts_with("\u{25cb} session"));
    assert!(row.ends_with("zsm)"));
    assert!(row.contains("..."));
}

#[test]
fn highlights_move_with_the_elision() {
    let dir = SessionItem::Directory { path: "/home/user/projects/zsm".into(), session_name: "zsm".into(), pinned: false };
    // 'z', 's', 'm' sit at the end of the path and of the elided row.
    let moved = PluginRenderer::row_highlights(&dir, &[20, 21, 22, 0], 10).unwrap();
    assert_eq!(moved, vec![7, 8, 9]);
}

#[test]
fn help_text_says_what_the_keys_do() {
    assert_eq!(PluginRenderer::help_text(0, true), "Backspace: Edit search • Esc: Clear search");
    assert_eq!(PluginRenderer::help_text(0, false), "Ctrl+r: reload directories • Esc: Exit");
    assert!(PluginRenderer::help_text(3, false).starts_with("↑/↓: Navigate"));
}

#[test]
fn the_deletion_dialog_is_framed_and_centred() {
    let lines = PluginRenderer::deletion_dialog("a", false, 24);
    assert_eq!(lines.len(), 6);
    assert_eq!(lines[0], format!("┌{}┐", "─".repeat(18)));
    assert_eq!(lines[1], "│Kill session 'a'? │");
    assert_eq!(lines[3], format!("│{}│", " ".repeat(18)));
    assert_eq!(lines[5], format!("└{}┘", "─".repeat(18)));
    let current = PluginRenderer::deletion_dialog("a", true, 24);
    assert!(current[2].contains("This is the session you are in"));
    assert_eq!(PluginRenderer::dialog_origin(0, 0, 24, 20), (2, 7));
}

#[test]
fn the_new_session_form_shows_name_then_folder() {
    let mut form = NewSessionInfo::new();
    form.set_name("work");
    let parts = new_session_block(&form, 20, 80);
    assert_eq!(parts.len(), 2);
    match &parts[0] {
        FormPart::Field { row: 1, field } => assert!(field.text.starts_with("New session name: work_")),
        _ => panic!("the name field comes first"),
    }
    match &parts[1] {
        FormPart::Field { row: 18, field } => assert!(field.text.starts_with("New session folder: <default>")),
        _ => panic!("the folder field comes last"),
    }
}

#[test]
fn the_layout_step_warns_when_the_search_matches_nothing() {
    let mut form = NewSessionInfo::new();
    form.update_layout_list(vec![
        LayoutEntry { kind: LayoutKind::BuiltIn, name: "default".into() },
        LayoutEntry { kind: LayoutKind::File, name: "work".into() },
    ]);
    form.advance_to_layout_selection();
    let parts = new_session_block(&form, 20, 80);
    assert_eq!(parts.len(), 4);
    match &parts[0] {
        FormPart::Field { field, .. } => assert!(field.text.starts_with("New session name: <RANDOM>")),
        _ => panic!("the name field comes first"),
    }
    match &parts[2] {
        FormPart::Layouts { row: 5, height: 12, cells } => {
            assert_eq!(cells.len(), 2);
            assert!(cells[0].1);
            assert!(matches!(&cells[0].0, LayoutCell::Fitted(row) if row.text == "default (built-in)"));
        },
        _ => panic!("the layout table follows the search"),
    }
    form.handle_key(FormKey::Char('x'));
    form.handle_key(FormKey::Char('y'));
    let parts = new_session_block(&form, 20, 80);
    assert!(matches!(&parts[2], FormPart::Warning { row: 5, text } if text == "No matching layouts. Edit or clear the search."));
}

#[test]
fn the_main_screen_lists_rows_around_the_selection() {
    let mut state = PluginState::default();
    state.update_session_list(
        vec![
            LiveSession { name: "alpha".into(), is_current: true, layouts: vec![] },
            LiveSession { name: "beta".into(), is_current: false, layouts: vec![] },
        ],
        vec![],
    );
    state.selected_index = Some(1);
    let parts = PluginRenderer::main_screen(&state, 40, 12);
    assert_eq!(parts.len(), 4);
    assert!(matches!(&parts[0], ScreenPart::Title { row: 0, text } if text == "Zoxide Session Manager"));
    match &parts[2] {
        ScreenPart::Items { row: 4, height: 6, rows } => {
            assert_eq!(rows.len(), 2);
            assert_eq!(rows[0].text, "\u{25cf} alpha");
            assert_eq!(rows[0].role, RowRole::Current);
            assert!(!rows[0].selected);
            assert_eq!(rows[1].role, RowRole::Session);
            assert!(rows[1].selected);
        },
        _ => panic!("the list follows the prompt"),
    }
    assert!(matches!(&parts[3], ScreenPart::Help { row: 11, text } if text.starts_with("↑/↓: Navigate")));
}

#[test]
fn an_empty_main_screen_says_why() {
    let state = PluginState::default();
    let parts = PluginRenderer::main_screen(&state, 40, 12);
    assert!(matches!(&parts[2], ScreenPart::Warning { row: 4, text } if text.starts_with("No zoxide directories found.")));
    assert!(matches!(&parts[3], ScreenPart::Help { text, .. } if text == "Ctrl+r: reload directories • Esc: Exit"));
}

#[test]
fn an_error_shows_over_the_dialog() {
    let mut state = PluginState::default();
    assert!(PluginRenderer::overlay(&state, 80, 20).is_none());
    state.session_manager.start_deletion("work".into());
    match PluginRenderer::overlay(&state, 80, 20) {
        Some(Overlay::Dialog { x, y, lines }) => {
            assert_eq!((x, y), (10, 7));
            assert_eq!(lines.len(), 6);
            assert!(lines[1].contains("Kill session 'work'?"));
        },
        _ => panic!("a pending deletion shows the dialog"),
    }
    state.error = Some("broken".into());
    assert!(matches!(PluginRenderer::overlay(&state, 80, 20), Some(Overlay::Error { row: 10, text }) if text == "broken"));
}
