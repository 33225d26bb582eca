use zsm::input::PickerPane;
use zsm::new_session_info::{CreationRequest, LayoutEntry, LayoutKind};
use zsm::projects::Projects;
use zsm::session::manager::LiveSession;
use zsm::session::types::{Elapsed, SessionItem};
use zsm::state::{ActiveScreen, Effect, PluginEvent, PluginState};

fn session(name: &str, current: bool) -> LiveSession {
    LiveSession { name: name.into(), is_current: current, layouts: vec![] }
}

fn names(state: &PluginState) -> Vec<&str> {
    state.combined_items().iter().filter_map(SessionItem::session_name).collect()
}

/// The picker's floating pane, suppressed or focused, in a tab that is
/// active or not, with floating panes shown or not.
fn picker_pane(suppressed: bool, focused: bool, tab_active: bool, floating_visible: bool) -> Option<PickerPane> {
    Some(PickerPane {
        is_suppressed: suppressed,
        is_floating: true,
        is_focused: focused,
        tab_active,
        floating_panes_visible: floating_visible,
    })
}

#[test]
fn suppressed_picker_reopens_without_visible_events() {
    let mut state = PluginState::default();
    // A tab report alone, before any pane report, tells nothing.
    assert!(state.update_pane_activity(picker_pane(false, true, true, true)));
    state.update_session_list(vec![session("alpha", true)], vec![]);
    state.search_engine.update_search("alpha".into(), &state.combined_items);

    // HideSelf suppresses the pane. LaunchOrFocusPlugin adds it back only
    // after broadcasting visibility to the panes that were already there.
    assert!(!state.update_pane_activity(picker_pane(true, false, true, true)));
    assert!(!state.is_visible);
    assert_eq!(state.search_engine.search_term(), "");
    assert!(state.update_pane_activity(picker_pane(false, true, true, true)));
    assert!(state.is_visible); // permits the refresh timer to run again
    assert_eq!(state.search_engine.search_term(), "");
}

#[test]
fn picker_refocus_clears_search_but_repeated_pane_reports_do_not() {
    let mut state = PluginState::default();
    state.update_pane_activity(picker_pane(false, true, true, true));
    state.search_engine.update_search("alpha".into(), &state.combined_items);
    assert!(!state.update_pane_activity(picker_pane(false, true, true, true)));
    assert_eq!(state.search_engine.search_term(), "alpha");
    assert!(!state.update_pane_activity(picker_pane(false, false, true, true)));
    assert!(state.update_pane_activity(picker_pane(false, true, true, true)));
    assert_eq!(state.search_engine.search_term(), "");
}

#[test]
fn hidden_floating_layer_and_inactive_tab_do_not_restart_polling() {
    let mut state = PluginState::default();
    assert!(!state.update_pane_activity(picker_pane(false, true, true, false)));
    assert!(!state.is_visible);
    assert!(!state.update_pane_activity(picker_pane(false, true, false, true)));
    assert!(!state.is_visible);
    assert!(state.update_pane_activity(picker_pane(false, true, true, true)));
    assert!(state.is_visible);
}

#[test]
fn socket_listing_keeps_sessions_missing_metadata_and_removes_exited_peers() {
    let mut state = PluginState::default();
    state.config.show_resurrectable_sessions = true;
    let mut current = session("current", true);
    current.layouts = vec![LayoutEntry { kind: LayoutKind::BuiltIn, name: "default".into() }];
    state.update_session_notification(vec![current]);
    state.update_session_listing("current [Created 2m ago] (current)\npeer [Created 1m ago]\n").unwrap();
    assert_eq!(names(&state), ["current", "peer"]);
    // The API can omit both live sessions or misclassify a peer as dead.
    state.update_session_list(vec![], vec![("peer".into(), Elapsed::from_secs(0))]);
    assert_eq!(names(&state), ["current", "peer"]);
    assert!(state
        .session_manager
        .sessions()
        .iter()
        .all(|session| session.name != "current" || !session.layouts.is_empty()));
    assert!(state.session_manager.resurrectable_sessions().is_empty());
    state
        .update_session_listing(
            "current [Created 2m ago] (current)\npeer [Created 1m ago] (EXITED - attach to resurrect)\n",
        )
        .unwrap();
    assert_eq!(state.session_manager.sessions().len(), 1);
    assert!(state
        .combined_items
        .iter()
        .any(|item| matches!(item, SessionItem::ResurrectableSession { name, .. } if name == "peer")));
    // A subsequent stale metadata snapshot must not resurrect the peer.
    state.update_session_list(vec![session("current", true), session("peer", false)], vec![]);
    assert_eq!(state.session_manager.sessions().len(), 1);
    state.update_session_listing("current [Created 2m ago] (current)\n").unwrap();
    assert_eq!(names(&state), ["current"]);
}

#[test]
fn malformed_cli_output_preserves_the_last_good_list() {
    let mut state = PluginState::default();
    state.update_session_listing("current [Created 1s ago] (current)\npeer [Created 0s ago]\n").unwrap();
    assert!(state.update_session_listing("current [Created 1s ago] (current)\npartial row").is_err());
    assert_eq!(names(&state), ["current", "peer"]);
}

#[test]
fn explicit_associations_survive_naming_changes_and_pins_survive_zoxide_removal() {
    let mut state = PluginState::default();
    state.update_session_list(vec![session("project.2", true), session("guess", false)], vec![]);
    state.update_zoxide_directories(vec!["/work/guess".to_string()]);
    let mut projects = Projects::default();
    let pin = projects.set_pinned("/pinned/project", true, 10);
    let folder = projects.set_directory("project.2", Some("/actual/project"), 11);
    state.project_command_finished(true, &format!("{pin}\n{folder}"), "", None);
    assert!(matches!(
        &state.combined_items[2],
        SessionItem::Directory { path, pinned: true, .. } if path == "/pinned/project"
    ));
    assert!(state.combined_items.iter().any(|item| matches!(item, SessionItem::ExistingSession { name, directory, .. } if name == "project.2" && directory == "/actual/project")));
    assert!(state.combined_items.iter().any(
        |item| matches!(item, SessionItem::ExistingSession { name, directory, .. } if name == "guess" && directory.is_empty())
    ));
    state.update_zoxide_directories(vec![]);
    assert_eq!(state.visible_item_count(), 3);
    let unpin = projects.set_pinned("/pinned/project", false, 12);
    state.project_command_finished(true, &unpin, "", None);
    state.project_command_finished(true, &pin, "", None);
    assert_eq!(state.visible_item_count(), 2);
}

#[test]
fn failed_persistence_keeps_the_creation_form_and_releases_pending_request() {
    let mut state =
        PluginState { projects_loaded: true, active_screen: ActiveScreen::NewSession, ..Default::default() };
    state.new_session_info.set_name("project");
    state.pending_creation = Some((
        "request".into(),
        CreationRequest { name: "project".into(), folder: Some("/work/project".into()), layout: None },
    ));
    state.project_command_finished(false, "", "disk full", Some("request"));
    assert!(state.pending_creation.is_none());
    assert_eq!(state.new_session_info.name(), "project");
    assert_eq!(state.active_screen(), ActiveScreen::NewSession);
    assert!(state.error().unwrap().contains("disk full"));
}

#[test]
fn stale_notifications_cannot_hide_peers_or_restore_removed_sessions() {
    let mut state = PluginState::default();
    state.config.show_resurrectable_sessions = true;
    state.update_session_list(
        vec![session("current", true), session("peer", false)],
        vec![("dead".into(), Elapsed::from_secs(10))],
    );
    state.update_session_notification(vec![session("current", true)]);
    assert_eq!(names(&state), ["current", "dead", "peer"]);

    state.update_session_list(vec![session("current", true)], vec![]);
    state.update_session_notification(vec![session("current", true), session("peer", false)]);
    assert_eq!(names(&state), ["current"]);
}

#[test]
fn sessions_are_visible_without_zoxide_matches_and_live_entries_are_unique() {
    let mut state = PluginState::default();
    state.config.show_resurrectable_sessions = true;
    state.update_zoxide_directories(vec!["/work/project".to_string()]);
    state.update_session_list(
        vec![session("random-name", true), session("old-config-name", false)],
        vec![("random-name".into(), Elapsed::from_secs(0)), ("dead".into(), Elapsed::from_secs(0))],
    );
    assert_eq!(names(&state), ["dead", "old-config-name", "random-name"]);
    assert!(matches!(state.combined_items().last(), Some(SessionItem::Directory { .. })));
}

#[test]
fn reopening_clears_search_results_selection_and_pending_dialogs() {
    let mut state = PluginState::default();
    state.update_session_list(vec![session("alpha", true), session("beta", false)], vec![]);
    state.set_visible(true);
    state.search_engine.update_search("alpha".into(), &state.combined_items);
    state.selected_index = Some(1);
    state.error = Some("old error".into());
    state.session_manager.start_deletion("alpha".into());
    state.set_visible(false);
    // Search must already be gone even if no Visible(true) follows.
    assert_eq!(state.search_engine.search_term(), "");
    state.set_visible(true);
    assert_eq!(state.search_engine.search_term(), "");
    assert!(!state.search_engine.is_searching());
    assert!(state.search_engine.results().is_empty());
    assert_eq!(state.selected_index(), None);
    assert_eq!(state.visible_item_count(), 2);
    assert!(state.error().is_none());
    assert!(state.session_manager.pending_deletion().is_none());
}

#[test]
fn refreshes_and_repeated_visible_events_preserve_an_active_search() {
    let mut state = PluginState::default();
    state.set_visible(true);
    state.update_session_list(vec![session("alpha", true)], vec![]);
    state.search_engine.update_search("beta".into(), &state.combined_items);
    assert_eq!(state.visible_item_count(), 0);
    state.update_session_list(vec![session("alpha", true), session("beta", false)], vec![]);
    state.set_visible(true);
    assert_eq!(state.search_engine.search_term(), "beta");
    assert_eq!(state.visible_item_count(), 1);
    assert_eq!(state.selected_item().unwrap().session_name(), Some("beta"));
}

#[test]
fn recency_refresh_keeps_the_selected_session_and_sessions_before_directories() {
    let mut state = PluginState::default();
    state.update_session_list(vec![session("alpha", true), session("zulu", false)], vec![]);
    state.update_zoxide_directories(vec!["/work/project".to_string()]);
    state.selected_index = Some(1);
    let history = state.session_usage.record("zulu", 20);
    state.update_session_usage(&history);
    assert_eq!(names(&state), ["zulu", "alpha"]);
    assert_eq!(state.selected_index(), Some(0));
    assert_eq!(state.selected_item().unwrap().session_name(), Some("zulu"));
    assert!(matches!(state.combined_items().last(), Some(SessionItem::Directory { .. })));
}

#[test]
fn visibility_changes_preserve_the_new_session_form() {
    let mut state = PluginState { active_screen: ActiveScreen::NewSession, ..Default::default() };
    state.new_session_info.set_name("project");
    state.new_session_info.advance_to_layout_selection();
    state.set_visible(true);
    state.set_visible(false);
    state.set_visible(true);
    assert_eq!(state.active_screen(), ActiveScreen::NewSession);
    assert_eq!(state.new_session_info.name(), "project");
    assert!(state.new_session_info.entering_layout_search_term());
}

#[test]
fn granted_permissions_fetch_everything_and_start_the_timer_while_shown() {
    let mut state = PluginState::default();
    state.set_visible(true);
    let (render, effects) = state.update(PluginEvent::Permissions(true), 5);
    assert!(render);
    assert!(state.permissions_granted);
    assert!(matches!(
        effects.as_slice(),
        [Effect::FetchZoxide, Effect::FetchSessions, Effect::RefreshUsage, Effect::StartTimer]
    ));
    assert!(state.refresh_timer_pending);
}

#[test]
fn denied_permissions_show_why_nothing_is_listed() {
    let mut state = PluginState::default();
    let (render, effects) = state.update(PluginEvent::Permissions(false), 5);
    assert!(render && effects.is_empty());
    assert_eq!(state.error(), Some("RunCommands permission denied - cannot fetch zoxide directories"));
}

#[test]
fn enter_on_a_session_records_the_visit_switches_and_hides() {
    let mut state = PluginState { permissions_granted: true, ..Default::default() };
    state.update_session_list(vec![session("alpha", true), session("beta", false)], vec![]);
    state.selected_index = Some(1);
    let (_, effects) = state.handle_key(zsm::input::PickerKey::Enter, 100);
    match effects.as_slice() {
        [Effect::StoreVisits(records), Effect::Switch(name), Effect::Hide] => {
            assert_eq!(records.len(), 2);
            assert!(records[0].starts_with("100 "));
            assert!(records[1].starts_with("101 "));
            assert_eq!(name, "beta");
        },
        other => panic!("unexpected effects {other:?}"),
    }
    assert!(!state.is_visible);
}

#[test]
fn a_confirmed_deletion_kills_and_then_refetches() {
    let mut state = PluginState { permissions_granted: true, ..Default::default() };
    state.update_session_list(vec![session("alpha", true)], vec![("gone".into(), Elapsed::from_secs(3))]);
    state.session_manager.start_deletion("gone".into());
    let (render, effects) = state.handle_key(zsm::input::PickerKey::Char('y'), 1);
    assert!(render);
    assert!(matches!(effects.as_slice(), [Effect::Kill { name, dead: true }] if name == "gone"));
    assert!(matches!(state.deletion_finished(Ok(())).as_slice(), [Effect::FetchSessions]));
    assert!(state.deletion_finished(Err("busy".into())).is_empty());
    assert_eq!(state.error(), Some("Failed to delete session: busy"));
}

#[test]
fn a_directory_creation_waits_for_its_folder_then_switches() {
    let mut state = PluginState { permissions_granted: true, projects_loaded: true, ..Default::default() };
    state.update_session_list(vec![session("alpha", true)], vec![]);
    state.update_zoxide_directories(vec!["/work/project".to_string()]);
    state.selected_index = Some(1);
    let (_, effects) = state.handle_key(zsm::input::PickerKey::CtrlEnter, 7);
    let id = match effects.as_slice() {
        [Effect::StoreProjects { record: Some(record), creation_id: Some(id) }] => {
            assert!(record.starts_with("7 "));
            id.clone()
        },
        other => panic!("unexpected effects {other:?}"),
    };
    // Keys wait while the folder is being saved.
    assert_eq!(state.handle_key(zsm::input::PickerKey::Down, 8).0, false);
    let mut effects = state.project_command_finished(true, "", "", Some(&id));
    assert!(matches!(effects.as_slice(), [Effect::FetchSessions, Effect::FinishCreation(_)]));
    let request = match effects.pop() {
        Some(Effect::FinishCreation(request)) => request,
        other => panic!("unexpected effect {other:?}"),
    };
    assert_eq!(request.name, "project");
    assert_eq!(request.folder.as_deref(), Some("/work/project"));
    let effects = state.finish_creation(request, 9);
    assert!(matches!(effects.as_slice(), [Effect::StoreVisits(_), Effect::Create(r), Effect::Hide] if r.name == "project"));
}

#[test]
fn only_known_filepicker_requests_set_the_folder() {
    let mut state = PluginState { active_screen: ActiveScreen::NewSession, ..Default::default() };
    let effects = state.handle_key(zsm::input::PickerKey::Ctrl('f'), 1).1;
    let id = match effects.as_slice() {
        [Effect::PickFolder { request_id, folder: None }] => request_id.clone(),
        other => panic!("unexpected effects {other:?}"),
    };
    assert_eq!(id.len(), 36);
    assert!(!state.pipe("filepicker_result", Some("/tmp".into()), Some("other")));
    assert!(!state.pipe("other", Some("/tmp".into()), Some(&id)));
    assert!(state.pipe("filepicker_result", Some("/work".into()), Some(&id)));
    assert_eq!(state.new_session_info.new_session_folder(), Some("/work"));
    assert!(!state.is_valid_request_id(&id));
}
