use zsm::new_session_info::{
    CreationRequest, FormKey, LayoutEntry, LayoutKind, NewSessionInfo, SelectionOutcome,
};

fn builtin(name: &str) -> LayoutEntry {
    LayoutEntry { kind: LayoutKind::BuiltIn, name: name.into() }
}

#[test]
fn refresh_preserves_identity_and_discards_removed_search_results() {
    let mut form = NewSessionInfo::default();
    let a = builtin("alpha");
    let b = builtin("beta");
    form.update_layout_list(vec![a.clone(), b.clone()]);
    form.advance_to_layout_selection();
    form.move_selection_down();
    form.update_layout_list(vec![b.clone(), a.clone()]);
    assert_eq!(form.selected_layout_info(), Some(b.clone()));
    form.add_char('b');
    form.update_layout_list(vec![a]);
    assert!(form.selected_layout_info().is_none());
    assert!(form.layouts_to_render(10).is_empty());
    assert!(matches!(form.handle_selection(&None, |_| false), SelectionOutcome::Rejected(_)));
    form.update_layout_list(vec![b.clone()]);
    assert_eq!(form.selected_layout_info(), Some(b));
}

#[test]
fn creation_prepares_a_request_without_resetting_the_form() {
    let mut form = NewSessionInfo::default();
    form.set_name("project");
    form.set_folder(Some("/work/project".into()));
    assert_eq!(form.handle_selection(&None, |_| false), SelectionOutcome::AdvancedToLayout);
    let SelectionOutcome::Create(request) = form.handle_selection(&None, |_| false) else {
        panic!("expected creation request")
    };
    assert_eq!(request.name, "project");
    assert_eq!(request.folder, Some("/work/project".into()));
    assert_eq!(form.name(), "project");
    form.reset_after_creation();
    assert!(form.name().is_empty());
    assert!(form.new_session_folder().is_none());
}

#[test]
fn default_layout_is_explicit_and_missing_layouts_are_reported() {
    let layouts = [builtin("default")];
    let request = CreationRequest::with_default_layout(
        "project".into(),
        Some("/work/project".into()),
        Some("default"),
        &layouts,
    )
    .unwrap();
    assert_eq!(request.layout, Some(layouts[0].clone()));
    assert_eq!(request.folder, Some("/work/project".into()));
    assert!(CreationRequest::with_default_layout("project".into(), None, Some("missing"), &layouts).is_err());
    assert!(request.validate(Some("current"), |_| true).is_err());
    assert!(request.validate(Some("project"), |_| false).is_err());
    assert!(request.validate(Some("current"), |_| false).is_ok());
}

#[test]
fn keys_edit_the_field_that_takes_input() {
    let mut form = NewSessionInfo::default();
    form.handle_key(FormKey::Char('a'));
    form.handle_key(FormKey::Char('b'));
    form.handle_key(FormKey::Backspace);
    assert_eq!(form.name(), "a");
    // Ctrl+r only corrects the name from the layout search.
    form.handle_key(FormKey::CtrlR);
    assert!(form.entering_new_session_name());
    form.advance_to_layout_selection();
    form.handle_key(FormKey::Char('x'));
    assert_eq!(form.layout_search_term(), "x");
    assert_eq!(form.name(), "a");
    form.handle_key(FormKey::Esc);
    assert_eq!(form.layout_search_term(), "");
    assert!(form.entering_layout_search_term());
    form.handle_key(FormKey::Esc);
    assert!(form.entering_new_session_name());
    form.handle_key(FormKey::Esc);
    assert_eq!(form.name(), "");
}

#[test]
fn the_layout_selection_wraps() {
    let mut form = NewSessionInfo::default();
    form.update_layout_list(vec![builtin("a"), builtin("b"), builtin("c")]);
    form.advance_to_layout_selection();
    form.handle_key(FormKey::Up);
    assert_eq!(form.selected_layout_info(), Some(builtin("c")));
    form.handle_key(FormKey::Down);
    assert_eq!(form.selected_layout_info(), Some(builtin("a")));
    let rows = form.layout_list(10);
    assert_eq!(rows.len(), 3);
    assert!(rows[0].1 && !rows[1].1);
}

#[test]
fn a_taken_name_is_rejected_before_the_layout_step() {
    let mut form = NewSessionInfo::default();
    form.set_name("busy");
    assert_eq!(
        form.handle_selection(&None, |name| name == "busy"),
        SelectionOutcome::Rejected("A session with this name already exists")
    );
    assert!(form.entering_new_session_name());
    form.set_name("a/b");
    assert_eq!(
        form.handle_selection(&None, |_| false),
        SelectionOutcome::Rejected("Session name cannot contain '/'")
    );
}

#[test]
fn search_results_put_the_best_match_first() {
    let mut form = NewSessionInfo::default();
    form.update_layout_list(vec![builtin("compact"), builtin("strider"), builtin("default")]);
    form.advance_to_layout_selection();
    form.handle_key(FormKey::Char('d'));
    let rows = form.layouts_to_render(10);
    assert!(!rows.is_empty());
    assert!(rows.iter().all(|(layout, _, _)| layout.name().contains('d')));
    assert!(rows[0].2);
}
