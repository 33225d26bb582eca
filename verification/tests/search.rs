use zsm::session::types::SessionItem;
use zsm::zoxide::search::{rank_matches, SearchEngine, SearchResult};

fn session(name: &str) -> SessionItem {
    SessionItem::ExistingSession { name: name.into(), directory: String::new(), is_current: false }
}

#[test]
fn pins_sort_before_other_matching_directories_but_after_sessions() {
    let mut search = SearchEngine::default();
    search.update_search(
        "abc".into(),
        &[
            SessionItem::Directory { path: "abc".into(), session_name: "abc".into(), pinned: false },
            SessionItem::Directory {
                path: "/a/long/b/path/c".into(),
                session_name: "c".into(),
                pinned: true,
            },
            session("abc"),
        ],
    );
    assert!(search.results()[0].item.is_session());
    assert!(search.results()[1].item.is_pinned());
    assert!(!search.results()[2].item.is_pinned());
}

#[test]
fn matching_sessions_keep_recency_order_even_with_different_scores() {
    let mut search = SearchEngine::default();
    search.update_search(
        "abc".into(),
        &[
            session("a-long-b-long-c"),
            session("abc"),
            SessionItem::Directory { pinned: false, path: "abc".into(), session_name: "abc".into() },
        ],
    );
    assert_eq!(search.results().len(), 3);
    assert_eq!(search.results()[0].item.session_name(), Some("a-long-b-long-c"));
    assert_eq!(search.results()[1].item.session_name(), Some("abc"));
    assert!(search.results()[2].item.session_name().is_none());
}

#[test]
fn refresh_preserves_selection_and_a_new_query_selects_the_first_match() {
    let mut search = SearchEngine::default();
    search.update_search("a".into(), &[session("alpha"), session("beta")]);
    search.move_selection_down();
    search.update_search("a".into(), &[session("beta"), session("alpha")]);
    assert_eq!(search.selected_item().unwrap().session_name(), Some("beta"));
    search.add_char('l', &[session("beta"), session("alpha")]);
    assert_eq!(search.selected_item().unwrap().session_name(), Some("alpha"));
    search.clear();
    assert!(!search.is_searching());
    assert!(search.results().is_empty());
    assert!(search.selected_item().is_none());
}

#[test]
fn an_empty_term_ends_the_search() {
    let mut search = SearchEngine::default();
    search.add_char('a', &[session("alpha")]);
    assert!(search.is_searching());
    assert_eq!(search.search_term(), "a");
    assert_eq!(search.selected_index(), Some(0));
    search.backspace(&[session("alpha")]);
    assert!(!search.is_searching());
    assert_eq!(search.search_term(), "");
    assert!(search.results().is_empty());
    assert_eq!(search.selected_index(), None);
}

#[test]
fn matched_positions_address_the_drawn_row() {
    let mut search = SearchEngine::default();
    search.update_search("zsm".into(), &[session("zsm")]);
    let result = &search.results()[0];
    // The row reads "○ zsm": the name starts at the third character.
    assert_eq!(result.indices, vec![2, 3, 4]);
}

#[test]
fn selection_wraps_within_the_results() {
    let mut search = SearchEngine::default();
    search.update_search("a".into(), &[session("alpha"), session("beta"), session("gamma")]);
    assert_eq!(search.selected_index(), Some(0));
    search.move_selection_up();
    assert_eq!(search.selected_index(), Some(2));
    search.move_selection_down();
    assert_eq!(search.selected_index(), Some(0));
}

#[test]
fn ranking_puts_sessions_first_then_pinned_then_by_score() {
    let dir = |path: &str, pinned: bool| SessionItem::Directory {
        path: path.into(),
        session_name: path.into(),
        pinned,
    };
    let found = vec![
        SearchResult { item: dir("low", false), score: 1, indices: vec![0] },
        SearchResult { item: session("s1"), score: 1, indices: vec![] },
        SearchResult { item: dir("high", false), score: 9, indices: vec![1] },
        SearchResult { item: dir("pinned", true), score: 0, indices: vec![] },
        SearchResult { item: session("s2"), score: 50, indices: vec![] },
        SearchResult { item: dir("tie", false), score: 1, indices: vec![] },
    ];
    let ranked = rank_matches(&found);
    let order: Vec<String> = ranked
        .iter()
        .map(|r| match &r.item {
            SessionItem::Directory { path, .. } => path.clone(),
            other => other.session_name().unwrap().to_string(),
        })
        .collect();
    assert_eq!(order, ["s1", "s2", "pinned", "high", "low", "tie"]);
    assert_eq!(ranked[3].indices, vec![1]);
}
