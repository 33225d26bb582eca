use zsm::config::Config;
use zsm::picker::{directory_rows, session_rows, sort_by_visits};
use zsm::projects::Projects;
use zsm::session::types::{Elapsed, SessionItem};
use zsm::session_usage::SessionUsage;

fn names(items: &[SessionItem]) -> Vec<String> {
    items.iter().map(|item| item.session_name().unwrap_or_default().to_string()).collect()
}

#[test]
fn sessions_are_listed_by_last_visit_with_their_associated_directory() {
    let mut projects = Projects::default();
    projects.set_directory("zulu", Some("/work/zulu"), 1);
    let mut usage = SessionUsage::default();
    usage.record("zulu", 20);
    usage.record("alpha", 10);
    let live = vec![("alpha".to_string(), true), ("zulu".to_string(), false), ("beta".to_string(), false)];
    let dead = vec![("zulu".to_string(), Elapsed::from_secs(5)), ("gone".to_string(), Elapsed::from_secs(9))];
    let rows = sort_by_visits(session_rows(&live, &dead, true, &projects), &usage);
    assert_eq!(names(&rows), ["zulu", "alpha", "beta", "gone"]);
    assert_eq!(rows[0].display_text(), "\u{25cb} zulu (/work/zulu)");
    assert!(rows[3].is_resurrectable_session());
    let hidden = session_rows(&live, &dead, false, &projects);
    assert_eq!(names(&hidden), ["alpha", "zulu", "beta"]);
}

#[test]
fn pinned_directories_come_first_and_outlive_zoxide() {
    let mut projects = Projects::default();
    projects.set_pinned("/work/pinned", true, 1);
    projects.set_pinned("/home/user/b", true, 1);
    let zoxide = vec!["/home/user/a".to_string(), "/home/user/b".to_string()];
    let pinned = projects.pinned_paths();
    let rows = directory_rows(&zoxide, &pinned, &projects, &Config::default());
    let texts: Vec<String> = rows.iter().map(|row| row.display_text()).collect();
    assert_eq!(texts, ["/home/user/b", "/work/pinned", "/home/user/a"]);
    assert!(rows[0].is_pinned() && rows[1].is_pinned() && !rows[2].is_pinned());
    match &rows[1] {
        SessionItem::Directory { session_name, .. } => assert_eq!(session_name, "pinned"),
        _ => panic!("expected a directory row"),
    }
}
