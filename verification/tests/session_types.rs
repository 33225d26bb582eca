use zsm::session::types::{Elapsed, SessionAction, SessionItem};

#[test]
fn session_rows_show_the_marker_and_the_directory_when_there_is_one() {
    let current = SessionItem::ExistingSession {
        name: "zsm".into(),
        directory: "/work/zsm".into(),
        is_current: true,
    };
    assert_eq!(current.display_text(), "\u{25cf} zsm (/work/zsm)");
    let other = SessionItem::ExistingSession { name: "x".into(), directory: String::new(), is_current: false };
    assert_eq!(other.display_text(), "\u{25cb} x");
}

#[test]
fn resurrectable_rows_say_how_old_they_are() {
    let item = SessionItem::ResurrectableSession { name: "old".into(), duration: Elapsed::from_secs(3720) };
    assert_eq!(item.display_text(), "\u{21ba} old (created 1h 2m ago)");
    let fresh = SessionItem::ResurrectableSession { name: "new".into(), duration: Elapsed::from_secs(0) };
    assert_eq!(fresh.display_text(), "\u{21ba} new (created 0s ago)");
}

#[test]
fn directory_rows_are_their_path() {
    let item = SessionItem::Directory { path: "/work/zsm".into(), session_name: "zsm".into(), pinned: true };
    assert_eq!(item.display_text(), "/work/zsm");
    assert!(item.is_pinned());
    assert!(!item.is_session());
    assert!(!item.is_resurrectable_session());
    assert_eq!(item.session_name(), None);
}

#[test]
fn identity_follows_names_and_paths() {
    let live = SessionItem::ExistingSession { name: "a".into(), directory: "/x".into(), is_current: false };
    let dead = SessionItem::ResurrectableSession { name: "a".into(), duration: Elapsed::from_secs(1) };
    let dir = SessionItem::Directory { path: "/x".into(), session_name: "a".into(), pinned: false };
    let moved = SessionItem::Directory { path: "/x".into(), session_name: "b".into(), pinned: true };
    assert!(live.same_identity(&dead));
    assert!(!live.same_identity(&dir));
    assert!(dir.same_identity(&moved));
    assert!(live.is_session());
    assert!(dead.is_resurrectable_session());
    let cloned = live.clone();
    assert_eq!(cloned.display_text(), live.display_text());
}

#[test]
fn elapsed_times_keep_nanoseconds_below_a_second() {
    assert!(Elapsed::from_parts(1, 999_999_999).is_some());
    assert!(Elapsed::from_parts(1, 1_000_000_000).is_none());
    let e = Elapsed::from_parts(3, 5).unwrap();
    assert_eq!((e.secs(), e.subsec_nanos()), (3, 5));
}

#[test]
fn actions_carry_the_session_name() {
    let switch = SessionAction::Switch("a".into());
    let kill = SessionAction::Kill("b".into());
    assert!(matches!(switch, SessionAction::Switch(ref n) if n == "a"));
    assert!(matches!(kill, SessionAction::Kill(ref n) if n == "b"));
}
