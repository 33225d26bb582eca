use zsm::config::Config;
use zsm::naming::{
    abbreviate_segment, names_from_parts, normalize_path, session_names, MAX_GENERATED_NAME_LEN,
};
use zsm::session_name;
use zsm::session_name::MAX_SESSION_NAME_BYTES;

fn config(separator: &str, base_paths: &[&str]) -> Config {
    Config {
        session_separator: separator.to_string(),
        base_paths: base_paths.iter().map(|path| path.to_string()).collect(),
        ..Config::default()
    }
}

fn plain() -> Config {
    config(".", &[])
}

#[test]
fn a_unique_basename_names_the_session_on_its_own() {
    let names = session_names(&["/home/user/zsm", "/home/user/other"], &plain());
    assert_eq!(names, vec!["zsm", "other"]);
}

#[test]
fn a_unique_long_basename_is_shortened() {
    let basename = "a".repeat(120);
    let path = format!("/home/user/{basename}");
    let names = session_names(&[&path], &plain());

    assert_eq!(names.len(), 1);
    assert!(names[0].chars().count() <= MAX_GENERATED_NAME_LEN);
    assert!(session_name::validate(&names[0]).is_ok());
}

#[test]
fn clashing_basenames_gain_the_least_context_that_separates_them() {
    let names = session_names(&["/home/user/a/api", "/home/user/b/api"], &plain());
    assert_eq!(names, vec!["a.api", "b.api"]);
}

#[test]
fn context_grows_until_the_names_differ() {
    let names = session_names(&["/x/team/a/api", "/y/team/a/api"], &plain());
    assert_eq!(names, vec!["x.team.a.api", "y.team.a.api"]);
}

#[test]
fn a_directory_inside_another_zoxide_directory_gets_extra_context() {
    let names = session_names(&["/home/user/zsm", "/home/user/zsm/src"], &plain());
    assert_eq!(names[0], "zsm");
    // `src` alone would say nothing about which project it belongs to.
    assert_eq!(names[1], "user.zsm.src");
}

#[test]
fn the_separator_is_configurable() {
    let names = session_names(&["/home/user/a/api", "/home/user/b/api"], &config("_", &[]));
    assert_eq!(names, vec!["a_api", "b_api"]);
}

#[test]
fn base_paths_are_stripped() {
    let cfg = config(".", &["/home/user"]);
    assert_eq!(normalize_path("/home/user/projects/zsm", &cfg), "projects/zsm");

    let names = session_names(&["/home/user/zsm", "/home/user/zsm/src"], &cfg);
    assert_eq!(names[0], "zsm");
    assert_eq!(names[1], "zsm.src");
}

#[test]
fn the_longest_matching_base_path_wins() {
    let cfg = config(".", &["/home/user", "/home/user/projects"]);
    let names = session_names(&["/home/user/projects/a/api", "/home/user/b/api"], &cfg);
    assert_eq!(names, vec!["a.api", "b.api"]);
}

#[test]
fn a_path_equal_to_a_base_path_keeps_its_full_form() {
    let cfg = config(".", &["/home/user"]);
    // Stripping it would leave nothing to name the session after.
    assert_eq!(session_names(&["/home/user"], &cfg), vec!["user"]);
}

#[test]
fn base_paths_only_match_on_a_component_boundary() {
    let cfg = config(".", &["/home/user"]);
    // /home/username must not be treated as living under /home/user.
    assert_eq!(normalize_path("/home/username/a", &cfg), "/home/username/a");
    assert_eq!(normalize_path("/home/user/a", &cfg), "a");
    // A path that *is* the base path keeps its full form.
    assert_eq!(normalize_path("/home/user", &cfg), "/home/user");
}

#[test]
fn the_longest_base_path_is_the_one_stripped() {
    let cfg = config(".", &["/home/user", "/home/user/projects"]);
    assert_eq!(normalize_path("/home/user/projects/zsm", &cfg), "zsm");
    assert_eq!(normalize_path("/home/user/other/zsm", &cfg), "other/zsm");
    // Declaration order must not matter.
    let reversed = config(".", &["/home/user/projects", "/home/user"]);
    assert_eq!(normalize_path("/home/user/projects/zsm", &reversed), "zsm");
}

#[test]
fn paths_outside_every_base_path_are_left_alone() {
    let cfg = config(".", &["/home/user"]);
    assert_eq!(normalize_path("/opt/tools", &cfg), "/opt/tools");
    assert_eq!(normalize_path("/opt/tools", &plain()), "/opt/tools");
}

#[test]
fn trailing_slashes_in_base_paths_are_ignored() {
    let cfg = config(".", &["/home/user/"]);
    assert_eq!(session_names(&["/home/user/zsm"], &cfg), vec!["zsm"]);
}

#[test]
fn the_filesystem_root_is_named_rather_than_left_blank() {
    // The basename of "/" is empty, and an empty session name is one that
    // Zellij cannot use.
    assert_eq!(session_names(&["/"], &plain()), vec!["root"]);
}

#[test]
fn long_names_are_abbreviated_within_the_budget() {
    let names = session_names(&["/home/developer/workspace/lobster-watcher/services/api"], &plain());
    assert!(names[0].chars().count() <= MAX_GENERATED_NAME_LEN, "{} is too long", names[0]);
    assert!(!names[0].is_empty());
}

#[test]
fn hyphenated_segments_abbreviate_to_initials() {
    assert_eq!(abbreviate_segment("lobster-watcher"), "l-w");
    assert_eq!(abbreviate_segment("my_cool_project"), "m-c-p");
    assert_eq!(abbreviate_segment("api"), "api");
    assert_eq!(abbreviate_segment("services"), "ser");
    // No letters after the first character, so fall back to the second.
    assert_eq!(abbreviate_segment("v1234"), "v1");
}

/// Shortening must cut on character boundaries: a budget landing inside a
/// multi-byte character must neither panic nor break the byte limit.
#[test]
fn multi_byte_paths_do_not_panic_and_stay_inside_the_hard_limit() {
    let paths = [
        "/home/\u{043f}\u{043e}\u{043b}\u{044c}\u{0437}\u{043e}\u{0432}\u{0430}\u{0442}\u{0435}\u{043b}\u{044c}/\u{043f}\u{0440}\u{043e}\u{0435}\u{043a}\u{0442}\u{044b}/\u{0441}\u{0430}\u{0439}\u{0442}",
        "/Users/fester/\u{6587}\u{66f8}/\u{30d7}\u{30ed}\u{30b8}\u{30a7}\u{30af}\u{30c8}/\u{8a2d}\u{5b9a}",
        "/home/u/\u{1f680}\u{1f680}\u{1f680}\u{1f680}\u{1f680}\u{1f680}\u{1f680}\u{1f680}\u{1f680}\u{1f680}/app",
        "/\u{1f4a9}",
        "/home/u/a\u{0301}\u{0301}\u{0301}\u{0301}\u{0301}\u{0301}\u{0301}\u{0301}\u{0301}\u{0301}\u{0301}\u{0301}\u{0301}\u{0301}\u{0301}/very-long-name-here/deeper",
    ];

    for name in session_names(&paths, &plain()) {
        assert!(name.len() <= MAX_SESSION_NAME_BYTES, "{name:?} too many bytes");
        assert!(session_name::validate(&name).is_ok(), "{name:?} invalid");
    }
}

/// Every generated name has to be usable, or selecting the directory fails
/// at the point of creating the session.
#[test]
fn every_generated_name_is_valid() {
    let paths = [
        "/",
        "/home",
        "/home/user",
        "/home/user/projects/zsm",
        "/home/user/projects/zsm/src/ui",
        "/home/user/projects/another-project-with-a-very-long-name/src",
        "/home/user/projects/another-project-with-a-very-long-name/src/deeply/nested/thing",
        "relative/path",
        "/home/user/a/api",
        "/home/user/b/api",
    ];

    for cfg in [plain(), config("_", &["/home/user"]), config("-", &["/"])] {
        for name in session_names(&paths, &cfg) {
            assert!(session_name::validate(&name).is_ok(), "{name:?} invalid");
            assert!(!name.is_empty(), "empty name for {cfg:?}");
            assert!(name.chars().count() <= MAX_GENERATED_NAME_LEN, "{name:?} over the budget");
        }
    }
}

#[test]
fn names_are_generated_in_input_order() {
    let paths = ["/z/api", "/a/api", "/m/other"];
    assert_eq!(session_names(&paths, &plain()), vec!["z.api", "a.api", "other"]);
}

#[test]
fn duplicate_paths_do_not_look_nested_in_each_other() {
    // Both normalise to the same string; neither is a strict ancestor.
    let cfg = config(".", &["/a", "/b"]);
    let names = session_names(&["/a/x", "/b/x"], &cfg);
    assert_eq!(names.len(), 2);
    for name in &names {
        assert!(!name.is_empty());
    }
}

#[test]
fn an_empty_directory_list_produces_no_names() {
    assert!(session_names(&[], &plain()).is_empty());
}

#[test]
fn generated_names_never_hold_a_path_separator() {
    let paths = ["/home/user/a-b/c_d", "/x/y/z", "/"];
    for name in session_names(&paths, &plain()) {
        assert!(!name.contains('/'), "{name:?}");
        assert!(name.chars().count() <= MAX_GENERATED_NAME_LEN);
    }
}

#[test]
fn a_segment_of_exactly_the_socket_limit_is_cut_below_it() {
    let segment: String = std::iter::repeat('\u{1f680}').take(27).collect();
    assert_eq!(segment.len(), MAX_SESSION_NAME_BYTES);
    let names = session_names(&[segment.as_str()], &plain());
    assert_eq!(names[0].len(), MAX_SESSION_NAME_BYTES - 4);
    assert!(session_name::validate(&names[0]).is_ok());
}

#[test]
fn names_come_from_the_given_basenames_and_ancestors() {
    let paths = ["/work/app", "/play/app", "/work/app/src"];
    let basenames: Vec<String> = vec!["app".into(), "app".into(), "src".into()];
    let lists: Vec<Vec<String>> = vec![
        vec!["/work/app".into(), "/work".into(), "/".into()],
        vec!["/play/app".into(), "/play".into(), "/".into()],
        vec!["/work/app/src".into(), "/work/app".into(), "/work".into(), "/".into()],
    ];
    let names = names_from_parts(&paths, &basenames, &lists, &plain());
    assert_eq!(names, ["work.app", "play.app", "work.app.src"]);
    assert_eq!(names, session_names(&paths, &plain()));
    // Told that the paths share no basename, each is named on its own.
    let distinct: Vec<String> = vec!["a".into(), "b".into(), "c".into()];
    let alone: Vec<Vec<String>> = paths.iter().map(|p| vec![p.to_string()]).collect();
    assert_eq!(names_from_parts(&paths, &distinct, &alone, &plain()), ["app", "app", "src"]);
}

#[test]
fn reordering_the_paths_reorders_their_names() {
    let paths = ["/home/user/a/api", "/home/user/b/api", "/home/user/a", "/srv/zsm"];
    let names = session_names(&paths, &plain());
    let reordered = [paths[3], paths[1], paths[0], paths[2]];
    let again = session_names(&reordered, &plain());
    assert_eq!(again, [names[3].clone(), names[1].clone(), names[0].clone(), names[2].clone()]);
}
