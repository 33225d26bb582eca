use zsm::projects::Projects;

#[test]
fn projects_round_trip_and_stale_responses_cannot_restore_unpinned_paths() {
    let path = "/work/日本語 '$(touch unwanted)'\nnext";
    let mut projects = Projects::default();
    let pin = projects.set_pinned(path, true, 10);
    let association = projects.set_directory("project.2", Some(path), 11);
    let unpin = projects.set_pinned(path, false, 12);
    let mut other = Projects::default();
    other.merge(&format!("{unpin}\n{association}\n{pin}"));
    assert!(!other.is_pinned(path));
    assert_eq!(other.directory("project.2"), Some(path));
    assert_eq!(other.pinned_paths().len(), 0);
    let clear = other.set_directory("project.2", None, 13);
    projects.merge(&clear);
    projects.merge(&association);
    assert_eq!(projects.directory("project.2"), None);
    projects.merge("garbage\n2 zz 11\n42 日本語 10");
}

#[test]
fn a_pin_line_is_the_stamp_and_the_hex_of_key_and_value() {
    let mut projects = Projects::default();
    assert_eq!(projects.set_pinned("/a", true, 7), "7 70696e3a2f61 31");
    assert!(projects.is_pinned("/a"));
    // A later write is stamped after the one it replaces, whatever the clock says.
    assert_eq!(projects.set_pinned("/a", false, 3), "8 70696e3a2f61 30");
    assert!(!projects.is_pinned("/a"));
}

#[test]
fn pinned_paths_come_out_in_order() {
    let mut projects = Projects::default();
    projects.set_pinned("/z", true, 1);
    projects.set_pinned("/a", true, 1);
    projects.set_pinned("/m", true, 1);
    projects.set_pinned("/m", false, 2);
    projects.set_directory("s", Some("/q"), 1);
    assert_eq!(projects.pinned_paths(), vec!["/a".to_string(), "/z".to_string()]);
}

#[test]
fn equal_timestamps_are_decided_by_the_encoded_value() {
    let mut a = Projects::default();
    a.merge("5 70696e3a2f61 30\n5 70696e3a2f61 31\n");
    let mut b = Projects::default();
    b.merge("5 70696e3a2f61 31\n5 70696e3a2f61 30\n");
    assert!(a.is_pinned("/a"));
    assert!(b.is_pinned("/a"));
}

#[test]
fn foreign_keys_and_bad_pin_values_are_ignored() {
    let mut projects = Projects::default();
    // key "other:x", and a pin whose value is "2"
    projects.merge("5 6f746865723a78 31\n5 70696e3a2f61 32\n5 70696e3a2f61\n");
    assert!(!projects.is_pinned("/a"));
    assert_eq!(projects.pinned_paths().len(), 0);
}

#[test]
fn a_cleared_association_reads_as_none() {
    let mut projects = Projects::default();
    projects.set_directory("s", Some("/work"), 1);
    assert_eq!(projects.directory("s"), Some("/work"));
    projects.set_directory("s", None, 2);
    assert_eq!(projects.directory("s"), None);
    assert_eq!(projects.directory("unknown"), None);
}

#[test]
fn merging_two_files_in_either_order_or_twice_gives_the_same_store() {
    let mut source = Projects::default();
    let a = format!("{}\n{}", source.set_pinned("/a", true, 5), source.set_directory("s", Some("/a"), 6));
    let b = format!("{}\n{}", source.set_pinned("/a", false, 9), source.set_pinned("/b", true, 2));
    let mut first = Projects::default();
    first.merge(&a);
    first.merge(&b);
    let mut second = Projects::default();
    second.merge(&b);
    second.merge(&a);
    second.merge(&a);
    for projects in [&first, &second] {
        assert!(!projects.is_pinned("/a"));
        assert!(projects.is_pinned("/b"));
        assert_eq!(projects.directory("s"), Some("/a"));
        assert_eq!(projects.pinned_paths(), ["/b"]);
    }
}

#[test]
fn pinning_one_path_leaves_other_pins_and_directories_alone() {
    let mut projects = Projects::default();
    projects.set_pinned("/keep", true, 1);
    projects.set_directory("s", Some("/somewhere"), 2);
    let line = projects.set_pinned("/new", true, 3);
    assert!(projects.is_pinned("/keep"));
    assert_eq!(projects.directory("s"), Some("/somewhere"));
    projects.set_directory("t", None, 4);
    assert!(projects.is_pinned("/new"));
    assert_eq!(projects.directory("s"), Some("/somewhere"));
    let mut older = Projects::default();
    older.merge(&line);
    assert!(older.is_pinned("/new"));
}
