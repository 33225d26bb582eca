use zsm::session_usage::{SessionUsage, MAX_SESSIONS};

#[test]
fn visits_sort_newest_first_and_survive_other_instances_and_stale_reads() {
    let mut first = SessionUsage::default();
    let older = first.record("alpha", 10);
    let newer = first.record("zulu", 20);
    let mut second = SessionUsage::default();
    second.merge(&format!("{older}\n{newer}\n"));
    second.record("alpha", 30);
    second.merge(&older);
    let mut names = ["unvisited", "zulu", "alpha", "another"];
    names.sort_by(|a, b| second.compare(a, b));
    assert_eq!(names, ["alpha", "zulu", "another", "unvisited"]);
}

#[test]
fn corrupt_records_are_ignored_and_unusual_names_round_trip() {
    let name = "日本語 '$(touch unwanted)'\nnext";
    let record = SessionUsage::default().record(name, 10);
    let mut usage = SessionUsage::default();
    usage.merge(&format!("garbage\n42 日\n12 zz\n2 ff\n{record}\n"));
    assert_eq!(usage.len(), 1);
    assert_eq!(usage.last_used(name), Some(10));
}

#[test]
fn a_record_line_is_the_timestamp_and_the_hex_of_the_name() {
    let mut usage = SessionUsage::default();
    assert_eq!(usage.record("alpha", 10), "10 616c706861");
    assert_eq!(usage.last_used("alpha"), Some(10));
    assert_eq!(usage.last_used("beta"), None);
}

#[test]
fn merging_a_recorded_line_elsewhere_recreates_the_visit() {
    let line = SessionUsage::default().record("project.2", 1_800_000_000_000_000_000);
    let mut other = SessionUsage::default();
    other.merge(&line);
    assert_eq!(other.last_used("project.2"), Some(1_800_000_000_000_000_000));
    assert_eq!(other.len(), 1);
}

#[test]
fn an_older_visit_never_replaces_a_newer_one() {
    let mut usage = SessionUsage::default();
    usage.record("alpha", 30);
    usage.merge("10 616c706861\n");
    assert_eq!(usage.last_used("alpha"), Some(30));
    usage.merge("40 616c706861\r\n");
    assert_eq!(usage.last_used("alpha"), Some(40));
}

#[test]
fn empty_names_and_lines_without_a_space_are_skipped() {
    let mut usage = SessionUsage::default();
    usage.merge("10 -\n20\n\n30 6161 extra\n");
    assert_eq!(usage.len(), 0);
}

#[test]
fn sessions_without_visits_sort_by_name_after_visited_ones() {
    let mut usage = SessionUsage::default();
    usage.record("b", 5);
    assert_eq!(usage.compare("b", "a"), std::cmp::Ordering::Less);
    assert_eq!(usage.compare("a", "c"), std::cmp::Ordering::Less);
    assert_eq!(usage.compare("c", "a"), std::cmp::Ordering::Greater);
    assert_eq!(usage.compare("a", "a"), std::cmp::Ordering::Equal);
}

#[test]
fn the_history_keeps_only_the_most_recent_sessions() {
    let mut history = String::new();
    for index in 0..(MAX_SESSIONS + 2) {
        history.push_str(&format!("{} {}\n", 1000 + index, zsm::records::encode(&format!("s{index}"))));
    }
    let mut usage = SessionUsage::default();
    usage.merge(&history);
    assert_eq!(usage.len(), MAX_SESSIONS);
    assert_eq!(usage.last_used("s0"), None);
    assert_eq!(usage.last_used("s1"), None);
    assert_eq!(usage.last_used("s2"), Some(1002));
    assert_eq!(usage.last_used(&format!("s{}", MAX_SESSIONS + 1)), Some((1001 + MAX_SESSIONS) as u128));
}

#[test]
fn a_recorded_line_merged_into_an_empty_history_is_that_one_visit() {
    let mut usage = SessionUsage::default();
    usage.record("other", 5);
    let line = usage.record("alpha", 7);
    assert_eq!(usage.last_used("other"), Some(5));
    assert_eq!(usage.last_used("alpha"), Some(7));
    let mut empty = SessionUsage::default();
    empty.merge(&line);
    assert_eq!(empty.len(), 1);
    assert_eq!(empty.last_used("alpha"), Some(7));
}

#[test]
fn histories_merged_in_either_order_or_twice_agree() {
    let a = format!("{}\n{}", SessionUsage::default().record("x", 3), SessionUsage::default().record("y", 9));
    let b = format!("{}\n{}", SessionUsage::default().record("x", 8), SessionUsage::default().record("z", 1));
    let mut first = SessionUsage::default();
    first.merge(&a);
    first.merge(&b);
    let mut second = SessionUsage::default();
    second.merge(&b);
    second.merge(&a);
    second.merge(&a);
    for usage in [&first, &second] {
        assert_eq!(usage.len(), 3);
        assert_eq!(usage.last_used("x"), Some(8));
        assert_eq!(usage.last_used("y"), Some(9));
        assert_eq!(usage.last_used("z"), Some(1));
    }
}
