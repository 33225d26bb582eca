use zsm::zoxide::query::scored_paths;

#[test]
fn each_line_gives_its_score_and_path() {
    let rows = scored_paths("  12.5 /work/project  \n\n3 /home/me/with space\nlonely\n");
    assert_eq!(
        rows,
        vec![
            ("12.5".to_string(), "/work/project".to_string()),
            ("3".to_string(), "/home/me/with space".to_string()),
        ]
    );
}
