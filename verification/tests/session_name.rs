use zsm::session_name::{
    first_free_increment, validate, validate_against_current, validate_for_creation, with_suffix,
    MAX_SESSION_NAME_BYTES,
};

#[test]
fn ordinary_names_are_accepted() {
    assert!(validate("zsm").is_ok());
    assert!(validate("projects.zsm").is_ok());
    // Empty means "let Zellij pick a random name".
    assert!(validate("").is_ok());
    assert!(validate(&"a".repeat(MAX_SESSION_NAME_BYTES - 1)).is_ok());
}

#[test]
fn over_long_names_are_rejected() {
    assert!(validate(&"a".repeat(MAX_SESSION_NAME_BYTES)).is_err());
    assert!(validate(&"a".repeat(MAX_SESSION_NAME_BYTES + 50)).is_err());
}

#[test]
fn names_containing_a_path_separator_are_rejected() {
    assert!(validate("projects/zsm").is_err());
    assert!(validate("/absolute").is_err());
}

/// The byte limit is a byte limit, not a character limit: the socket path
/// is measured in bytes.
#[test]
fn the_length_limit_counts_bytes() {
    let multi_byte = "\u{00e9}".repeat(60); // 120 bytes, 60 characters
    assert_eq!(multi_byte.chars().count(), 60);
    assert!(validate(&multi_byte).is_err());
}

#[test]
fn the_current_session_cannot_be_recreated() {
    assert!(validate_against_current("zsm", Some("zsm")).is_err());
    assert!(validate_against_current("zsm", Some("other")).is_ok());
    assert!(validate_against_current("zsm", None).is_ok());
    // A random name never collides with the current one.
    assert!(validate_against_current("", Some("zsm")).is_ok());
    // The cheaper checks still apply.
    assert!(validate_against_current("a/b", Some("zsm")).is_err());
}

#[test]
fn a_free_base_name_is_used_as_is() {
    assert_eq!(
        first_free_increment("zsm", ".", |_| false),
        Some("zsm".to_string())
    );
}

#[test]
fn taken_names_are_incremented() {
    let taken = ["zsm", "zsm.2", "zsm.3"];
    assert_eq!(
        first_free_increment("zsm", ".", |name| taken.contains(&name)),
        Some("zsm.4".to_string())
    );
    assert_eq!(
        first_free_increment("zsm", "_", |name| name == "zsm"),
        Some("zsm_2".to_string())
    );
}

/// Every increment is checked against resurrectable sessions as well.
#[test]
fn increments_avoid_resurrectable_names_too() {
    let live = ["zsm"];
    let resurrectable = ["zsm.2", "zsm.3"];
    let name = first_free_increment("zsm", ".", |name| {
        live.contains(&name) || resurrectable.contains(&name)
    });
    assert_eq!(name, Some("zsm.4".to_string()));
}

#[test]
fn an_exhausted_series_gives_up_so_the_caller_can_randomise() {
    assert_eq!(first_free_increment("zsm", ".", |_| true), None);
}

#[test]
fn creation_also_refuses_names_that_exist() {
    assert!(validate_for_creation("zsm", None, |_| true).is_err());
    assert!(validate_for_creation("zsm", Some("zsm"), |_| false).is_err());
    assert!(validate_for_creation("", None, |_| true).is_ok());
    assert!(validate_for_creation("zsm", Some("other"), |_| false).is_ok());
}

#[test]
fn a_suffix_is_kept_only_when_the_name_stays_valid() {
    assert_eq!(with_suffix("zsm", ".", "1a2b3c4d"), Some("zsm.1a2b3c4d".to_string()));
    assert_eq!(with_suffix("zsm", "/", "1a2b3c4d"), None);
    assert_eq!(with_suffix(&"a".repeat(110), ".", "x"), None);
}
