use zsm::session::listing::{resurrectable_entry, SessionListing};
use zsm::session::types::Elapsed;

#[test]
fn parses_cli_names_without_splitting_spaces_or_status_text_in_names() {
    let listing = SessionListing::parse(
        "my project [Created 1h 2m ago] (current)\n\
         peer (EXITED - attach to resurrect) [Created 3s ago] \n\
         saved [Created project [Created 5m ago] (EXITED - attach to resurrect)\n",
    )
    .unwrap();
    assert_eq!(
        listing.live,
        [("my project".into(), true), ("peer (EXITED - attach to resurrect)".into(), false)]
    );
    assert_eq!(listing.resurrectable, [("saved [Created project".into(), Elapsed::from_secs(300))]);
}

#[test]
fn rejects_partial_or_unknown_output_instead_of_dropping_sessions() {
    for output in [
        "peer [Created 1s ago]\ntruncated row",
        "peer [Created 1s ago] (unknown)",
        "peer [Created invalid ago] (EXITED - attach to resurrect)",
    ] {
        assert!(SessionListing::parse(output).is_err());
    }
    assert!(SessionListing::parse("").unwrap().live.is_empty());
}

#[test]
fn each_error_names_what_was_wrong() {
    match SessionListing::parse("peer [Created 1s ago]\ntruncated row") {
        Err(message) => assert_eq!(message, "Unrecognized session list row: truncated row"),
        Ok(_) => panic!("a truncated row must fail the listing"),
    }
    match SessionListing::parse("peer [Created 1s ago] (unknown)") {
        Err(message) => assert_eq!(message, "Unrecognized session status:  (unknown)"),
        Ok(_) => panic!("an unknown status must fail the listing"),
    }
    match SessionListing::parse(" [Created 1s ago]") {
        Err(message) => assert_eq!(message, "Session list contained an empty name"),
        Ok(_) => panic!("an empty name must fail the listing"),
    }
    match SessionListing::parse("peer [Created 1s]") {
        Err(message) => assert_eq!(message, "Unrecognized session list row: peer [Created 1s]"),
        Ok(_) => panic!("a row without an age must fail the listing"),
    }
}

#[test]
fn blank_lines_are_skipped_and_status_space_is_trimmed() {
    let listing = SessionListing::parse("\n a [Created 0s ago]  (current)  \r\n\nb [Created 2s ago]\n").unwrap();
    assert_eq!(listing.live, [(" a".into(), true), ("b".into(), false)]);
    assert!(listing.resurrectable.is_empty());
}

#[test]
fn ages_keep_their_fractions() {
    let listing = SessionListing::parse("old [Created 1s 500ms ago] (EXITED - attach to resurrect)").unwrap();
    let age = listing.resurrectable[0].1;
    assert_eq!(age.secs(), 1);
    assert_eq!(age.subsec_nanos(), 500_000_000);
}

#[test]
fn an_age_with_more_digits_than_any_real_age_is_refused_not_read() {
    let row = "old [Created 123456789012s ago] (EXITED - attach to resurrect)";
    assert_eq!(
        SessionListing::parse(row).unwrap_err(),
        "Session age out of range: 123456789012s"
    );
    let listing =
        SessionListing::parse("old [Created 12345678901s ago] (EXITED - attach to resurrect)").unwrap();
    assert_eq!(listing.resurrectable, [("old".to_string(), Elapsed::from_secs(12345678901))]);
}

#[test]
fn a_resurrectable_row_takes_its_age_or_its_error_from_the_reader() {
    let entry = resurrectable_entry("saved".into(), Ok((300, 5))).unwrap();
    assert_eq!(entry.0, "saved");
    assert_eq!((entry.1.secs(), entry.1.subsec_nanos()), (300, 5));
    assert_eq!(resurrectable_entry("saved".into(), Err("bad age".into())).unwrap_err(), "bad age");
}
