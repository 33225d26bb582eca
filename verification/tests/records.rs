use zsm::records::{decode, encode};

#[test]
fn values_travel_as_lowercase_hex_and_the_empty_value_as_a_dash() {
    assert_eq!(encode("a/b"), "612f62");
    assert_eq!(encode(""), "-");
    assert_eq!(encode("é"), "c3a9");
}

#[test]
fn decoding_gives_back_what_was_encoded() {
    for value in ["", "zsm", "日本語 '$(touch unwanted)'\nnext", "-", "é"] {
        assert_eq!(decode(&encode(value)), Some(value.to_string()));
    }
}

#[test]
fn malformed_fields_do_not_decode() {
    assert_eq!(decode(""), None);
    assert_eq!(decode("abc"), None);
    assert_eq!(decode("zz"), None);
    assert_eq!(decode("ff"), None);
    assert_eq!(decode("日本"), None);
    assert_eq!(decode("C3A9"), Some("é".to_string()));
}

#[test]
fn a_sign_in_a_pair_reads_as_base_sixteen_would() {
    // u8::from_str_radix accepts a leading '+'.
    assert_eq!(decode("+f"), Some("\u{f}".to_string()));
}
