use isin::{compute_isin_checksum, validate_isin};

#[test]
fn validate_works() {
    let cases = vec![
        ("foo", false),
        ("US30231G1022", true),
        ("US0378331005", true),
        ("US38259P5089", true),
        ("US0378331006", false),
        ("AU0000XVGZA3", true),
        ("AU0000VXGZA3", true),
        ("RO1718CTN047", true),
        ("RO1418DBN040", true),
        ("RO1617CTNOG6", false),
        ("RO1617CTNOG5", true),
        ("RO1718CTN0C3", true),
        ("GB0002634946", true),
        ("NL0000729408", true),
        ("DE000CM7VX13", true),
    ];

    for (input, expected) in cases {
        assert_eq!(
            validate_isin(input),
            expected,
            "input = {} (expected: {})",
            input,
            expected
        );
    }
}

#[test]
fn compute_works() {
    let cases = vec![
        ("foo", None),
        ("US30231G10227", None),
        ("U330231G1022", None),
        ("US30231G1022", Some((2, 2))),
        ("US0378331005", Some((5, 5))),
        ("US38259P5089", Some((9, 9))),
        ("US0378331006", Some((5, 6))),
        ("AU0000XVGZA3", Some((3, 3))),
        ("AU0000VXGZA3", Some((3, 3))),
        ("RO1718CTN047", Some((7, 7))),
        ("RO1418DBN040", Some((0, 0))),
        ("RO1617CTNOG6", Some((5, 6))),
        ("RO1617CTNOG5", Some((5, 5))),
        ("RO1718CTN0C3", Some((3, 3))),
        ("GB0002634946", Some((6, 6))),
        ("NL0000729408", Some((8, 8))),
        ("DE000CM7VX13", Some((3, 3))),
        ("DE000CM7VX1T", None),
    ];

    for (input, expected) in cases {
        assert_eq!(
            compute_isin_checksum(input),
            expected,
            "input = {:?} (expected: {:?})",
            input,
            expected
        );
    }
}

#[test]
fn rejects_wrong_length() {
    assert_eq!(compute_isin_checksum(""), None);
    assert_eq!(compute_isin_checksum("US38259P508"), None);
    assert_eq!(compute_isin_checksum("US38259P50891"), None);
    assert!(!validate_isin(""));
    assert!(!validate_isin("US38259P508"));
    assert!(!validate_isin("US38259P50891"));
}

#[test]
fn rejects_bad_country_code() {
    assert_eq!(compute_isin_checksum("uS0378331005"), None);
    assert_eq!(compute_isin_checksum("U00378331005"), None);
    assert_eq!(compute_isin_checksum("0S0378331005"), None);
    assert!(!validate_isin("uS0378331005"));
}

#[test]
fn rejects_bad_identifier_char() {
    assert_eq!(compute_isin_checksum("US03783*1005"), None);
    assert_eq!(compute_isin_checksum("US037833100s"), None);
    assert_eq!(compute_isin_checksum("US 378331005"), None);
    assert!(!validate_isin("US03783*1005"));
}

#[test]
fn rejects_bad_check_digit_position() {
    assert_eq!(compute_isin_checksum("DE000CM7VX1T"), None);
    assert_eq!(compute_isin_checksum("US038259P50Z"), None);
    assert!(!validate_isin("US038259P50Z"));
}

#[test]
fn rejects_non_ascii() {
    // 12 characters, but the country code is not A-Z
    assert_eq!(compute_isin_checksum("\u{dc}S0378331005"), None);
    assert!(!validate_isin("\u{dc}S0378331005"));
    // 6 characters that take 12 bytes
    assert_eq!(compute_isin_checksum("\u{c0}\u{c0}\u{c0}\u{c0}\u{c0}\u{c0}"), None);
    assert!(!validate_isin("\u{c0}\u{c0}\u{c0}\u{c0}\u{c0}\u{c0}"));
}

#[test]
fn mismatch_reported_but_not_valid() {
    // well formed, but the supplied digit disagrees with the computed one
    assert_eq!(compute_isin_checksum("US0378331006"), Some((5, 6)));
    assert!(!validate_isin("US0378331006"));
    assert_eq!(compute_isin_checksum("RO1617CTNOG6"), Some((5, 6)));
    assert!(!validate_isin("RO1617CTNOG6"));
}

#[test]
fn all_letters_identifier() {
    // every identifier position a letter: the longest possible expansion
    assert_eq!(compute_isin_checksum("AU0000XVGZA3"), Some((3, 3)));
    assert_eq!(compute_isin_checksum("ZZZZZZZZZZZ6"), Some((6, 6)));
    assert!(validate_isin("ZZZZZZZZZZZ6"));
    assert_eq!(compute_isin_checksum("ZZZZZZZZZZZ5"), Some((6, 5)));
    assert!(!validate_isin("ZZZZZZZZZZZ5"));
}

#[test]
fn all_digits_identifier() {
    // every identifier position a digit: the shortest possible expansion
    assert_eq!(compute_isin_checksum("AA0000000006"), Some((6, 6)));
    assert!(validate_isin("AA0000000006"));
}

#[test]
fn repeated_calls_agree() {
    let inputs = ["US0378331005", "US0378331006", "DE000CM7VX1T", "foo"];
    for input in inputs {
        assert_eq!(compute_isin_checksum(input), compute_isin_checksum(input));
        assert_eq!(validate_isin(input), validate_isin(input));
    }
}
