use perp_settler::parse::parse_fixed;

#[test]
fn parse_plain_numbers() {
    assert_eq!(parse_fixed("0"), Some(0));
    assert_eq!(parse_fixed("123"), Some(123));
    assert_eq!(parse_fixed("1000000000000000000"), Some(1_000_000_000_000_000_000));
    assert_eq!(parse_fixed("007"), Some(7));
}

#[test]
fn parse_negative_numbers() {
    assert_eq!(parse_fixed("-45"), Some(-45));
    assert_eq!(parse_fixed("-0"), Some(0));
}

#[test]
fn parse_rejects_malformed_input() {
    assert_eq!(parse_fixed(""), None);
    assert_eq!(parse_fixed("-"), None);
    assert_eq!(parse_fixed("12a"), None);
    assert_eq!(parse_fixed("+5"), None);
    assert_eq!(parse_fixed(" 5"), None);
    assert_eq!(parse_fixed("1.5"), None);
    assert_eq!(parse_fixed("--3"), None);
}

#[test]
fn parse_range_boundaries() {
    assert_eq!(
        parse_fixed("170141183460469231731687303715884105727"),
        Some(i128::MAX),
    );
    assert_eq!(
        parse_fixed("-170141183460469231731687303715884105728"),
        Some(i128::MIN),
    );
    assert_eq!(parse_fixed("170141183460469231731687303715884105728"), None);
    assert_eq!(parse_fixed("-170141183460469231731687303715884105729"), None);
    assert_eq!(parse_fixed("999999999999999999999999999999999999999999999"), None);
}
