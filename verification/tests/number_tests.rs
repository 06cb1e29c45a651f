use rlox::number::Decimal;

fn canonical(text: &str) -> Option<String> {
    Decimal::parse(text).map(|number| String::from(number.as_str()))
}

#[test]
fn numeral_in_canonical_form_is_kept() {
    assert_eq!(canonical("0"), Some(String::from("0")));
    assert_eq!(canonical("123"), Some(String::from("123")));
    assert_eq!(canonical("45.67"), Some(String::from("45.67")));
    assert_eq!(canonical("0.5"), Some(String::from("0.5")));
}

#[test]
fn needless_zeros_are_dropped() {
    assert_eq!(canonical("007"), Some(String::from("7")));
    assert_eq!(canonical("000"), Some(String::from("0")));
    assert_eq!(canonical("1.50"), Some(String::from("1.5")));
    assert_eq!(canonical("1.000"), Some(String::from("1")));
    assert_eq!(canonical("00.00"), Some(String::from("0")));
    assert_eq!(canonical("010.010"), Some(String::from("10.01")));
}

#[test]
fn long_numeral_is_kept_digit_for_digit() {
    assert_eq!(
        canonical("123456789012345678901234567890.5"),
        Some(String::from("123456789012345678901234567890.5"))
    );
}

#[test]
fn what_is_no_numeral_is_refused() {
    for text in ["", ".", "1.", ".5", "1..2", "1.2.3", "-1", "1e5", "12a", " 1", "a"] {
        assert!(Decimal::parse(text).is_none());
    }
}

#[test]
fn clone_keeps_the_numeral() {
    let number = Decimal::parse("3.14").unwrap();
    assert_eq!(number.clone().as_str(), "3.14");
}
