use csvpsql::classify::{classify_with_date_class, find_constraint, find_type};
use csvpsql::column::{ColumnConstraint, ColumnType};

#[test]
fn test_find_type() {
    assert_eq!(find_type("true"), ColumnType::Boolean);
    assert_eq!(find_type("false"), ColumnType::Boolean);
    assert_eq!(find_type("TRUE"), ColumnType::Boolean);
    assert_eq!(find_type("0"), ColumnType::Integer);
    assert_eq!(find_type("0.0"), ColumnType::Numeric);
}

#[test]
fn test_find_constraint() {
    assert_eq!(find_constraint("", ""), ColumnConstraint::Nullable);
    assert_eq!(find_constraint("smth", ""), ColumnConstraint::NotNull);
}

#[test]
fn test_find_type_empty_is_unknown() {
    assert_eq!(find_type(""), ColumnType::Unknown);
}

#[test]
fn test_find_type_boolean_any_case() {
    assert_eq!(find_type("True"), ColumnType::Boolean);
    assert_eq!(find_type("FALSE"), ColumnType::Boolean);
    assert_eq!(find_type("FaLsE"), ColumnType::Boolean);
    assert_eq!(find_type("truth"), ColumnType::Text);
}

#[test]
fn test_find_type_integer_range() {
    assert_eq!(find_type("9223372036854775807"), ColumnType::Integer);
    assert_eq!(find_type("-9223372036854775808"), ColumnType::Integer);
    assert_eq!(find_type("+42"), ColumnType::Integer);
    assert_eq!(find_type("007"), ColumnType::Integer);
    // One past the signed 64-bit range parses only as a number.
    assert_eq!(find_type("9223372036854775808"), ColumnType::Numeric);
    assert_eq!(find_type("-9223372036854775809"), ColumnType::Numeric);
}

#[test]
fn test_find_type_numeric_forms() {
    assert_eq!(find_type("3.14"), ColumnType::Numeric);
    assert_eq!(find_type("-0.5"), ColumnType::Numeric);
    assert_eq!(find_type(".5"), ColumnType::Numeric);
    assert_eq!(find_type("5."), ColumnType::Numeric);
    assert_eq!(find_type("1e5"), ColumnType::Numeric);
    assert_eq!(find_type("1.25E-3"), ColumnType::Numeric);
    assert_eq!(find_type("inf"), ColumnType::Numeric);
    assert_eq!(find_type("NaN"), ColumnType::Numeric);
}

#[test]
fn test_find_type_date_midnight_rule() {
    assert_eq!(find_type("2020-01-01"), ColumnType::Date);
    assert_eq!(find_type("2020-01-01 18:30:04 +02:00"), ColumnType::Timestamp);
    // An explicitly written midnight still counts as a plain date.
    assert_eq!(find_type("2020-01-01 00:00:00"), ColumnType::Date);
    // A partial date fills in from a pinned leap-year anchor, so this
    // parses the same way whatever the current year is.
    assert_eq!(find_type("feb 29"), ColumnType::Date);
}

#[test]
fn test_find_type_text_fallback() {
    assert_eq!(find_type("Paris"), ColumnType::Text);
    assert_eq!(find_type("n/a"), ColumnType::Text);
}

#[test]
fn test_find_type_guards_hostile_clock_text() {
    // Malformed clock readings and oversized numbers stay away from the
    // date parser and classify as text, and the call never fails.
    assert_eq!(find_type("1:2:x"), ColumnType::Text);
    assert_eq!(find_type("99999999999999999999:30"), ColumnType::Text);
    assert_eq!(find_type("10:30 +999999999:59"), ColumnType::Text);
    assert_eq!(find_type("jan-"), ColumnType::Text);
    assert_eq!(find_type("mon feb 0000"), ColumnType::Text);
    // A zero-valued number written with more than two characters reads
    // as year zero; next to a weekday word it stays away from the
    // parser.
    assert_eq!(find_type("Mon 0.0"), ColumnType::Text);
    assert_eq!(find_type("sat 0.00"), ColumnType::Text);
    assert_eq!(find_type("fri 00,0"), ColumnType::Text);
}

#[test]
fn test_find_type_weekday_dates_still_parse() {
    assert_eq!(find_type("Monday Jan 1 2020"), ColumnType::Date);
    assert_eq!(find_type("mon jan 2020"), ColumnType::Date);
}

#[test]
fn test_classify_with_date_class() {
    // The date parser's answer decides only fields that nothing earlier
    // in the priority order claimed.
    assert_eq!(classify_with_date_class("abc", Some(true)), ColumnType::Date);
    assert_eq!(classify_with_date_class("abc", Some(false)), ColumnType::Timestamp);
    assert_eq!(classify_with_date_class("abc", None), ColumnType::Text);
    assert_eq!(classify_with_date_class("5", Some(true)), ColumnType::Integer);
    assert_eq!(classify_with_date_class("", Some(false)), ColumnType::Unknown);
}

#[test]
fn test_find_constraint_sentinel() {
    assert_eq!(find_constraint("NULL", "NULL"), ColumnConstraint::Nullable);
    assert_eq!(find_constraint("null", "NULL"), ColumnConstraint::NotNull);
    assert_eq!(find_constraint("", "NULL"), ColumnConstraint::NotNull);
}
