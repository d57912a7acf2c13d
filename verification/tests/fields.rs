use yolo_post::{CsvConverter, FieldValue};

#[test]
fn integer_literals_parse_exactly() {
    assert_eq!(CsvConverter::parse_integer("42"), Some(42));
    assert_eq!(CsvConverter::parse_integer("+7"), Some(7));
    assert_eq!(CsvConverter::parse_integer("-13"), Some(-13));
    assert_eq!(CsvConverter::parse_integer("0"), Some(0));
    assert_eq!(CsvConverter::parse_integer("007"), Some(7));
    assert_eq!(
        CsvConverter::parse_integer("9223372036854775807"),
        Some(i64::MAX)
    );
    assert_eq!(
        CsvConverter::parse_integer("-9223372036854775808"),
        Some(i64::MIN)
    );
}

#[test]
fn out_of_range_or_malformed_integers_are_rejected() {
    assert_eq!(CsvConverter::parse_integer("9223372036854775808"), None);
    assert_eq!(CsvConverter::parse_integer("-9223372036854775809"), None);
    assert_eq!(CsvConverter::parse_integer("99999999999999999999999999"), None);
    assert_eq!(CsvConverter::parse_integer(""), None);
    assert_eq!(CsvConverter::parse_integer("+"), None);
    assert_eq!(CsvConverter::parse_integer("-"), None);
    assert_eq!(CsvConverter::parse_integer("12a"), None);
    assert_eq!(CsvConverter::parse_integer(" 12"), None);
    assert_eq!(CsvConverter::parse_integer("1.5"), None);
    assert_eq!(CsvConverter::parse_integer("--3"), None);
}

#[test]
fn boolean_literals_match_case_insensitively() {
    assert_eq!(CsvConverter::parse_bool("true"), Some(true));
    assert_eq!(CsvConverter::parse_bool("TRUE"), Some(true));
    assert_eq!(CsvConverter::parse_bool("True"), Some(true));
    assert_eq!(CsvConverter::parse_bool("false"), Some(false));
    assert_eq!(CsvConverter::parse_bool("FaLsE"), Some(false));
    assert_eq!(CsvConverter::parse_bool("tru"), None);
    assert_eq!(CsvConverter::parse_bool("truth"), None);
    assert_eq!(CsvConverter::parse_bool(""), None);
}

#[test]
fn sample_records_follow_the_generator_formulas() {
    // Record 1: age 21, city 1, value 110.00, active.
    assert_eq!(CsvConverter::sample_record(1), (21, 1, 11000, true));
    // Record 3: every third record is inactive.
    assert_eq!(CsvConverter::sample_record(3), (23, 3, 13000, false));
    // Record 50: the age cycle wraps back to 20.
    assert_eq!(CsvConverter::sample_record(50), (20, 2, 60000, true));
}

#[test]
fn classification_prefers_integers_then_booleans() {
    assert_eq!(CsvConverter::classify_field("31"), FieldValue::Int(31));
    assert_eq!(CsvConverter::classify_field("-2"), FieldValue::Int(-2));
    assert_eq!(CsvConverter::classify_field("True"), FieldValue::Bool(true));
    assert_eq!(CsvConverter::classify_field("false"), FieldValue::Bool(false));
    // Fractional numbers are not integers here: the converter around this
    // core decides how to render them.
    assert_eq!(CsvConverter::classify_field("3.14"), FieldValue::Text);
    assert_eq!(CsvConverter::classify_field("New York"), FieldValue::Text);
    assert_eq!(CsvConverter::classify_field(""), FieldValue::Text);
}
