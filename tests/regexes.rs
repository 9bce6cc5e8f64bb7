use csv_nose::type_detection::{
    matches_pattern, BOOLEAN_PATTERN, DATETIME_ISO_PATTERN, DATE_EURO_PATTERN, DATE_ISO_PATTERN,
    DATE_US_PATTERN, NULL_PATTERN, UNSIGNED_PATTERN,
};

#[test]
fn test_unsigned_pattern() {
    assert!(matches_pattern(UNSIGNED_PATTERN, "123"));
    assert!(matches_pattern(UNSIGNED_PATTERN, "0"));
    assert!(matches_pattern(UNSIGNED_PATTERN, "+42"));
    assert!(!matches_pattern(UNSIGNED_PATTERN, "-42"));
    assert!(!matches_pattern(UNSIGNED_PATTERN, "12.34"));
}

#[test]
fn test_boolean_pattern() {
    assert!(matches_pattern(BOOLEAN_PATTERN, "true"));
    assert!(matches_pattern(BOOLEAN_PATTERN, "FALSE"));
    assert!(matches_pattern(BOOLEAN_PATTERN, "yes"));
    assert!(matches_pattern(BOOLEAN_PATTERN, "1"));
    assert!(!matches_pattern(BOOLEAN_PATTERN, "maybe"));
}

#[test]
fn test_date_patterns() {
    assert!(matches_pattern(DATE_ISO_PATTERN, "2023-12-31"));
    assert!(matches_pattern(DATE_ISO_PATTERN, "2023/12/31"));
    assert!(matches_pattern(DATE_US_PATTERN, "12/31/2023"));
    assert!(matches_pattern(DATE_EURO_PATTERN, "31.12.2023"));
}

#[test]
fn test_datetime_patterns() {
    assert!(matches_pattern(DATETIME_ISO_PATTERN, "2023-12-31T12:30:45"));
    assert!(matches_pattern(DATETIME_ISO_PATTERN, "2023-12-31 12:30:45"));
    assert!(matches_pattern(DATETIME_ISO_PATTERN, "2023-12-31T12:30:45Z"));
    assert!(matches_pattern(DATETIME_ISO_PATTERN, "2023-12-31T12:30:45+05:30"));
}

#[test]
fn test_null_pattern() {
    assert!(matches_pattern(NULL_PATTERN, "NULL"));
    assert!(matches_pattern(NULL_PATTERN, "null"));
    assert!(matches_pattern(NULL_PATTERN, "NA"));
    assert!(matches_pattern(NULL_PATTERN, "N/A"));
    assert!(matches_pattern(NULL_PATTERN, "-"));
    assert!(matches_pattern(NULL_PATTERN, "NaN"));
}
