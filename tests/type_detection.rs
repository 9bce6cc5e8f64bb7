use csv_nose::table::Table;
use csv_nose::type_detection::{
    calculate_pattern_score, calculate_type_score, detect_cell_type, get_pattern_categories,
    infer_column_types,
    is_boolean, is_null_value, is_signed_int, is_unsigned_int, pattern_specificity_score,
};
use csv_nose::Type;

fn table_of(rows: Vec<Vec<&str>>) -> Table {
    Table::from_rows(rows.into_iter().map(|r| r.into_iter().map(String::from).collect()).collect())
}

#[test]
fn test_detect_cell_type() {
    assert_eq!(detect_cell_type("123"), Type::Unsigned);
    assert_eq!(detect_cell_type("-123"), Type::Signed);
    assert_eq!(detect_cell_type("12.34"), Type::Float);
    assert_eq!(detect_cell_type("true"), Type::Boolean);
    assert_eq!(detect_cell_type("2023-12-31"), Type::Date);
    assert_eq!(detect_cell_type("2023-12-31T12:30:45"), Type::DateTime);
    assert_eq!(detect_cell_type("hello"), Type::Text);
    assert_eq!(detect_cell_type(""), Type::NULL);
    assert_eq!(detect_cell_type("NULL"), Type::NULL);
}

#[test]
fn test_infer_column_types() {
    let mut table = Table::new();
    table.rows = vec![
        vec!["1".to_string(), "hello".to_string(), "2023-01-01".to_string()],
        vec!["2".to_string(), "world".to_string(), "2023-01-02".to_string()],
        vec!["3".to_string(), "test".to_string(), "2023-01-03".to_string()],
    ];
    table.field_counts = vec![3, 3, 3];
    table.update_modal_field_count();

    let types = infer_column_types(&table);
    assert_eq!(types, vec![Type::Unsigned, Type::Text, Type::Date]);
}

#[test]
fn cell_classification_edges() {
    // Integers are tried before booleans: 1 and 0 are numbers.
    assert_eq!(detect_cell_type("1"), Type::Unsigned);
    assert_eq!(detect_cell_type("0"), Type::Unsigned);
    assert_eq!(detect_cell_type("  +7  "), Type::Unsigned);
    assert_eq!(detect_cell_type("1234567890123456789"), Type::Unsigned);
    // Twenty digits are no longer an integer but still a float pattern without a mark.
    assert_eq!(detect_cell_type("12345678901234567890"), Type::Float);
    assert_eq!(detect_cell_type("1,234.5"), Type::Float);
    assert_eq!(detect_cell_type("1e5"), Type::Float);
    assert_eq!(detect_cell_type("Yes"), Type::Boolean);
    assert_eq!(detect_cell_type("n/A"), Type::NULL);
    assert_eq!(detect_cell_type("#div/0!"), Type::NULL);
    assert_eq!(detect_cell_type("12/31/2023 10:00 PM"), Type::DateTime);
    assert_eq!(detect_cell_type("31.12.2023"), Type::Date);
    assert!(is_null_value(b"NaN"));
    assert!(!is_null_value(b"nana"));
    assert!(is_boolean(b"OFF"));
    assert!(is_unsigned_int(b"+12"));
    assert!(!is_unsigned_int(b"+"));
    assert!(is_signed_int(b"-5"));
    assert!(!is_signed_int(b"5"));
}

#[test]
fn type_score_of_consistent_and_mixed_columns() {
    let uniform = table_of(vec![vec!["1", "a"], vec!["2", "b"], vec!["3", "c"]]);
    assert_eq!(calculate_type_score(&uniform), 1_000_000);
    // First column: two Unsigned, one Text -> 2/3; second: all NULL -> 1/2.
    let mixed = table_of(vec![vec!["1", ""], vec!["x", "NULL"], vec!["3", "-"]]);
    assert_eq!(calculate_type_score(&mixed), (666_666 + 500_000) / 2);
}

#[test]
fn pattern_weights() {
    assert_eq!(pattern_specificity_score(""), 0);
    assert_eq!(pattern_specificity_score("true"), 10);
    assert_eq!(pattern_specificity_score("1,5"), 9);
    assert_eq!(pattern_specificity_score("12:30"), 8);
    assert_eq!(pattern_specificity_score("a@b.org"), 8);
    assert_eq!(pattern_specificity_score("abc_1"), 3);
    assert_eq!(pattern_specificity_score("hello world"), 1);
    let t = table_of(vec![vec!["true", "hello world"]]);
    assert_eq!(calculate_pattern_score(&t), 550_000);
}

#[test]
fn pattern_categories_in_order() {
    let cats = get_pattern_categories();
    assert_eq!(cats.len(), 21);
    assert_eq!(cats[0].category, "empty");
    assert_eq!(cats[0].weight, 0);
    assert_eq!(cats[20].category, "alphanum");
    assert_eq!(cats[20].weight, 3);
}
