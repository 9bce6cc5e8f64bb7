use csv_nose::dialects::{LineTerminator, PotentialDialect};
use csv_nose::table::{parse_table, parse_table_normalized, Table};
use csv_nose::Quote;

#[test]
fn test_parse_simple_csv() {
    let data = b"a,b,c\n1,2,3\n4,5,6\n";
    let dialect = PotentialDialect::new(b',', Quote::Char(b'"'), LineTerminator::LF);

    let table = parse_table(data, &dialect, 0);
    assert_eq!(table.num_rows(), 3);
    assert_eq!(table.field_counts, vec![3, 3, 3]);
    assert_eq!(table.rows[0], vec!["a", "b", "c"]);
}

#[test]
fn test_parse_quoted_csv() {
    let data = b"\"a,b\",c,d\n1,2,3\n";
    let dialect = PotentialDialect::new(b',', Quote::Char(b'"'), LineTerminator::LF);

    let table = parse_table(data, &dialect, 0);
    assert_eq!(table.num_rows(), 2);
    assert_eq!(table.rows[0], vec!["a,b", "c", "d"]);
}

#[test]
fn test_modal_field_count() {
    let mut table = Table::new();
    table.field_counts = vec![3, 3, 3, 4, 3];
    table.update_modal_field_count();
    assert_eq!(table.modal_field_count(), 3);
}

#[test]
fn modal_tie_goes_to_larger_count() {
    let mut table = Table::new();
    table.field_counts = vec![3, 3, 4, 4];
    table.update_modal_field_count();
    assert_eq!(table.modal_field_count(), 4);
}

#[test]
fn modal_of_wide_counts_and_empty() {
    let mut table = Table::new();
    table.field_counts = vec![300, 7, 300, 7, 2];
    table.update_modal_field_count();
    assert_eq!(table.modal_field_count(), 300);
    table.field_counts = vec![];
    table.update_modal_field_count();
    assert_eq!(table.modal_field_count(), 0);
    assert!(table.is_empty());
}

#[test]
fn min_max_and_row_limit() {
    let data = b"a,b\n1,2,3\n4\n5,6\n";
    let dialect = PotentialDialect::new(b',', Quote::NoQuote, LineTerminator::LF);
    let table = parse_table_normalized(data, &dialect, 2);
    assert_eq!(table.num_rows(), 2);
    assert_eq!(table.min_field_count(), 2);
    assert_eq!(table.max_field_count(), 3);
    let all = parse_table_normalized(data, &dialect, 0);
    assert_eq!(all.num_rows(), 4);
    assert_eq!(all.field_counts, vec![2, 3, 1, 2]);
}

#[test]
fn crlf_is_normalised_before_parsing() {
    let data = b"a;b\r\n1;2\r\n";
    let dialect = PotentialDialect::new(b';', Quote::Char(b'"'), LineTerminator::CRLF);
    let table = parse_table(data, &dialect, 0);
    assert_eq!(table.rows[1], vec!["1", "2"]);
}
