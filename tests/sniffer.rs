use csv_nose::sniffer::{calculate_avg_record_len, detect_header, detect_structural_preamble, skip_preamble};
use csv_nose::dialects::{LineTerminator, PotentialDialect};
use csv_nose::table::Table;
use csv_nose::{DatePreference, Quote, SampleSize, Sniffer, SnifferError};

#[test]
fn test_sniffer_builder() {
    let mut sniffer = Sniffer::new();
    sniffer
        .sample_size(SampleSize::Records(50))
        .date_preference(DatePreference::DmyFormat)
        .delimiter(b',');

    assert_eq!(sniffer.sample_size, SampleSize::Records(50));
    assert_eq!(sniffer.date_preference, DatePreference::DmyFormat);
    assert_eq!(sniffer.forced_delimiter, Some(b','));
}

#[test]
fn test_sniff_bytes() {
    let data = b"name,age,city\nAlice,30,NYC\nBob,25,LA\n";
    let sniffer = Sniffer::new();

    let metadata = sniffer.sniff_bytes(data).unwrap();

    assert_eq!(metadata.dialect.delimiter, b',');
    assert!(metadata.dialect.header.has_header_row);
    assert_eq!(metadata.num_fields, 3);
    assert_eq!(metadata.fields, vec!["name", "age", "city"]);
}

#[test]
fn test_sniff_tsv() {
    let data = b"name\tage\tcity\nAlice\t30\tNYC\nBob\t25\tLA\n";
    let sniffer = Sniffer::new();

    let metadata = sniffer.sniff_bytes(data).unwrap();

    assert_eq!(metadata.dialect.delimiter, b'\t');
    assert!(metadata.dialect.header.has_header_row);
}

#[test]
fn test_sniff_semicolon() {
    let data = b"name;age;city\nAlice;30;NYC\nBob;25;LA\n";
    let sniffer = Sniffer::new();

    let metadata = sniffer.sniff_bytes(data).unwrap();

    assert_eq!(metadata.dialect.delimiter, b';');
}

#[test]
fn sniffer_test_sniff_no_header() {
    let data = b"1,2,3\n4,5,6\n7,8,9\n";
    let sniffer = Sniffer::new();

    let metadata = sniffer.sniff_bytes(data).unwrap();

    assert_eq!(metadata.dialect.delimiter, b',');
    assert!(!metadata.dialect.header.has_header_row);
}

#[test]
fn test_sniff_with_quotes() {
    let data = b"\"name\",\"value\"\n\"hello, world\",123\n\"test\",456\n";
    let sniffer = Sniffer::new();

    let metadata = sniffer.sniff_bytes(data).unwrap();

    assert_eq!(metadata.dialect.delimiter, b',');
    assert_eq!(metadata.dialect.quote, Quote::Char(b'"'));
}

#[test]
fn test_sniff_empty() {
    let data = b"";
    let sniffer = Sniffer::new();

    let result = sniffer.sniff_bytes(data);
    assert!(result.is_err());
}

#[test]
fn test_skip_preamble() {
    let data = b"# This is a comment\n# Another comment\nname,age\nAlice,30\n";
    let (preamble_rows, remaining) = skip_preamble(data);
    assert_eq!(preamble_rows, 2);
    assert_eq!(remaining, b"name,age\nAlice,30\n");

    let data = b"name,age\nAlice,30\n";
    let (preamble_rows, remaining) = skip_preamble(data);
    assert_eq!(preamble_rows, 0);
    assert_eq!(remaining, b"name,age\nAlice,30\n");

    let data = b"  # Indented comment\nname,age\n";
    let (preamble_rows, remaining) = skip_preamble(data);
    assert_eq!(preamble_rows, 1);
    assert_eq!(remaining, b"name,age\n");
}

#[test]
fn test_sniff_with_preamble() {
    let data = b"# LimeSurvey export\n# Generated 2024-01-01\nname,age,city\nAlice,30,NYC\nBob,25,LA\n";
    let sniffer = Sniffer::new();

    let metadata = sniffer.sniff_bytes(data).unwrap();

    assert_eq!(metadata.dialect.delimiter, b',');
    assert!(metadata.dialect.header.has_header_row);
    assert_eq!(metadata.num_fields, 3);
}

#[test]
fn test_comment_preamble_propagated() {
    let data = b"# Comment 1\n# Comment 2\nname,age\nAlice,30\nBob,25\n";
    let metadata = Sniffer::new().sniff_bytes(data).unwrap();
    assert_eq!(metadata.dialect.header.num_preamble_rows, 2);
    assert!(metadata.dialect.header.has_header_row);
    assert_eq!(metadata.fields, vec!["name", "age"]);
}

#[test]
fn test_structural_preamble_detection() {
    let data = b"TITLE\nSUB,TITLE\nA,B,C,D,E\n1,2,3,4,5\n2,3,4,5,6\n3,4,5,6,7\n";
    let metadata = Sniffer::new().sniff_bytes(data).unwrap();
    assert_eq!(metadata.dialect.header.num_preamble_rows, 2);
    assert!(metadata.dialect.header.has_header_row);
    assert_eq!(metadata.fields, vec!["A", "B", "C", "D", "E"]);
}

#[test]
fn test_mixed_preamble_detection() {
    let data =
        b"# File header\nMETADATA\nname,age,city\nAlice,30,NYC\nBob,25,LA\nCharlie,35,CHI\n";
    let metadata = Sniffer::new().sniff_bytes(data).unwrap();
    assert_eq!(metadata.dialect.header.num_preamble_rows, 2);
    assert!(metadata.dialect.header.has_header_row);
    assert_eq!(metadata.fields, vec!["name", "age", "city"]);
}

#[test]
fn test_no_preamble() {
    let data = b"a,b,c\n1,2,3\n4,5,6\n";
    let metadata = Sniffer::new().sniff_bytes(data).unwrap();
    assert_eq!(metadata.dialect.header.num_preamble_rows, 0);
}

#[test]
fn test_detect_structural_preamble_function() {
    let mut table = Table::new();
    table.rows = vec![
        vec!["TITLE".to_string()],
        vec!["".to_string(), "".to_string()],
        vec!["A".to_string(), "B".to_string(), "C".to_string()],
        vec!["1".to_string(), "2".to_string(), "3".to_string()],
        vec!["4".to_string(), "5".to_string(), "6".to_string()],
    ];
    table.field_counts = vec![1, 2, 3, 3, 3];
    table.update_modal_field_count();
    assert_eq!(detect_structural_preamble(&table), 2);

    let mut table = Table::new();
    table.rows = vec![
        vec!["A".to_string(), "B".to_string(), "C".to_string()],
        vec!["1".to_string(), "2".to_string(), "3".to_string()],
    ];
    table.field_counts = vec![3, 3];
    table.update_modal_field_count();
    assert_eq!(detect_structural_preamble(&table), 0);

    let mut table = Table::new();
    table.rows = vec![vec!["A".to_string()]];
    table.field_counts = vec![1];
    table.update_modal_field_count();
    assert_eq!(detect_structural_preamble(&table), 0);
}

#[test]
fn test_avg_record_len_calculated_from_data() {
    let short_data = b"a,b\n1,2\n3,4\n";
    let sniffer = Sniffer::new();
    let metadata = sniffer.sniff_bytes(short_data).unwrap();

    assert!(
        metadata.avg_record_len < 100,
        "avg_record_len should be small for short records, got {}",
        metadata.avg_record_len
    );

    let long_data =
        b"very_long_field_name,another_long_field_name\nvalue1,value2\nval3,val4\n";
    let metadata_long = sniffer.sniff_bytes(long_data).unwrap();

    assert!(
        metadata_long.avg_record_len > metadata.avg_record_len,
        "longer fields should have larger avg_record_len: short={}, long={}",
        metadata.avg_record_len,
        metadata_long.avg_record_len
    );
}

fn table_of(rows: Vec<Vec<&str>>) -> Table {
    Table::from_rows(rows.into_iter().map(|r| r.into_iter().map(String::from).collect()).collect())
}

#[test]
fn average_record_length_is_exact() {
    // Rows "a,b" and "1,22": (2 + 1 + 2) and (3 + 1 + 2) bytes.
    let t = table_of(vec![vec!["a", "b"], vec!["1", "22"]]);
    assert_eq!(calculate_avg_record_len(&t), 5);
    assert_eq!(calculate_avg_record_len(&Table::new()), 0);
}

#[test]
fn header_heuristic() {
    let d = PotentialDialect::new(b',', Quote::Char(b'"'), LineTerminator::LF);
    let h = detect_header(&table_of(vec![vec!["name", "age"], vec!["Alice", "30"]]), &d, 4);
    assert!(h.has_header_row);
    assert_eq!(h.num_preamble_rows, 4);
    // Repeated labels and numbers alike: no header.
    let h = detect_header(&table_of(vec![vec!["1", "1"], vec!["2", "3"]]), &d, 0);
    assert!(!h.has_header_row);
    let h = detect_header(&table_of(vec![vec!["name"]]), &d, 0);
    assert!(!h.has_header_row);
}

#[test]
fn structural_preamble_edge() {
    // Field counts [1,2,3,3,3]: rows from index 2 are all at the modal count.
    let t = table_of(vec![vec!["x"], vec!["a", "b"], vec!["1", "2", "3"], vec!["1", "2", "3"], vec!["1", "2", "3"]]);
    assert_eq!(detect_structural_preamble(&t), 2);
}

#[test]
fn comments_only_is_empty_data() {
    let r = Sniffer::new().sniff_bytes(b"# only\n# comments\n");
    assert!(matches!(r, Err(SnifferError::EmptyData)));
    let r = Sniffer::new().sniff_bytes(b"");
    assert!(matches!(r, Err(SnifferError::EmptyData)));
}

#[test]
fn repeated_sniffs_agree() {
    let data = b"x;y;z\n1;2;3\n4;5;6\n7;8;9\n";
    let s = Sniffer::new();
    let a = s.sniff_bytes(data).unwrap();
    let b = s.sniff_bytes(data).unwrap();
    assert_eq!(a.dialect, b.dialect);
    assert_eq!(a.fields, b.fields);
    assert_eq!(a.types, b.types);
    assert_eq!(a.avg_record_len, b.avg_record_len);
}

#[test]
fn sampling_plan() {
    let mut s = Sniffer::new();
    assert_eq!(s.initial_read_size(), Some(102_400));
    s.sample_size(SampleSize::Records(2));
    assert_eq!(s.initial_read_size(), Some(8192));
    assert_eq!(s.additional_read_size(b"a\n", 2), 2048);
    assert_eq!(s.additional_read_size(b"a\n", 3), 0);
    assert_eq!(s.additional_read_size(b"a\nb\n", 4), 0);
    s.sample_size(SampleSize::All);
    assert_eq!(s.initial_read_size(), None);
    s.sample_size(SampleSize::Bytes(50));
    assert_eq!(s.initial_read_size(), Some(50));
}
