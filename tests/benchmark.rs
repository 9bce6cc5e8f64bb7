use csv_nose::benchmark::{
    parse_annotation_line, parse_delimiter, parse_escape, parse_line_terminator, parse_quote,
    sort_by_file_name, BenchmarkResult, FileResult, LineTerminator,
};
use csv_nose::Quote;

#[test]
fn test_parse_delimiter() {
    assert_eq!(parse_delimiter("comma"), b',');
    assert_eq!(parse_delimiter("semicolon"), b';');
    assert_eq!(parse_delimiter("tab"), b'\t');
    assert_eq!(parse_delimiter("space"), b' ');
    assert_eq!(parse_delimiter("vslash"), b'|');
    assert_eq!(parse_delimiter("colon"), b':');
}

#[test]
fn test_parse_quote() {
    assert_eq!(parse_quote("doublequote"), Some(b'"'));
    assert_eq!(parse_quote("singlequote"), Some(b'\''));
    assert_eq!(parse_quote("tilde"), Some(b'~'));
    assert_eq!(parse_quote(""), None);
    assert_eq!(parse_quote("none"), None);
}

#[test]
fn test_parse_line_terminator() {
    assert_eq!(parse_line_terminator("lf"), LineTerminator::Lf);
    assert_eq!(parse_line_terminator("cr"), LineTerminator::Cr);
    assert_eq!(parse_line_terminator("crlf"), LineTerminator::CrLf);
}

#[test]
fn names_ignore_case_and_default() {
    assert_eq!(parse_delimiter("SEMICOLON"), b';');
    assert_eq!(parse_delimiter("Pipe"), b'|');
    assert_eq!(parse_delimiter("unknown"), b',');
    assert_eq!(parse_quote("Double"), Some(b'"'));
    assert_eq!(parse_quote("other"), Some(b'"'));
    assert_eq!(parse_escape("BackSlash"), Some(b'\\'));
    assert_eq!(parse_escape("other"), None);
    assert_eq!(parse_line_terminator("CRLF"), LineTerminator::CrLf);
}

#[test]
fn annotation_lines() {
    assert!(parse_annotation_line("  # comment").is_none());
    assert!(parse_annotation_line("").is_none());
    assert!(parse_annotation_line("file_name|encoding|d|q|e|t").is_none());
    assert!(parse_annotation_line("a.csv|utf-8|comma").is_none());
    let e = parse_annotation_line(" a.csv|utf-8|Semicolon|singlequote|none|CRLF ").unwrap();
    assert_eq!(e.file_name, "a.csv");
    assert_eq!(e.encoding, "utf-8");
    assert_eq!(e.delimiter, b';');
    assert_eq!(e.quote_char, Some(b'\''));
    assert_eq!(e.escape_char, None);
    assert_eq!(e.line_terminator, LineTerminator::CrLf);
}

#[test]
fn tallies() {
    let e = parse_annotation_line("a.csv|utf-8|comma|doublequote|none|lf").unwrap();
    let mut r = BenchmarkResult::new();
    r.record(FileResult::from_detection(&e, Ok((b',', Quote::Char(b'"')))));
    r.record(FileResult::from_detection(&e, Ok((b',', Quote::NoQuote))));
    r.record(FileResult::from_detection(&e, Err("boom".to_string())));
    assert_eq!(r.total, 3);
    assert_eq!(r.passed, 1);
    assert_eq!(r.failed, 1);
    assert_eq!(r.errors, 1);
    assert_eq!(r.delimiter_matches, 2);
    assert_eq!(r.quote_matches, 1);
    assert_eq!(r.file_results[2].error.as_deref(), Some("boom"));
}

#[test]
fn results_sorted_by_file_name() {
    let names = ["b.csv", "a.csv", "B.csv", "ab.csv", "a.csv"];
    let results: Vec<FileResult> = names
        .iter()
        .map(|n| {
            let e = parse_annotation_line(&format!("{n}|utf-8|comma|none|none|lf")).unwrap();
            FileResult::from_detection(&e, Ok((b',', Quote::NoQuote)))
        })
        .collect();
    let sorted = sort_by_file_name(results);
    let got: Vec<&str> = sorted.iter().map(|r| r.file_name.as_str()).collect();
    assert_eq!(got, vec!["B.csv", "a.csv", "a.csv", "ab.csv", "b.csv"]);
}
