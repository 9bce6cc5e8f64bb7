use csv_nose::dialects::{LineTerminator, PotentialDialect};
use csv_nose::score::{
    compute_gamma, compute_single_quote_multiplier, delimiter_priority, find_best_dialect,
    quote_evidence_score_with_cached_boundaries, quote_priority, score_dialect, DialectScore,
    QuoteBoundaryCounts, QuoteCounts,
};
use csv_nose::type_detection::Recognizers;
use csv_nose::{Quote, Sniffer, Type};

fn cand(d: u8, q: Quote, gamma: u64, fields: usize) -> DialectScore {
    let mut s = DialectScore::zero(PotentialDialect::new(d, q, LineTerminator::LF));
    s.gamma = gamma;
    s.num_fields = fields;
    s
}

#[test]
fn scenario_header_and_unsigned_columns() {
    let m = Sniffer::new().sniff_bytes(b"a,b,c\n1,2,3\n4,5,6\n").unwrap();
    assert_eq!(m.dialect.delimiter, b',');
    assert_eq!(m.dialect.quote, Quote::Char(b'"'));
    assert!(m.dialect.header.has_header_row);
    assert_eq!(m.num_fields, 3);
    assert_eq!(m.fields, vec!["a", "b", "c"]);
    assert_eq!(m.types, vec![Type::Unsigned, Type::Unsigned, Type::Unsigned]);
}

#[test]
fn scenario_all_numeric_has_no_header() {
    let m = Sniffer::new().sniff_bytes(b"1,2,3\n4,5,6\n7,8,9\n").unwrap();
    assert!(!m.dialect.header.has_header_row);
    assert_eq!(m.fields, vec!["field_1", "field_2", "field_3"]);
}

#[test]
fn scenario_comment_lines_counted() {
    let m = Sniffer::new().sniff_bytes(b"# c1\n# c2\nname,age\nAlice,30\nBob,25\n").unwrap();
    assert_eq!(m.dialect.header.num_preamble_rows, 2);
    assert!(m.dialect.header.has_header_row);
    assert_eq!(m.fields, vec!["name", "age"]);
}

#[test]
fn unambiguous_files_find_their_dialect() {
    let cases: Vec<(&[u8], u8, Quote)> = vec![
        (b"id;name;v\n1;\"a;b\";3\n2;\"c\";4\n3;\"d\";5\n4;\"e\";6\n5;\"f\";7\n", b';', Quote::Char(b'"')),
        (b"id|name|v\n1|x|3\n2|y|4\n3|z|5\n4|w|6\n5|q|7\n", b'|', Quote::Char(b'"')),
        (b"'a','b'\n'1','2'\n'3','4'\n'5','6'\n'7','8'\n", b',', Quote::Char(b'\'')),
    ];
    for (data, d, q) in cases {
        let m = Sniffer::new().sniff_bytes(data).unwrap();
        assert_eq!(m.dialect.delimiter, d);
        assert_eq!(m.dialect.quote, q);
    }
}

#[test]
fn single_field_candidates_fall_back_to_comma_double_quote() {
    let scores = vec![
        cand(b'#', Quote::NoQuote, 900_000, 1),
        cand(b',', Quote::NoQuote, 100_000, 1),
        cand(b',', Quote::Char(b'"'), 50_000, 1),
        cand(b';', Quote::Char(b'"'), 800_000, 1),
    ];
    let best = find_best_dialect(&scores).unwrap();
    assert_eq!(best.dialect.delimiter, b',');
    assert_eq!(best.dialect.quote, Quote::Char(b'"'));
    // A single-field column of values sniffs as comma with double quote.
    let m = Sniffer::new().sniff_bytes(b"value\n100\n200\n300\n").unwrap();
    assert_eq!(m.dialect.delimiter, b',');
    assert_eq!(m.dialect.quote, Quote::Char(b'"'));
}

#[test]
fn near_ties_use_priorities_and_far_gaps_use_gamma() {
    // Within 5%: semicolon loses to comma.
    let s = vec![cand(b';', Quote::Char(b'"'), 1_000_000, 3), cand(b',', Quote::Char(b'"'), 960_000, 3)];
    assert_eq!(find_best_dialect(&s).unwrap().dialect.delimiter, b',');
    // Beyond 5%: gamma decides.
    let s = vec![cand(b';', Quote::Char(b'"'), 1_000_000, 3), cand(b',', Quote::Char(b'"'), 940_000, 3)];
    assert_eq!(find_best_dialect(&s).unwrap().dialect.delimiter, b';');
    // Exact ties go to the earlier candidate.
    let s = vec![cand(b'\t', Quote::NoQuote, 500_000, 2), cand(b'|', Quote::NoQuote, 500_000, 2)];
    assert_eq!(find_best_dialect(&s).unwrap().dialect.delimiter, b'\t');
    // Nothing viable.
    let s = vec![cand(b',', Quote::NoQuote, 0, 2)];
    assert!(find_best_dialect(&s).is_none());
}

#[test]
fn priorities() {
    assert_eq!(delimiter_priority(b','), 10);
    assert_eq!(delimiter_priority(b'|'), 8);
    assert_eq!(delimiter_priority(0xa7), 2);
    assert_eq!(delimiter_priority(b'x'), 0);
    assert_eq!(quote_priority(Quote::Char(b'"')), 3);
    assert_eq!(quote_priority(Quote::NoQuote), 1);
    assert_eq!(quote_priority(Quote::Char(b'`')), 0);
}

#[test]
fn gamma_formula() {
    // Perfect table of 20 rows and 10 fields on a comma:
    // 0.5 + 0.3 + 0.1 + 0.1 + 0.2 = 1.2.
    assert_eq!(compute_gamma(1_000_000, 1_000_000, 1_000_000, 1_000_000, 20, 10, b','), 1_200_000);
    // One field halves it; two rows take 80%; space takes 75%.
    assert_eq!(
        compute_gamma(1_000_000, 1_000_000, 1_000_000, 1_000_000, 2, 1, b' '),
        (500_000 + 300_000 + 100_000 + 10_000) * 50 * 75 * 80 / 1_000_000
    );
    // The hash penalty relaxes for 50 rows of three fields.
    let strict = compute_gamma(1_000_000, 1_000_000, 1_000_000, 1_000_000, 49, 3, b'#');
    let relaxed = compute_gamma(1_000_000, 1_000_000, 1_000_000, 1_000_000, 50, 3, b'#');
    assert_eq!(strict, 1_060_000 * 60 / 100);
    assert_eq!(relaxed, 1_060_000 * 85 / 100);
    assert_eq!(compute_gamma(1_000_000, 1_000_000, 0, 0, 0, 3, b','), 0);
}

#[test]
fn quote_evidence() {
    let data = b"\"a\",\"b\"\n\"c\",\"d\"\n";
    let qc = QuoteCounts::new(data);
    assert_eq!(qc.double, 8);
    let bc = QuoteBoundaryCounts::new(data);
    let dq = PotentialDialect::new(b',', Quote::Char(b'"'), LineTerminator::LF);
    let none = PotentialDialect::new(b',', Quote::NoQuote, LineTerminator::LF);
    assert_eq!(bc.get_boundary_count(b'"', b','), 8);
    assert_eq!(quote_evidence_score_with_cached_boundaries(&qc, &bc, &dq), 22_000);
    assert_eq!(quote_evidence_score_with_cached_boundaries(&qc, &bc, &none), 9_000);
    // Apostrophes only before delimiters give no opening boundary.
    let apostrophes = b"it's, we're, they've\n";
    let bc = QuoteBoundaryCounts::new(apostrophes);
    assert_eq!(bc.get_single_opening_boundary_count(b','), 0);
    let quoted = b"'first','second','third'\n";
    let bc = QuoteBoundaryCounts::new(quoted);
    assert!(bc.get_single_opening_boundary_count(b',') >= 2);
    // Backslash-escaped apostrophes with no boundaries boost single quotes a little.
    let qc = QuoteCounts::new(b"it\\'s fine,next\n");
    assert_eq!(qc.backslash_single, 1);
    assert_eq!(compute_single_quote_multiplier(&qc, 0, 0), 11_000);
}

#[test]
fn corrections_change_gamma() {
    // Leading spaces make the space delimiter produce empty first fields.
    let padded = b"  1 foo\n  2 bar\n  3 baz\n";
    let space = PotentialDialect::new(b' ', Quote::NoQuote, LineTerminator::LF);
    let s = score_dialect(padded, &space, 100);
    let base = DialectScore::new(space, &csv_nose::table::parse_table(padded, &space, 100), &Recognizers::new());
    assert_eq!(s.gamma, base.gamma * (10_000 * 55 / 100) / 10_000);
    // Comma inside "# "-separated first fields is penalised.
    let hashy = b"a # b,c\nd # e,f\ng # h,i\n";
    let comma = PotentialDialect::new(b',', Quote::NoQuote, LineTerminator::LF);
    let s = score_dialect(hashy, &comma, 100);
    let base = DialectScore::new(comma, &csv_nose::table::parse_table(hashy, &comma, 100), &Recognizers::new());
    assert_eq!(s.gamma, base.gamma * 82 / 100);
}

#[test]
fn escaped_apostrophes_outrank_double_quote_density() {
    // 10 double quotes in 1000 bytes, one \' pair, no \" pair, no boundaries.
    let qc = QuoteCounts { double: 10, single: 1, backslash_single: 1, backslash_double: 0, data_len: 1000 };
    assert_eq!(compute_single_quote_multiplier(&qc, 0, 0), 11_000);
    // Without the escaped apostrophe the double-quote density damps it.
    let qc = QuoteCounts { double: 10, single: 1, backslash_single: 0, backslash_double: 0, data_len: 1000 };
    assert_eq!(compute_single_quote_multiplier(&qc, 0, 0), 9_000);
}
