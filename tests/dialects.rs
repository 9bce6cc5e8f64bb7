use csv_nose::dialects::{
    detect_line_terminator, generate_dialects_with_terminator, generate_potential_dialects,
    normalize_line_endings, LineTerminator,
};
use csv_nose::Quote;

#[test]
fn test_generate_potential_dialects() {
    let dialects = generate_potential_dialects();
    assert_eq!(dialects.len(), 99);
}

#[test]
fn test_detect_line_terminator() {
    assert_eq!(detect_line_terminator(b"a,b\nc,d\n"), LineTerminator::LF);
    assert_eq!(detect_line_terminator(b"a,b\r\nc,d\r\n"), LineTerminator::CRLF);
    assert_eq!(detect_line_terminator(b"a,b\rc,d\r"), LineTerminator::CR);
}

#[test]
fn crlf_pair_counts_once() {
    // Two CRLF against one LF and one CR: CRLF wins, the pairs are not LFs too.
    assert_eq!(detect_line_terminator(b"a\r\nb\r\nc\nd\r"), LineTerminator::CRLF);
    // Ties between LF and CR prefer LF; no terminator at all is LF.
    assert_eq!(detect_line_terminator(b"a\nb\r"), LineTerminator::LF);
    assert_eq!(detect_line_terminator(b"abc"), LineTerminator::LF);
}

#[test]
fn candidates_follow_generation_order() {
    let d = generate_dialects_with_terminator(LineTerminator::LF);
    assert_eq!(d.len(), 33);
    assert_eq!(d[0].delimiter, b',');
    assert_eq!(d[0].quote, Quote::Char(b'"'));
    assert_eq!(d[1].quote, Quote::Char(b'\''));
    assert_eq!(d[2].quote, Quote::NoQuote);
    assert_eq!(d[3].delimiter, b';');
    assert_eq!(d[32].delimiter, b'/');
    assert!(d.iter().all(|x| x.delimiter != b':'));
}

#[test]
fn normalization_maps_terminators() {
    assert_eq!(normalize_line_endings(b"a\r\nb\rc", LineTerminator::CRLF), b"a\nb\rc".to_vec());
    assert_eq!(normalize_line_endings(b"a\rb\r", LineTerminator::CR), b"a\nb\n".to_vec());
    assert_eq!(normalize_line_endings(b"a\r\nb", LineTerminator::LF), b"a\r\nb".to_vec());
    assert_eq!(LineTerminator::CRLF.as_bytes(), vec![b'\r', b'\n']);
    assert_eq!(LineTerminator::CR.as_str(), "\\r");
}
