use csv_nose::encoding::{detect_and_transcode, has_utf8_bom, skip_bom};
use csv_nose::{detect_encoding, is_utf8};

#[test]
fn encoding_test_utf8_bom() {
    let with_bom = [0xEF, 0xBB, 0xBF, b'a', b'b', b'c'];
    let without_bom = b"abc";

    assert!(has_utf8_bom(&with_bom));
    assert!(!has_utf8_bom(without_bom));

    assert_eq!(skip_bom(&with_bom), b"abc");
    assert_eq!(skip_bom(without_bom), b"abc");
}

#[test]
fn test_detect_encoding() {
    let info = detect_encoding(b"Hello");
    assert!(info.is_utf8);
    assert!(!info.has_bom);

    let with_bom = [0xEF, 0xBB, 0xBF, b'H', b'i'];
    let info = detect_encoding(&with_bom);
    assert!(info.is_utf8);
    assert!(info.has_bom);
}

#[test]
fn utf8_validation() {
    assert!(is_utf8(b"Hello, World!"));
    assert!(is_utf8("こんにちは".as_bytes()));
    assert!(is_utf8(b""));
    assert!(!is_utf8(&[0xFF, 0xFE]));
    assert!(!is_utf8(&[0x80, 0x81, 0x82]));
}

#[test]
fn transcoding() {
    let (out, transcoded) = detect_and_transcode(b"Hello, World!");
    assert_eq!(out, b"Hello, World!".to_vec());
    assert!(!transcoded);
    let utf16le = [0xFF, 0xFE, b'a', 0, b',', 0, b'b', 0];
    let (out, transcoded) = detect_and_transcode(&utf16le);
    assert_eq!(out, b"a,b".to_vec());
    assert!(transcoded);
    // Windows-1251 bytes for a Cyrillic word.
    let cp1251 = [0xcf, 0xf0, 0xe8, 0xe2, 0xe5, 0xf2, 0x2c, 0xec, 0xe8, 0xf0];
    let (out, transcoded) = detect_and_transcode(&cp1251);
    assert!(transcoded);
    assert!(std::str::from_utf8(&out).is_ok());
}

#[test]
fn csv_escaping() {
    assert_eq!(csv_nose::format::escape_csv("plain"), "plain");
    assert_eq!(csv_nose::format::escape_csv("a,b"), "\"a,b\"");
    assert_eq!(csv_nose::format::escape_csv("say \"hi\""), "\"say \"\"hi\"\"\"");
    assert_eq!(csv_nose::format::escape_csv("x\ny"), "\"x\ny\"");
}

#[test]
fn json_escaping() {
    let e = |s: &str| String::from_utf8(csv_nose::format::escape_json(s)).unwrap();
    assert_eq!(e("plain"), "plain");
    assert_eq!(e("a\"b\\c"), "a\\\"b\\\\c");
    assert_eq!(e("x\ny\tz\r"), "x\\ny\\tz\\r");
    assert_eq!(e("\u{1}\u{7f}"), "\\u0001\\u007f");
    assert_eq!(e("\u{85}é"), "\\u0085é");
}

#[test]
fn defaults() {
    assert_eq!(csv_nose::Type::default(), csv_nose::Type::Text);
    assert_eq!(csv_nose::Sniffer::default(), csv_nose::Sniffer::new());
    assert_eq!(csv_nose::Quote::default(), csv_nose::Quote::Char(b'"'));
    assert_eq!(csv_nose::SampleSize::default(), csv_nose::SampleSize::Records(100));
    assert!(csv_nose::table::Table::default().is_empty());
}

#[test]
fn url_detection() {
    assert!(csv_nose::format::is_url("http://x/a.csv"));
    assert!(csv_nose::format::is_url("https://x"));
    assert!(!csv_nose::format::is_url("ftp://x"));
    assert!(!csv_nose::format::is_url("data/http://x"));
}
