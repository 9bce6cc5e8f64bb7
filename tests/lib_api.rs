use csv_nose::{DatePreference, Quote, SampleSize, Sniffer, Type};

#[test]
fn test_public_api() {
    let _sniffer = Sniffer::new();
    let _sample = SampleSize::Records(100);
    let _date_pref = DatePreference::MdyFormat;
    let _quote = Quote::Char(b'"');
    let _type = Type::Text;
}

#[test]
fn test_sniff_simple_csv() {
    let data = b"a,b,c\n1,2,3\n4,5,6\n";
    let sniffer = Sniffer::new();

    let metadata = sniffer.sniff_bytes(data).unwrap();

    assert_eq!(metadata.dialect.delimiter, b',');
    assert_eq!(metadata.num_fields, 3);
}

#[test]
fn test_builder_pattern() {
    let mut sniffer = Sniffer::new();
    sniffer
        .sample_size(SampleSize::Bytes(4096))
        .date_preference(DatePreference::DmyFormat)
        .delimiter(b';')
        .quote(Quote::NoQuote);
    assert_eq!(sniffer.sample_size, SampleSize::Bytes(4096));
    assert_eq!(sniffer.forced_quote, Some(Quote::NoQuote));
}
