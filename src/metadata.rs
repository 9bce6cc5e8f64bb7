use vstd::prelude::*;

use crate::bytes::{COMMA, DOUBLE_QUOTE};
use crate::field_type::Type;

verus! {

/// Quoting configuration of a dialect.
#[derive(Debug, Clone, Copy, PartialEq, Eq, Structural, Hash)]
pub enum Quote {
    /// Quoting disabled.
    NoQuote,
    /// Quoting with this byte.
    Char(u8),
}

impl Default for Quote {
    fn default() -> (r: Quote)
        ensures
            r == Quote::Char(DOUBLE_QUOTE),
    {
        Quote::Char(DOUBLE_QUOTE)
    }
}

impl Quote {
    /// The quote byte, if quoting is enabled.
    pub fn char(&self) -> (r: Option<u8>)
        ensures
            r == self.spec_char(),
    {
        match self {
            Quote::NoQuote => None,
            Quote::Char(c) => Some(*c),
        }
    }

    pub open spec fn spec_char(self) -> Option<u8> {
        match self {
            Quote::NoQuote => None,
            Quote::Char(c) => Some(c),
        }
    }
}

/// Header information of a sniffed file.
#[derive(Debug, Clone, Copy, PartialEq, Eq, Structural)]
pub struct Header {
    /// Whether the first data row holds column names.
    pub has_header_row: bool,
    /// Rows before the header (comment lines and structural preamble).
    pub num_preamble_rows: usize,
}

impl Default for Header {
    fn default() -> (r: Header)
        ensures
            r == Header::spec_new(false, 0),
    {
        Header::new(false, 0)
    }
}

impl Header {
    pub open spec fn spec_new(has_header_row: bool, num_preamble_rows: usize) -> Header {
        Header { has_header_row, num_preamble_rows }
    }

    pub fn new(has_header_row: bool, num_preamble_rows: usize) -> (r: Header)
        ensures
            r == Header::spec_new(has_header_row, num_preamble_rows),
    {
        Header { has_header_row, num_preamble_rows }
    }
}

/// The dialect of a delimited text file.
#[derive(Debug, Clone, Copy, PartialEq, Eq, Structural)]
pub struct Dialect {
    pub delimiter: u8,
    pub header: Header,
    pub quote: Quote,
    /// Whether rows have differing field counts.
    pub flexible: bool,
    pub is_utf8: bool,
}

impl Default for Dialect {
    fn default() -> (r: Dialect)
        ensures
            r == (Dialect {
                delimiter: COMMA,
                header: Header::spec_new(false, 0),
                quote: Quote::Char(DOUBLE_QUOTE),
                flexible: false,
                is_utf8: true,
            }),
    {
        Dialect {
            delimiter: COMMA,
            header: Header::new(false, 0),
            quote: Quote::Char(DOUBLE_QUOTE),
            flexible: false,
            is_utf8: true,
        }
    }
}

impl Dialect {
    pub fn new(delimiter: u8, header: Header, quote: Quote, flexible: bool, is_utf8: bool) -> (r:
        Dialect)
        ensures
            r == (Dialect { delimiter, header, quote, flexible, is_utf8 }),
    {
        Dialect { delimiter, header, quote, flexible, is_utf8 }
    }
}

/// Result of sniffing a file.
#[derive(Debug, Clone)]
pub struct Metadata {
    pub dialect: Dialect,
    /// Average length of a record in bytes.
    pub avg_record_len: usize,
    pub num_fields: usize,
    pub fields: Vec<String>,
    pub types: Vec<Type>,
}

/// What a `Metadata` holds, with field names as character sequences.
pub struct MetadataView {
    pub dialect: Dialect,
    pub avg_record_len: usize,
    pub num_fields: usize,
    pub fields: Seq<Seq<char>>,
    pub types: Seq<Type>,
}

impl View for Metadata {
    type V = MetadataView;

    open spec fn view(&self) -> MetadataView {
        MetadataView {
            dialect: self.dialect,
            avg_record_len: self.avg_record_len,
            num_fields: self.num_fields,
            fields: self.fields.deep_view(),
            types: self.types@,
        }
    }
}

impl Metadata {
    pub fn new(
        dialect: Dialect,
        avg_record_len: usize,
        num_fields: usize,
        fields: Vec<String>,
        types: Vec<Type>,
    ) -> (r: Metadata)
        ensures
            r.dialect == dialect,
            r.avg_record_len == avg_record_len,
            r.num_fields == num_fields,
            r.fields@ == fields@,
            r.types@ == types@,
    {
        Metadata { dialect, avg_record_len, num_fields, fields, types }
    }
}

/// How much of the input to read before sniffing.
#[derive(Debug, Clone, Copy, PartialEq, Eq, Structural)]
pub enum SampleSize {
    /// About this many records.
    Records(usize),
    /// At most this many bytes.
    Bytes(usize),
    /// The whole input.
    All,
}

impl Default for SampleSize {
    fn default() -> (r: SampleSize)
        ensures
            r == SampleSize::Records(100),
    {
        SampleSize::Records(100)
    }
}

impl SampleSize {
    pub fn records(&self) -> (r: Option<usize>)
        ensures
            r == (match *self {
                SampleSize::Records(n) => Some(n),
                _ => None,
            }),
    {
        match self {
            SampleSize::Records(n) => Some(*n),
            _ => None,
        }
    }

    pub fn bytes(&self) -> (r: Option<usize>)
        ensures
            r == (match *self {
                SampleSize::Bytes(n) => Some(n),
                _ => None,
            }),
    {
        match self {
            SampleSize::Bytes(n) => Some(*n),
            _ => None,
        }
    }
}

/// Preferred reading of ambiguous dates. It is kept with the configuration;
/// the date recognisers accept both orders alike.
#[derive(Debug, Clone, Copy, PartialEq, Eq, Structural)]
pub enum DatePreference {
    DmyFormat,
    MdyFormat,
}

impl Default for DatePreference {
    fn default() -> (r: DatePreference)
        ensures
            r == DatePreference::MdyFormat,
    {
        DatePreference::MdyFormat
    }
}

impl DatePreference {
    pub fn is_dmy(&self) -> (r: bool)
        ensures
            r == (*self == DatePreference::DmyFormat),
    {
        matches!(self, DatePreference::DmyFormat)
    }
}

} // verus!
