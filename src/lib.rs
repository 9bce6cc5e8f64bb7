//! Infers the dialect of delimited text (delimiter, quoting, line terminator,
//! header, leading non-data rows and column types) by the Table Uniformity
//! Method: every candidate dialect parses the sample, and the parse whose rows
//! are most uniform and whose columns are most consistently typed wins.
use vstd::prelude::*;

pub mod benchmark;
pub mod bytes;
pub mod dialects;
pub mod encoding;
pub mod error;
pub mod field_type;
pub mod format;
pub mod metadata;
pub mod score;
pub mod sniffer;
pub mod table;
pub mod type_detection;
pub mod uniformity;

pub use encoding::{detect_encoding, is_utf8, EncodingInfo};
pub use error::SnifferError;
pub use field_type::Type;
pub use metadata::{DatePreference, Dialect, Header, Metadata, Quote, SampleSize};
pub use sniffer::Sniffer;

verus! {

} // verus!
