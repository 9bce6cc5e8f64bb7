use vstd::prelude::*;

verus! {

/// std::io::Error, carried unread by `SnifferError::Io`.
#[verifier::external_type_specification]
#[verifier::external_body]
pub struct ExIoError(std::io::Error);

/// csv::Error, carried unread by `SnifferError::Csv`.
#[verifier::external_type_specification]
#[verifier::external_body]
pub struct ExCsvError(csv::Error);

/// Why sniffing failed.
#[derive(Debug)]
pub enum SnifferError {
    /// Reading the sample failed.
    Io(std::io::Error),
    /// The CSV reader failed.
    Csv(csv::Error),
    /// No candidate dialect scored above zero.
    NoDialectDetected(String),
    /// Nothing to analyse.
    EmptyData,
    /// The configuration contradicts itself.
    InvalidConfig(String),
}

} // verus!
