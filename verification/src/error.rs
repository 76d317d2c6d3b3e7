//! Error taxonomy of the crate.

use vstd::prelude::*;

verus! {

/// The error type shared by the whole crate.  Extraction itself never fails
/// on malformed input (malformed candidates are skipped); these variants
/// cover the configuration boundary, the transport glue, and the record
/// text-form decoder.
#[derive(Debug, Clone)]
pub enum AppError {
    /// An HTTP transfer failed or returned a non-success status.
    HttpRequest(String),
    /// A structural query could not be set up.
    HtmlParse { message: String },
    /// A date text form was neither the undetermined sentinel nor a
    /// well-formed calendar date.
    DateParse { input: String },
    /// A required configuration value is absent.
    Config(String),
    /// A record text form could not be decoded.
    Json(String),
    /// Reading or writing a stream failed.
    Io(String),
}

pub type Result<T> = core::result::Result<T, AppError>;

} // verus!
