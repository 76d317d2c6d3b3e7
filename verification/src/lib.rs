//! Extraction of release-date records from an HTML release-schedule page.
//!
//! The page encodes its schedule twice: as tagged elements with fixed CSS
//! classes, and as a quasi-JSON array inside a script variable.  The library
//! parses both shapes into an ordered list of [`release_date::ReleaseDate`]
//! records, normalizing the source-locale date text along the way.

pub mod chars;
pub mod date;
pub mod release_date;
pub mod config;
pub mod error;
pub mod html_parser;

pub use config::Config;
pub use error::AppError;
pub use error::Result;
pub use release_date::ReleaseDate;
