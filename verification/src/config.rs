//! Runtime configuration, resolved from named values.
//!
//! Reading the process environment is I/O and stays outside the library; the
//! rules for defaulting and for the two required values live here, so that
//! a caller can hand in whatever it found and get back either a complete
//! configuration or the exact startup error.

use vstd::prelude::*;
use vstd::string::*;

verus! {

/// Resolved configuration for the whole pipeline.
#[derive(Debug, Clone)]
pub struct Config {
    pub target_url: String,
    pub aws_region: String,
    pub dynamodb_table: String,
    pub dynamodb_endpoint: Option<String>,
    pub google_calendar_id: String,
    pub google_credentials_file: Option<String>,
    pub google_credentials_base64: Option<String>,
}

impl Config {
    /// Builds a configuration from the raw optional values of the seven
    /// named settings.  The target URL and the calendar identifier are
    /// required and missing them is a hard startup error, in that order;
    /// region and table fall back to fixed defaults; an empty endpoint
    /// counts as absent; the credential locations stay optional.
    pub fn from_values(
        target_url: Option<String>,
        aws_region: Option<String>,
        dynamodb_table: Option<String>,
        dynamodb_endpoint: Option<String>,
        google_calendar_id: Option<String>,
        google_credentials_file: Option<String>,
        google_credentials_base64: Option<String>,
    ) -> (r: Result<Self, crate::error::AppError>)
        ensures
            r is Ok <==> target_url is Some && google_calendar_id is Some,
            match r {
                Ok(c) => {
                    &&& c.target_url@ == target_url->Some_0@
                    &&& c.aws_region@ == (match aws_region {
                        Some(s) => s@,
                        None => "ap-northeast-1"@,
                    })
                    &&& c.dynamodb_table@ == (match dynamodb_table {
                        Some(s) => s@,
                        None => "rrdc-releases"@,
                    })
                    &&& c.dynamodb_endpoint.deep_view() == (match dynamodb_endpoint {
                        Some(s) => if s@.len() > 0 { Some(s@) } else { None },
                        None => None::<Seq<char>>,
                    })
                    &&& c.google_calendar_id@ == google_calendar_id->Some_0@
                    &&& c.google_credentials_file.deep_view()
                        == google_credentials_file.deep_view()
                    &&& c.google_credentials_base64.deep_view()
                        == google_credentials_base64.deep_view()
                },
                Err(e) => match e {
                    crate::error::AppError::Config(m) => m@ == (if target_url is None {
                        "TARGET_URL is required"@
                    } else {
                        "GOOGLE_CALENDAR_ID is required"@
                    }),
                    _ => false,
                },
            },
    {
        let target_url = match target_url {
            Some(u) => u,
            None => {
                return Err(crate::error::AppError::Config(String::from_str(
                    "TARGET_URL is required",
                )));
            },
        };
        let google_calendar_id = match google_calendar_id {
            Some(c) => c,
            None => {
                return Err(crate::error::AppError::Config(String::from_str(
                    "GOOGLE_CALENDAR_ID is required",
                )));
            },
        };
        let aws_region = match aws_region {
            Some(s) => s,
            None => String::from_str("ap-northeast-1"),
        };
        let dynamodb_table = match dynamodb_table {
            Some(s) => s,
            None => String::from_str("rrdc-releases"),
        };
        let dynamodb_endpoint = match dynamodb_endpoint {
            Some(s) => if s.as_str().is_empty() {
                None
            } else {
                Some(s)
            },
            None => None,
        };
        Ok(Config {
            target_url,
            aws_region,
            dynamodb_table,
            dynamodb_endpoint,
            google_calendar_id,
            google_credentials_file,
            google_credentials_base64,
        })
    }
}

} // verus!
