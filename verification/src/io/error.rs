use vstd::prelude::*;

verus! {

/// Why a point stream could not be read.
pub enum ReadError {
    /// The CSV parser failed; its message.
    Csv(String),
    /// A line is not JSON; the parser's message.
    Json(String),
    /// Reading the input failed; the message of the I/O error.
    Io(String),
    /// CSV header names differ from the expected columns.
    ColumnsMismatch,
    /// NDJSON object keys differ from the expected columns.
    FieldsMismatch,
    /// An expected column is not in the header.
    MissingColumn,
    /// A record lacks a value for an expected column.
    MissingField,
    /// A feature value is empty.
    EmptyNumber,
    /// A feature value is not a number.
    InvalidNumber,
    /// An NDJSON line is not an object.
    NotObject,
    /// An NDJSON feature value is not a JSON number.
    NotNumber,
}

/// What `ReadError::message` returns.
pub open spec fn read_error_text(e: ReadError) -> Seq<char> {
    match e {
        ReadError::Csv(m) => m@,
        ReadError::Json(m) => m@,
        ReadError::Io(m) => m@,
        ReadError::ColumnsMismatch => "input columns do not match centroids columns"@,
        ReadError::FieldsMismatch => "input fields do not match centroids columns"@,
        ReadError::MissingColumn => "missing required column"@,
        ReadError::MissingField => "missing field"@,
        ReadError::EmptyNumber => "cannot parse float from empty string"@,
        ReadError::InvalidNumber => "invalid float literal"@,
        ReadError::NotObject => "ndjson line must be an object"@,
        ReadError::NotNumber => "feature value must be a number"@,
    }
}

impl ReadError {
    /// The message shown to a user.
    pub fn message(&self) -> (m: String)
        ensures
            m@ == read_error_text(*self),
    {
        match self {
            ReadError::Csv(m) => m.clone(),
            ReadError::Json(m) => m.clone(),
            ReadError::Io(m) => m.clone(),
            ReadError::ColumnsMismatch => String::from_str("input columns do not match centroids columns"),
            ReadError::FieldsMismatch => String::from_str("input fields do not match centroids columns"),
            ReadError::MissingColumn => String::from_str("missing required column"),
            ReadError::MissingField => String::from_str("missing field"),
            ReadError::EmptyNumber => String::from_str("cannot parse float from empty string"),
            ReadError::InvalidNumber => String::from_str("invalid float literal"),
            ReadError::NotObject => String::from_str("ndjson line must be an object"),
            ReadError::NotNumber => String::from_str("feature value must be a number"),
        }
    }
}

} // verus!
