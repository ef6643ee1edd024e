//! Structured errors of the HRRR provider. Every malformed response and
//! every byte of a fetched message is untrusted; failures are values, never
//! panics.

use vstd::prelude::*;

verus! {

/// A failure of some HRRR operation. Network-library failures are carried
/// as their rendered message.
#[derive(Debug, Clone, PartialEq, Eq)]
pub enum HrrrError {
    InvalidBucketUrl { url: String, message: String },
    Request { url: String, message: String },
    NotFound { url: String, status: u16 },
    HttpStatus { url: String, status: u16 },
    MalformedListing { url: String, message: String },
    MalformedIdxLine { url: String, line_number: usize, line: String },
    FieldNotFoundInIdx { url: String, variable: String, level: String },
    MissingContentLength { url: String },
    Grib2Parse { url: String, message: String },
    NoGrib2Submessage { url: String },
    UnsupportedGridTemplate { url: String, template_number: u16 },
    UnsupportedEarthShape { url: String, shape: u8 },
    MissingGeometryReferencePoint { url: String },
    IncompleteGridCoverage { url: String },
    UnsupportedProductTemplate { url: String, template_number: u16 },
    GridSizeMismatch { url: String, decoded: usize, expected: usize, ni: u32, nj: u32 },
    UnexpectedField { url: String, category: u8, number: u8, expected_field: String },
    NoPublishedRunFound { product: String, lookback_hours: u32 },
    EnsembleNotSupported,
}

} // verus!
