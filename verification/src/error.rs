//! Error types.

use vstd::prelude::*;

verus! {

/// Errors surfaced by the catalog, search and materialization logic.
///
/// Resource errors (connection, cache) are produced at the I/O edge by the
/// caller; shape and validation errors are produced by the verified logic
/// itself, each with an exact condition in the producing function's contract.
#[derive(Debug, Clone)]
pub enum PopgetterError {
    /// A remote fetch failed.
    FailedConnection,
    /// No metric with the requested identity exists.
    MetricNotFound(String),
    /// A search facet could not be compiled (for instance an invalid regex).
    InvalidSearchQuery(String),
    /// A geometry was requested that no matched metric provides.
    NonExistentGeometry(String),
    /// A year-range string did not parse.
    InvalidYearRange(String),
    /// A bounding-box string did not parse.
    InvalidBoundingBox(String),
    /// A download was requested for a result set with no metric rows.
    NoMetricRequests,
    /// A metric-column fetch was requested with no columns at all.
    NoColumnsSpecified,
    /// The matched rows span more than one distinct geometry file,
    /// which one materialization call cannot serve.
    UnsupportedMultipleGeometries,
    /// The matched rows name no geometry file at all.
    EmptyGeometrySet,
    /// A cache snapshot could not be decoded.
    CacheCorrupt,
    /// Any other failure.
    Unknown,
}

impl PopgetterError {
    /// A short human-readable label for the error, stable across calls.
    pub fn kind_message(&self) -> (r: &'static str)
        ensures
            r@ == self.spec_kind_message(),
    {
        match self {
            PopgetterError::FailedConnection => "Connection failure.",
            PopgetterError::MetricNotFound(_) => "Metric not found.",
            PopgetterError::InvalidSearchQuery(_) => "Invalid search syntax.",
            PopgetterError::NonExistentGeometry(_) => "Non-existent geometry for metric requested.",
            PopgetterError::InvalidYearRange(_) => "Invalid year range.",
            PopgetterError::InvalidBoundingBox(_) => "Invalid bounding box.",
            PopgetterError::NoMetricRequests => "No metric requests were derived.",
            PopgetterError::NoColumnsSpecified => "No columns specified for metrics.",
            PopgetterError::UnsupportedMultipleGeometries => "Multiple geometries not supported in current release.",
            PopgetterError::EmptyGeometrySet => "No geometry files for the requested metrics.",
            PopgetterError::CacheCorrupt => "Cache snapshot could not be decoded.",
            PopgetterError::Unknown => "Unknown error.",
        }
    }

    /// The label `kind_message` returns, as a spec-level sequence.
    pub open spec fn spec_kind_message(&self) -> Seq<char> {
        match self {
            PopgetterError::FailedConnection => "Connection failure."@,
            PopgetterError::MetricNotFound(_) => "Metric not found."@,
            PopgetterError::InvalidSearchQuery(_) => "Invalid search syntax."@,
            PopgetterError::NonExistentGeometry(_) => "Non-existent geometry for metric requested."@,
            PopgetterError::InvalidYearRange(_) => "Invalid year range."@,
            PopgetterError::InvalidBoundingBox(_) => "Invalid bounding box."@,
            PopgetterError::NoMetricRequests => "No metric requests were derived."@,
            PopgetterError::NoColumnsSpecified => "No columns specified for metrics."@,
            PopgetterError::UnsupportedMultipleGeometries => "Multiple geometries not supported in current release."@,
            PopgetterError::EmptyGeometrySet => "No geometry files for the requested metrics."@,
            PopgetterError::CacheCorrupt => "Cache snapshot could not be decoded."@,
            PopgetterError::Unknown => "Unknown error."@,
        }
    }
}

} // verus!
