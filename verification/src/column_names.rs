//! Column names used when the catalog is rendered to external tabular form
//! (SQL text, cached files, downloaded tables).

use vstd::prelude::*;

verus! {

/// The shared key column joining metric tables to geometry tables.
pub const GEO_ID: &'static str = "GEO_ID";

/// The geometry column of a fetched geometry table.
pub const GEOMETRY: &'static str = "geometry";

} // verus!
