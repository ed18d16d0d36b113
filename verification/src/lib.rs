//! Catalog search-and-retrieval engine for a federated collection of
//! statistical metrics and their geographic boundaries.
//!
//! The crate compiles multi-facet search queries into boolean predicates over
//! a denormalized metadata catalog, loads and merges per-country metadata
//! tables, and turns matched catalog rows into concrete fetch plans and SQL
//! text. Network and file I/O stay outside; the logic here works on plain
//! values handed in by the caller.

#![verifier::loop_isolation(false)]

use vstd::prelude::*;

pub mod cache;
pub mod column_names;
pub mod config;
pub mod data_request_spec;
pub mod dates;
pub mod error;
pub mod geo;
pub mod metadata;
pub mod parquet;
pub mod search;
pub mod strsplit;
pub mod table;
pub mod textmatch;
pub mod transform;

pub use column_names as COL;

use crate::config::Config;
use crate::error::PopgetterError;
use crate::metadata::{spec_expanded, Metadata};
use crate::parquet::{get_metrics_sql, spec_metrics_sql};
use crate::search::{
    spec_filtered, spec_params_regex_ok, spec_params_wf, spec_requests_of, Params, SearchParams,
    SearchResults,
};

verus! {

/// The catalog engine: the loaded metadata and the configuration selecting
/// where data files live. The caller loads the metadata (from the network
/// or a cache) and hands it in; search and planning are verified here.
#[derive(Debug)]
pub struct Popgetter {
    pub metadata: Metadata,
    pub config: Config,
}

impl Popgetter {
    /// Searches the denormalized catalog view with the given facets.
    pub fn search(&self, search_params: &SearchParams) -> (r: Result<
        SearchResults,
        PopgetterError,
    >)
        requires
            spec_params_wf(*search_params),
        ensures
            r is Ok <==> spec_params_regex_ok(*search_params),
            r matches Ok(res) ==> res.0@ == spec_filtered(
                spec_expanded(self.metadata),
                *search_params,
            ),
            r matches Err(e) ==> e is InvalidSearchQuery,
    {
        let expanded = self.metadata.combined_metric_source_geometry();
        search_params.search(&expanded)
    }

    /// The SQL text equivalent to downloading everything the search
    /// matches, without executing anything.
    pub fn download_metrics_sql(&self, params: &Params) -> (r: Result<String, PopgetterError>)
        requires
            spec_params_wf(params.search),
        ensures
            r is Ok <==> spec_params_regex_ok(params.search),
            r matches Ok(s) ==> s@ == spec_metrics_sql(
                spec_requests_of(
                    spec_filtered(spec_expanded(self.metadata), params.search),
                    self.config.base_path@,
                ),
                None,
            ),
            r matches Err(e) ==> e is InvalidSearchQuery,
    {
        match self.search(&params.search) {
            Err(e) => Err(e),
            Ok(results) => {
                let reqs = results.to_metric_requests(&self.config);
                match get_metrics_sql(&reqs, None) {
                    Ok(s) => Ok(s),
                    Err(_) => {
                        assert(false);
                        Err(PopgetterError::Unknown)
                    },
                }
            },
        }
    }
}

} // verus!
