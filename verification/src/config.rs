//! Configuration: the base path selecting the remote or local root that all
//! catalog and data files are fetched from.

use vstd::prelude::*;

verus! {

/// The spec-level value of the default base path.
pub open spec fn spec_default_base_path() -> Seq<char> {
    "https://popgetter.blob.core.windows.net/releases/v0.2"@
}

/// Configuration for the catalog engine: one string selecting the
/// remote/local root under which all resources live.
#[derive(Debug, Clone)]
pub struct Config {
    pub base_path: String,
}

impl Default for Config {
    /// The default points at the fixed published release root.
    fn default() -> (r: Self)
        ensures
            r.base_path@ == spec_default_base_path(),
    {
        Config { base_path: "https://popgetter.blob.core.windows.net/releases/v0.2".to_owned() }
    }
}

} // verus!
