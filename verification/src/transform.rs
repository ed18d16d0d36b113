//! Transforms applied to a materialized table before it is handed to an
//! output encoder: a closed set of variants, one per transform kind.

use vstd::prelude::*;
use crate::error::PopgetterError;
use crate::table::{rename_column, spec_has_col, DataTable};

verus! {

/// The closed set of table transforms.
#[derive(Debug, Clone)]
pub enum PopgetterTransform {
    Category(CategoryTransform),
    Census(CensusTransform),
}

/// A category transform; carries its configuration but has no
/// implementation yet, and reports itself as unsupported when applied.
#[derive(Debug, Clone)]
pub struct CategoryTransform {
    pub include_metadata: bool,
}

/// A census transform: optionally renames one column.
#[derive(Debug, Clone)]
pub struct CensusTransform {
    pub rename_column: Option<(String, String)>,
}

impl Default for CensusTransform {
    /// No rename: the transform leaves the table unchanged.
    fn default() -> (r: Self)
        ensures
            r.rename_column is None,
    {
        CensusTransform { rename_column: None }
    }
}

impl CensusTransform {
    /// Applies the transform: renames the configured column when one is
    /// configured, else returns the table unchanged. Fails exactly when a
    /// rename is configured and its old name is not a column.
    pub fn transform(&self, output: DataTable) -> (r: Result<DataTable, PopgetterError>)
        ensures
            match self.rename_column {
                None => r matches Ok(t) && t@ == output@,
                Some((old_name, new_name)) => {
                    &&& (r is Ok <==> spec_has_col(output@.col_names, old_name@))
                    &&& (r matches Ok(t) ==> {
                        &&& t@.rows == output@.rows
                        &&& t@.col_names.len() == output@.col_names.len()
                        &&& forall|i: int|
                            0 <= i < output@.col_names.len() ==> t@.col_names[i] == (
                            if output@.col_names[i] == old_name@ {
                                new_name@
                            } else {
                                #[trigger] output@.col_names[i]
                            })
                    })
                },
            },
    {
        match &self.rename_column {
            Some(pair) => rename_column(&output, pair.0.as_str(), pair.1.as_str()),
            None => Ok(output),
        }
    }
}

impl PopgetterTransform {
    /// Applies the transform. The category transform has no implementation
    /// and reports itself as unsupported; the census transform renames its
    /// configured column.
    pub fn transform(&self, output: DataTable) -> (r: Result<DataTable, PopgetterError>)
        ensures
            match self {
                PopgetterTransform::Category(_) => r is Err,
                PopgetterTransform::Census(c) => match c.rename_column {
                    None => r matches Ok(t) && t@ == output@,
                    Some((old_name, _)) => r is Ok <==> spec_has_col(
                        output@.col_names,
                        old_name@,
                    ),
                },
            },
    {
        match self {
            PopgetterTransform::Category(_) => Err(PopgetterError::Unknown),
            PopgetterTransform::Census(c) => c.transform(output),
        }
    }
}

} // verus!
