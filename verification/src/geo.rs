//! Bounding boxes for spatially pruning geometry fetches.
//!
//! The streaming read of the remote spatial file happens outside this crate;
//! the bounding box itself is carried here as the four coordinate strings the
//! user supplied, validated for shape. Turning them into numbers is the
//! caller's concern at the I/O edge, since coordinates are floating point.

use vstd::prelude::*;
use crate::error::PopgetterError;
use crate::strsplit::{spec_split, split_on};

verus! {

/// An axis-aligned bounding box: left, bottom, right, top, as the textual
/// coordinates the user supplied.
#[derive(Debug)]
pub struct BBox {
    pub xmin: String,
    pub ymin: String,
    pub xmax: String,
    pub ymax: String,
}

impl Clone for BBox {
    fn clone(&self) -> (r: Self)
        ensures
            r == *self,
    {
        BBox {
            xmin: self.xmin.clone(),
            ymin: self.ymin.clone(),
            xmax: self.xmax.clone(),
            ymax: self.ymax.clone(),
        }
    }
}

impl BBox {
    /// Splits a comma-separated bounding box into its four coordinates.
    /// Exactly four comma-separated segments are accepted; the segments are
    /// carried as given (the caller parses them as numbers at the I/O edge).
    pub fn parse(value: &str) -> (r: Result<BBox, PopgetterError>)
        ensures
            r is Ok <==> spec_split(value@, ","@).len() == 4,
            r matches Ok(b) ==> {
                let parts = spec_split(value@, ","@);
                b.xmin@ == parts[0] && b.ymin@ == parts[1] && b.xmax@ == parts[2] && b.ymax@
                    == parts[3]
            },
            r is Err ==> r.unwrap_err() is InvalidBoundingBox,
    {
        proof {
            reveal_strlit(",");
        }
        let mut parts = split_on(value, ",");
        proof {
            assert(parts@.len() == parts.deep_view().len());
            assert(forall|i: int|
                0 <= i < parts@.len() ==> (#[trigger] parts@[i])@ == parts.deep_view()[i]);
        }
        if parts.len() != 4 {
            return Err(PopgetterError::InvalidBoundingBox(value.to_owned()));
        }
        let ymax = parts.pop().unwrap();
        let xmax = parts.pop().unwrap();
        let ymin = parts.pop().unwrap();
        let xmin = parts.pop().unwrap();
        Ok(BBox { xmin, ymin, xmax, ymax })
    }
}

} // verus!
