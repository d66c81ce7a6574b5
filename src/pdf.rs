use vstd::prelude::*;

verus! {

/// The uniform density over all directions. It has no state: its density
/// is the same constant everywhere, and its samples are uniform unit
/// vectors.
#[derive(Clone, Copy, Debug, PartialEq, Eq, Structural)]
pub struct SpherePdf;

impl SpherePdf {
    pub fn new() -> (r: SpherePdf)
        ensures
            r == SpherePdf,
    {
        SpherePdf
    }
}

} // verus!
