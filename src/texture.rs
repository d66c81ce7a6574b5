use vstd::prelude::*;

verus! {

/// A texture that has the same colour everywhere, whatever the colour type.
#[derive(Debug)]
pub struct SolidColor<C> {
    albedo: C,
}

impl<C: Copy> SolidColor<C> {
    pub closed spec fn spec_albedo(self) -> C {
        self.albedo
    }

    pub fn new(albedo: C) -> (r: SolidColor<C>)
        ensures
            r.spec_albedo() == albedo,
    {
        SolidColor { albedo }
    }

    /// The colour at any point: the albedo.
    pub fn value(&self) -> (r: C)
        ensures
            r == self.spec_albedo(),
    {
        self.albedo
    }
}

} // verus!
