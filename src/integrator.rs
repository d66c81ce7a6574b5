use vstd::prelude::*;

verus! {

/// What the estimator does at a bounce that reached the scene.
#[derive(Clone, Copy, Debug, PartialEq, Eq, Structural)]
pub enum Bounce {
    /// The ray left the scene: the background radiance.
    Background,
    /// The material absorbs: its emission alone.
    Emitted,
    /// A deterministic continuation (mirror, glass): emission plus the
    /// attenuated radiance along the material's ray, with no density.
    Specular,
    /// Emission plus the mixture-sampled estimate.
    Sampled,
}

/// The depth left for the continuation ray, or `None` when the depth is
/// exhausted and the estimate is black.
pub fn next_depth(depth: i32) -> (r: Option<i32>)
    ensures
        depth <= 0 ==> r is None,
        depth > 0 ==> r == Some((depth - 1) as i32),
{
    if depth <= 0 {
        None
    } else {
        Some(depth - 1)
    }
}

/// The estimator's decision after the scene test: a miss gives the
/// background; a hit whose material declines to scatter gives its
/// emission; otherwise the material's `skip_pdf` flag picks the specular
/// branch over the sampled one.
pub fn classify_hit(hit: bool, scatters: bool, skip_pdf: bool) -> (r: Bounce)
    ensures
        !hit ==> r == Bounce::Background,
        hit && !scatters ==> r == Bounce::Emitted,
        hit && scatters && skip_pdf ==> r == Bounce::Specular,
        hit && scatters && !skip_pdf ==> r == Bounce::Sampled,
{
    if !hit {
        Bounce::Background
    } else if !scatters {
        Bounce::Emitted
    } else if skip_pdf {
        Bounce::Specular
    } else {
        Bounce::Sampled
    }
}

} // verus!
