//! The control skeleton of the path-tracing estimator: when a path stops
//! and what its estimate is then made of. Intersection and scattering are
//! the caller's; the decisions are made here.
use vstd::prelude::*;

verus! {

/// Greatest number of bounces a path is followed through.
pub const MAX_DEPTH: u32 = 50;

/// What became of a ray that was sent into the world.
#[derive(Clone, Copy, Debug, PartialEq, Eq, Structural)]
pub enum Interaction {
    /// The ray hit nothing.
    Miss,
    /// The ray hit a surface that scattered nothing.
    Absorbed,
    /// The ray hit a surface that scattered it on.
    Scattered,
}

/// What the estimate for a ray consists of.
#[derive(Clone, Copy, Debug, PartialEq, Eq, Structural)]
pub enum Radiance {
    /// Nothing: the path has used up its depth.
    Black,
    /// The background seen along the ray.
    Background,
    /// The emission of the surface that was hit.
    Emitted,
    /// The emission of the surface, plus the attenuation times the estimate
    /// for the scattered ray with `depth` bounces left.
    EmittedAndScattered { depth: u32 },
}

/// The estimate for a ray with `depth` bounces left, given what became of
/// it. With no depth left the ray is not even sent.
pub open spec fn spec_radiance(depth: u32, interaction: Interaction) -> Radiance {
    if depth == 0 {
        Radiance::Black
    } else {
        match interaction {
            Interaction::Miss => Radiance::Background,
            Interaction::Absorbed => Radiance::Emitted,
            Interaction::Scattered => Radiance::EmittedAndScattered { depth: (depth - 1) as u32 },
        }
    }
}

/// Whether a path with `depth` bounces left is at its end, so that its
/// estimate is black without a look at the scene.
pub fn exhausted(depth: u32) -> (b: bool)
    ensures
        b == (depth == 0),
        b ==> forall|interaction: Interaction| #[trigger]
            spec_radiance(depth, interaction) == Radiance::Black,
{
    depth == 0
}

/// Decides what the estimate for a ray consists of.
pub fn radiance(depth: u32, interaction: Interaction) -> (r: Radiance)
    ensures
        r == spec_radiance(depth, interaction),
{
    if depth == 0 {
        Radiance::Black
    } else {
        match interaction {
            Interaction::Miss => Radiance::Background,
            Interaction::Absorbed => Radiance::Emitted,
            Interaction::Scattered => Radiance::EmittedAndScattered { depth: depth - 1 },
        }
    }
}

/// Number of rays sent along a path that starts with `depth` bounces left
/// and meets the given interactions in turn.
pub open spec fn rays_sent(depth: u32, interactions: Seq<Interaction>) -> nat
    decreases interactions.len(),
{
    if interactions.len() == 0 {
        0
    } else {
        match spec_radiance(depth, interactions[0]) {
            Radiance::Black => 0,
            Radiance::EmittedAndScattered { depth: left } => 1 + rays_sent(
                left,
                interactions.drop_first(),
            ),
            _ => 1,
        }
    }
}

/// With no depth left the estimate is black, whatever the scene would have
/// done to the ray.
pub proof fn lemma_no_depth_is_black(interaction: Interaction)
    ensures
        spec_radiance(0, interaction) == Radiance::Black,
{
}

/// A ray that hits nothing yields the background, at any depth but zero.
/// In an empty world every ray is such a ray.
pub proof fn lemma_miss_is_background(depth: u32)
    requires
        depth > 0,
    ensures
        spec_radiance(depth, Interaction::Miss) == Radiance::Background,
{
}

/// A ray absorbed by the surface it hits yields that surface's emission
/// and nothing more.
pub proof fn lemma_absorbed_is_emission(depth: u32)
    requires
        depth > 0,
    ensures
        spec_radiance(depth, Interaction::Absorbed) == Radiance::Emitted,
{
}

/// A path never sends more rays than it has depth, however often it is
/// scattered.
pub proof fn lemma_path_is_bounded(depth: u32, interactions: Seq<Interaction>)
    ensures
        rays_sent(depth, interactions) <= depth,
    decreases interactions.len(),
{
    if interactions.len() > 0 && depth > 0 {
        if interactions[0] == Interaction::Scattered {
            lemma_path_is_bounded((depth - 1) as u32, interactions.drop_first());
        }
    }
}

} // verus!
