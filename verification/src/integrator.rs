//! The control flow of the radiance estimator.
//!
//! The estimator follows a ray from bounce to bounce. At each bounce it
//! intersects the scene, evaluates the material at the hit, and decides
//! whether the path ends there or continues. The arithmetic is the front
//! end's; which of the cases applies is decided here.

use crate::material::ScatterRecord;
use vstd::prelude::*;

verus! {

/// The number of bounces after which a path is cut off.
pub const MAX_DEPTH: usize = 50;

/// What the estimator returns at one bounce.
#[derive(Clone, Copy, Debug, PartialEq, Eq, Structural)]
pub enum Step {
    /// The ray left the scene: the background's radiance.
    Background,
    /// The path ends at the hit: the emitted radiance alone.
    Emitted,
    /// The emitted radiance plus the attenuated radiance along the specular
    /// ray, one bounce deeper.
    Specular,
    /// The emitted radiance plus the radiance along a direction drawn from
    /// the mixture density, one bounce deeper, weighted by attenuation and
    /// scattering density over mixture density.
    Mixture,
}

/// Whether a path that is `depth` bounces deep may scatter again.
pub open spec fn may_scatter_spec(depth: usize, max_depth: usize) -> bool {
    depth < max_depth
}

/// The step taken at a bounce: a miss shows the background; at the depth
/// limit, or when the material does not scatter, the path ends with what
/// the surface emits; otherwise it continues as the scatter record says.
pub open spec fn step_spec(hit: bool, depth: usize, max_depth: usize, scatter: Option<ScatterRecord>) -> Step {
    if !hit {
        Step::Background
    } else if !may_scatter_spec(depth, max_depth) {
        Step::Emitted
    } else {
        match scatter {
            None => Step::Emitted,
            Some(rec) => if rec.is_specular {
                Step::Specular
            } else {
                Step::Mixture
            },
        }
    }
}

/// The path goes on after this step.
pub open spec fn continues(step: Step) -> bool {
    step == Step::Specular || step == Step::Mixture
}

pub fn may_scatter(depth: usize, max_depth: usize) -> (may: bool)
    ensures
        may == may_scatter_spec(depth, max_depth),
{
    depth < max_depth
}

/// Decides the step at one bounce. A step that continues the path is only
/// taken below the depth limit, so the next depth cannot overflow and no path
/// is longer than the limit.
pub fn next_step(hit: bool, depth: usize, max_depth: usize, scatter: &Option<ScatterRecord>) -> (step: Step)
    ensures
        step == step_spec(hit, depth, max_depth, *scatter),
        continues(step) ==> depth < max_depth,
{
    if !hit {
        Step::Background
    } else if !may_scatter(depth, max_depth) {
        Step::Emitted
    } else {
        match scatter {
            None => Step::Emitted,
            Some(rec) => if rec.is_specular {
                Step::Specular
            } else {
                Step::Mixture
            },
        }
    }
}

/// A path whose every step was decided by the estimator, at the depth of its
/// position, continues at most `max_depth` times.
pub proof fn lemma_path_is_bounded(steps: Seq<Step>, hits: Seq<bool>, scatters: Seq<Option<ScatterRecord>>, max_depth: usize)
    requires
        hits.len() == steps.len(),
        scatters.len() == steps.len(),
        steps.len() <= usize::MAX,
        forall|k: int|
            0 <= k < steps.len() ==> #[trigger] steps[k] == step_spec(hits[k], k as usize, max_depth, scatters[k]),
        forall|k: int| 0 <= k < steps.len() - 1 ==> continues(#[trigger] steps[k]),
    ensures
        steps.len() <= max_depth + 1,
{
    if steps.len() > max_depth + 1 {
        let k = max_depth as int;
        assert(continues(steps[k]));
        assert(steps[k] == step_spec(hits[k], k as usize, max_depth, scatters[k]));
    }
}

} // verus!
