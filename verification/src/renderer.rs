//! Rendering configuration shared with the excluded execution layer: which
//! image to produce and how many rays and bounces to spend on it. The
//! kernels that consume these settings are external collaborators.

use vstd::prelude::*;

verus! {

/// What the renderer writes to the screen.
#[derive(PartialEq, Eq, Structural, Copy, Clone, Debug)]
pub enum RenderMode {
    PathTracing,
    Normals,
    Albedo,
    AccumulatedLight,
    LightLayer,
}

/// One frame's rendering parameters.
#[derive(PartialEq, Eq, Structural, Copy, Clone, Debug)]
pub struct RenderSettings {
    pub render_mode: RenderMode,
    pub num_primary_rays: usize,
    pub num_bounces: usize,
}

} // verus!
