//! The decision each shading step takes.
use crate::hit::{closest_hit, nearest};
use crate::options::RenderOptions;
use vstd::prelude::*;

verus! {

/// What the material of a shape asks of the shader.
#[derive(Debug, Clone, Copy, PartialEq, Eq, Structural)]
pub struct SurfaceFlags {
    /// Its specularity is above zero: a reflected ray is traced.
    pub specular: bool,
    /// Its opacity is below one: a refracted ray is traced.
    pub translucent: bool,
    /// Its roughness is not zero: reflections may be blurred.
    pub rough: bool,
}

/// How the reflected ray leaves a surface.
#[derive(Debug, Clone, Copy, PartialEq, Eq, Structural)]
pub enum Reflection {
    /// About the true normal.
    Mirror,
    /// About a normal turned by random angles scaled by the roughness.
    Perturbed,
}

/// The next step of shading one ray.
#[derive(Debug, Clone, Copy, PartialEq, Eq, Structural)]
pub enum ShadeStep {
    /// The ray contributes black: its depth is spent or it hits no shape.
    Black,
    /// A light lies no farther than the nearest shape: its intensity is the colour.
    Light { light: usize },
    /// The ray is shaded at the nearest shape, tracing the rays named here.
    Surface { shape: usize, reflection: Option<Reflection>, refraction: bool },
}

/// Reflection traced at a surface with `flags`.
pub open spec fn spec_reflection(flags: SurfaceFlags, use_randomness: bool) -> Option<Reflection> {
    if !flags.specular {
        None
    } else if use_randomness && flags.rough {
        Some(Reflection::Perturbed)
    } else {
        Some(Reflection::Mirror)
    }
}

/// The step for a ray at `depth` whose shape hits and light hits have the
/// distance keys `shapes` and `lights`.
pub open spec fn spec_shade_step(
    max_ray_depth: usize,
    use_randomness: bool,
    depth: usize,
    shapes: Seq<Option<u32>>,
    lights: Seq<Option<u32>>,
    flags: Seq<SurfaceFlags>,
) -> ShadeStep {
    if depth == max_ray_depth {
        ShadeStep::Black
    } else {
        match nearest(shapes) {
            None => ShadeStep::Black,
            Some(s) => {
                let surface = ShadeStep::Surface {
                    shape: s as usize,
                    reflection: spec_reflection(flags[s], use_randomness),
                    refraction: flags[s].translucent,
                };
                match nearest(lights) {
                    Some(l) => if lights[l]->0 <= shapes[s]->0 {
                        ShadeStep::Light { light: l as usize }
                    } else {
                        surface
                    },
                    None => surface,
                }
            },
        }
    }
}

/// Decides what shading a ray takes: black once `depth` reaches the maximum
/// or when no shape is hit; the light's intensity when the nearest light is
/// no farther than the nearest shape; otherwise the nearest shape, with a
/// reflected ray where it is specular (perturbed only when randomness is on
/// and it is rough) and a refracted ray where it is translucent.
pub fn shade_step(
    options: &RenderOptions,
    depth: usize,
    shapes: &Vec<Option<u32>>,
    lights: &Vec<Option<u32>>,
    flags: &Vec<SurfaceFlags>,
) -> (r: ShadeStep)
    requires
        flags@.len() == shapes@.len(),
    ensures
        r == spec_shade_step(
            options.max_ray_depth,
            options.use_randomness,
            depth,
            shapes@,
            lights@,
            flags@,
        ),
{
    if depth == options.max_ray_depth {
        return ShadeStep::Black;
    }
    let s = match closest_hit(shapes) {
        None => return ShadeStep::Black,
        Some(s) => s,
    };
    if let Some(l) = closest_hit(lights) {
        if lights[l].unwrap() <= shapes[s].unwrap() {
            return ShadeStep::Light { light: l };
        }
    }
    let f = flags[s];
    let reflection = if !f.specular {
        None
    } else if options.use_randomness && f.rough {
        Some(Reflection::Perturbed)
    } else {
        Some(Reflection::Mirror)
    };
    ShadeStep::Surface { shape: s, reflection, refraction: f.translucent }
}

} // verus!
