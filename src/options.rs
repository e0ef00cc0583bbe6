//! Render settings and their validation.
use vstd::prelude::*;

verus! {

/// Settings of one render call.
pub struct RenderOptions {
    /// Supersamples per pixel along each axis.
    pub multisampling: usize,
    pub width: usize,
    pub height: usize,
    /// Recursion depth at which a ray contributes black.
    pub max_ray_depth: usize,
    /// `k` of the `(2k+1) x (2k+1)` grid of soft-shadow samples.
    pub soft_shadow_resolution: usize,
    /// Whether glossy reflections draw random perturbations.
    pub use_randomness: bool,
    /// Whether every supersample is clamped to `[0, 1]` before averaging.
    pub clamp_colors: bool,
}

/// Why a set of options is refused.
#[derive(Debug, Clone, Copy, PartialEq, Eq, Structural)]
pub enum ConfigError {
    /// The image is narrower than two pixels.
    WidthTooSmall,
    /// The image is shorter than two pixels.
    HeightTooSmall,
    /// No supersample per pixel was asked for.
    NoMultisampling,
    /// The supersample grid or the shadow-sample grid does not fit in memory indices.
    TooLarge,
}

/// Number of samples in the soft-shadow grid of resolution `k`.
pub open spec fn shadow_grid_size(k: nat) -> nat {
    ((2 * k + 1) * (2 * k + 1)) as nat
}

impl RenderOptions {
    /// Width of the supersample grid.
    pub open spec fn spec_samples_wide(&self) -> nat {
        (self.width * self.multisampling) as nat
    }

    /// Height of the supersample grid.
    pub open spec fn spec_samples_high(&self) -> nat {
        (self.height * self.multisampling) as nat
    }

    /// Every index the render computes fits in a `usize`.
    pub open spec fn fits(&self) -> bool {
        &&& self.spec_samples_wide() * self.spec_samples_high() <= usize::MAX
        &&& shadow_grid_size(self.soft_shadow_resolution as nat) <= usize::MAX
    }

    /// The outcome of `validate`: the first problem found, in this order.
    pub open spec fn spec_validate(&self) -> Result<(), ConfigError> {
        if self.width < 2 {
            Err(ConfigError::WidthTooSmall)
        } else if self.height < 2 {
            Err(ConfigError::HeightTooSmall)
        } else if self.multisampling == 0 {
            Err(ConfigError::NoMultisampling)
        } else if !self.fits() {
            Err(ConfigError::TooLarge)
        } else {
            Ok(())
        }
    }

    /// Options that a render accepts.
    pub open spec fn valid(&self) -> bool {
        self.spec_validate() is Ok
    }

    /// Checks the options before any ray is generated.
    pub fn validate(&self) -> (r: Result<(), ConfigError>)
        ensures
            r == self.spec_validate(),
            r is Ok <==> self.valid(),
    {
        if self.width < 2 {
            return Err(ConfigError::WidthTooSmall);
        }
        if self.height < 2 {
            return Err(ConfigError::HeightTooSmall);
        }
        if self.multisampling == 0 {
            return Err(ConfigError::NoMultisampling);
        }
        let wide = self.width.checked_mul(self.multisampling);
        let high = self.height.checked_mul(self.multisampling);
        let (wide, high) = match (wide, high) {
            (Some(w), Some(h)) => (w, h),
            _ => {
                proof {
                    lemma_product_bound(self.width as nat, self.height as nat, self.multisampling as nat);
                }
                return Err(ConfigError::TooLarge);
            },
        };
        if wide.checked_mul(high).is_none() {
            return Err(ConfigError::TooLarge);
        }
        let k = self.soft_shadow_resolution;
        if k > (usize::MAX - 1) / 2 {
            proof {
                lemma_square_grows((2 * k + 1) as nat);
            }
            return Err(ConfigError::TooLarge);
        }
        let side = 2 * k + 1;
        if side.checked_mul(side).is_none() {
            return Err(ConfigError::TooLarge);
        }
        Ok(())
    }
}

proof fn lemma_product_bound(w: nat, h: nat, m: nat)
    requires
        w >= 2,
        h >= 2,
        m >= 1,
        w * m > usize::MAX || h * m > usize::MAX,
    ensures
        (w * m) * (h * m) > usize::MAX,
{
    assert(w * m >= 1 && h * m >= 1) by (nonlinear_arith)
        requires w >= 2, h >= 2, m >= 1;
    assert((w * m) * (h * m) >= w * m) by (nonlinear_arith)
        requires h * m >= 1;
    assert((w * m) * (h * m) >= h * m) by (nonlinear_arith)
        requires w * m >= 1;
}

proof fn lemma_square_grows(s: nat)
    ensures
        s * s >= s,
{
    assert(s * s >= s) by (nonlinear_arith);
}

impl Default for RenderOptions {
    fn default() -> (r: Self)
        ensures
            r.multisampling == 1,
            r.width == 640,
            r.height == 640,
            r.max_ray_depth == 5,
            r.soft_shadow_resolution == 4,
            r.use_randomness,
            r.clamp_colors,
    {
        RenderOptions {
            multisampling: 1,
            width: 640,
            height: 640,
            max_ray_depth: 5,
            soft_shadow_resolution: 4,
            use_randomness: true,
            clamp_colors: true,
        }
    }
}

} // verus!
