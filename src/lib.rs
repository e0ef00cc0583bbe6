//! Integer core of a recursive Whitted-style ray tracer.
//!
//! The library decides everything about a render that does not need
//! floating-point arithmetic: which configurations are accepted, how the
//! output is split among workers, which supersamples feed each pixel, which
//! hit is the nearest, what a shading step traces next, and how shadow
//! samples are counted. Geometry and colour arithmetic are done by the
//! caller, which hands the library the discrete facts it computed.
use vstd::prelude::*;

pub mod camera;
pub mod hit;
pub mod image;
pub mod options;
pub mod partition;
pub mod render;
pub mod shading;
pub mod shadow;

pub use camera::MappingFunction;
pub use hit::{closest_hit, FAR};
pub use image::{rgba_bytes, Image};
pub use options::{ConfigError, RenderOptions};
pub use partition::{join_parts, split_buffer};
pub use render::{render_image, render_part, render_tiles, supersample_coords, supersample_size};
pub use shading::{shade_step, Reflection, ShadeStep, SurfaceFlags};
pub use shadow::{is_lit, shadow_factor, shadow_grid, ShadowFactor, ShadowSample, Side};
