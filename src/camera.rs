//! Camera projections.
use vstd::prelude::*;

verus! {

/// How a camera maps a pixel of the image plane to a view direction.
#[derive(Debug, Clone, Copy, PartialEq, Eq, Structural)]
pub enum MappingFunction {
    /// A flat image plane: offsets grow with the tangent of half the field of view.
    Linear,
    /// Angles grow linearly across the image: a wide-angle look.
    Unlinear,
    /// A hemisphere: points outside the unit disc see nothing.
    Circular,
}

} // verus!
