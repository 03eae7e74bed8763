//! The effects of a paint. SkiPass only records whether each is present.
use vstd::prelude::*;

verus! {

/// How the paint blends; `blend_mode` is the number of a `BlendMode`.
#[derive(Debug, Clone, Copy, PartialEq, Eq, Structural)]
pub struct Blender {
    pub blend_mode: i32,
}

#[derive(Debug, Clone, Copy, PartialEq, Eq, Structural)]
pub struct ImageFilter {}

#[derive(Debug, Clone, Copy, PartialEq, Eq, Structural)]
pub struct ColorFilter {}

#[derive(Debug, Clone, Copy, PartialEq, Eq, Structural)]
pub struct PathEffect {}

#[derive(Debug, Clone, Copy, PartialEq, Eq, Structural)]
pub struct MaskFilter {}

#[derive(Debug, Clone, Copy, PartialEq, Eq, Structural)]
pub struct Shader {}

} // verus!
