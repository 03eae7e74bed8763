//! The commands that a record of an `SkRecord` can hold.
use vstd::prelude::*;

use super::sk_paint::ImageFilter;
use super::{Bounds, SkM44, SkPaint};

verus! {

#[derive(Debug, Clone, Copy, PartialEq, Eq, Structural)]
pub struct Save {}

#[derive(Debug, Clone, Copy, PartialEq, Eq, Structural)]
pub struct Restore {}

/// A new layer, merged into the one below at the matching restore.
#[derive(Debug, Clone, Copy, PartialEq, Eq, Structural)]
pub struct SaveLayer {
    pub paint: Option<SkPaint>,
    pub bounds: Option<Bounds>,
    pub backdrop: Option<ImageFilter>,
}

/// A matrix multiplied into the canvas state.
#[derive(Debug, Clone)]
pub struct Concat44 {
    pub matrix: Option<SkM44>,
}

/// A clip by a rectangle; `clip_op` is the number of a `ClipOp`.
#[derive(Debug, Clone, Copy, PartialEq, Eq, Structural)]
pub struct ClipRect {
    pub bounds: Option<Bounds>,
    pub clip_op: i32,
    pub do_anti_alias: bool,
}

/// Any other command, known by its name and its paint.
#[derive(Debug, Clone)]
pub struct DrawCommand {
    pub name: String,
    pub paint: Option<SkPaint>,
}

#[derive(Debug, Clone)]
pub enum Command {
    Save(Save),
    Restore(Restore),
    SaveLayer(SaveLayer),
    Concat44(Concat44),
    ClipRect(ClipRect),
    DrawCommand(DrawCommand),
}

} // verus!
