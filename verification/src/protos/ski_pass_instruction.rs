//! The instructions of an optimized program.
use vstd::prelude::*;

use super::sk_paint::ImageFilter;
use super::{Bounds, SkM44, SkPaint};

verus! {

#[derive(Debug, Clone, Copy, PartialEq, Eq, Structural)]
pub struct Save {}

#[derive(Debug, Clone, Copy, PartialEq, Eq, Structural)]
pub struct Restore {}

/// Open a new layer.
#[derive(Debug, Clone, Copy, PartialEq, Eq, Structural)]
pub struct SaveLayer {
    pub paint: Option<SkPaint>,
    pub bounds: Option<Bounds>,
    pub backdrop: Option<ImageFilter>,
}

/// Clip by a rectangle; `clip_op` is the number of a `ClipOp`.
#[derive(Debug, Clone, Copy, PartialEq, Eq, Structural)]
pub struct ClipRect {
    pub bounds: Option<Bounds>,
    pub clip_op: i32,
    pub do_anti_alias: bool,
}

/// Multiply a matrix into the canvas state.
#[derive(Debug, Clone)]
pub struct Concat44 {
    pub matrix: Option<SkM44>,
}

/// Copy the record at `index` of the input `SkRecord`, drawn with `paint`
/// where one is given.
#[derive(Debug, Clone, Copy, PartialEq, Eq, Structural)]
pub struct SkiPassCopyRecord {
    pub index: i32,
    pub paint: Option<SkPaint>,
    pub alpha: i32,
}

#[derive(Debug, Clone)]
pub enum Instruction {
    Save(Save),
    Restore(Restore),
    SaveLayer(SaveLayer),
    ClipRect(ClipRect),
    Concat44(Concat44),
    CopyRecord(SkiPassCopyRecord),
}

/// An instruction with its matrix, if any, taken by its entries.
pub ghost enum InstructionView {
    Save,
    Restore,
    SaveLayer(SaveLayer),
    ClipRect(ClipRect),
    Concat44(Option<Seq<u64>>),
    CopyRecord(SkiPassCopyRecord),
}

impl View for Instruction {
    type V = InstructionView;

    open spec fn view(&self) -> InstructionView {
        match self {
            Instruction::Save(_) => InstructionView::Save,
            Instruction::Restore(_) => InstructionView::Restore,
            Instruction::SaveLayer(s) => InstructionView::SaveLayer(*s),
            Instruction::ClipRect(c) => InstructionView::ClipRect(*c),
            Instruction::Concat44(c) => InstructionView::Concat44(
                match c.matrix {
                    Some(m) => Some(m.m@),
                    None => None,
                },
            ),
            Instruction::CopyRecord(r) => InstructionView::CopyRecord(*r),
        }
    }
}

} // verus!
