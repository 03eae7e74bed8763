//! The messages exchanged with Skia (`ski_pass.proto`), as plain data.
//!
//! Doubles are carried as their IEEE-754 bit patterns (see `not_nan`);
//! enumerations are carried as `i32` in the messages, as protobuf does,
//! and each enumeration here gives the number of each of its values.
pub mod sk_paint;
pub mod sk_records;
pub mod ski_pass_instruction;

use vstd::prelude::*;

use self::sk_paint::{Blender, ColorFilter, ImageFilter, MaskFilter, PathEffect, Shader};

verus! {

/// A rectangle; each side is the bit pattern of a double.
#[derive(Debug, Clone, Copy, PartialEq, Eq, Structural)]
pub struct Bounds {
    pub left: u64,
    pub top: u64,
    pub right: u64,
    pub bottom: u64,
}

/// A 4x4 matrix in row-major order; each entry is the bit pattern of a
/// double.
#[derive(Debug, Clone)]
pub struct SkM44 {
    pub m: Vec<u64>,
}

/// An ARGB color, each channel 0-255.
#[derive(Debug, Clone, Copy, PartialEq, Eq, Structural)]
pub struct SkColor {
    pub alpha_u8: i32,
    pub red_u8: i32,
    pub green_u8: i32,
    pub blue_u8: i32,
}

/// The parts of an `SkPaint` that SkiPass reads. The effects are only
/// recorded as present or absent.
#[derive(Debug, Clone, Copy, PartialEq, Eq, Structural)]
pub struct SkPaint {
    pub color: Option<SkColor>,
    pub blender: Option<Blender>,
    pub image_filter: Option<ImageFilter>,
    pub color_filter: Option<ColorFilter>,
    pub path_effect: Option<PathEffect>,
    pub mask_filter: Option<MaskFilter>,
    pub shader: Option<Shader>,
}

/// The blend modes that SkiPass distinguishes.
#[derive(Debug, Clone, Copy, PartialEq, Eq, Structural)]
pub enum BlendMode {
    Unknown,
    Src,
    SrcOver,
}

impl BlendMode {
    pub open spec fn spec_value(self) -> i32 {
        match self {
            BlendMode::Unknown => 0,
            BlendMode::Src => 1,
            BlendMode::SrcOver => 2,
        }
    }

    /// The protobuf number of this blend mode.
    #[verifier::when_used_as_spec(spec_value)]
    pub fn value(self) -> (r: i32)
        ensures
            r == self.spec_value(),
    {
        match self {
            BlendMode::Unknown => 0,
            BlendMode::Src => 1,
            BlendMode::SrcOver => 2,
        }
    }
}

/// The two clip operations of Skia.
#[derive(Debug, Clone, Copy, PartialEq, Eq, Structural)]
pub enum ClipOp {
    Difference,
    Intersect,
}

impl ClipOp {
    pub open spec fn spec_value(self) -> i32 {
        match self {
            ClipOp::Difference => 0,
            ClipOp::Intersect => 1,
        }
    }

    /// The protobuf number of this clip operation.
    #[verifier::when_used_as_spec(spec_value)]
    pub fn value(self) -> (r: i32)
        ensures
            r == self.spec_value(),
    {
        match self {
            ClipOp::Difference => 0,
            ClipOp::Intersect => 1,
        }
    }
}

/// One record of an `SkRecord`: its position in that `SkRecord` and
/// the command it holds.
#[derive(Debug, Clone)]
pub struct SkRecords {
    pub index: i32,
    pub command: Option<sk_records::Command>,
}

/// The records of a picture, in drawing order.
#[derive(Debug, Clone)]
pub struct SkRecord {
    pub records: Vec<SkRecords>,
}

/// One instruction of an optimized program.
#[derive(Debug, Clone)]
pub struct SkiPassInstruction {
    pub instruction: Option<ski_pass_instruction::Instruction>,
}

impl View for SkiPassInstruction {
    type V = Option<ski_pass_instruction::InstructionView>;

    open spec fn view(&self) -> Self::V {
        match self.instruction {
            Some(i) => Some(i@),
            None => None,
        }
    }
}

/// The view of a list of instructions, one view per instruction.
pub open spec fn instructions_view(s: Seq<SkiPassInstruction>) -> Seq<
    Option<ski_pass_instruction::InstructionView>,
> {
    s.map_values(|i: SkiPassInstruction| i@)
}

/// An optimized program: the instructions with which Skia rebuilds the
/// record.
#[derive(Debug, Clone)]
pub struct SkiPassProgram {
    pub instructions: Vec<SkiPassInstruction>,
}

/// How long each stage of a run took, in nanoseconds.
#[derive(Debug, Clone, Copy, PartialEq, Eq, Structural)]
pub struct SkiPassDurationInfo {
    pub sk_record_ski_lang_duration_nano: u64,
    pub eqsat_duration_nano: u64,
    pub ski_lang_to_instructions_duration_nano: u64,
}

/// The answer of SkiPass to Skia.
#[derive(Debug, Clone)]
pub struct SkiPassRunResult {
    pub optimized_program: Option<SkiPassProgram>,
    pub duration_info: Option<SkiPassDurationInfo>,
}

/// The error that stopped a run.
#[derive(Debug, Clone)]
pub struct RustError {
    pub error_message: String,
}

/// The outcome of a run.
#[derive(Debug, Clone, Copy, PartialEq, Eq, Structural)]
pub enum SkiPassRunStatus {
    Unknown,
    Succeeded,
    Failed,
}

impl SkiPassRunStatus {
    pub open spec fn spec_value(self) -> i32 {
        match self {
            SkiPassRunStatus::Unknown => 0,
            SkiPassRunStatus::Succeeded => 1,
            SkiPassRunStatus::Failed => 2,
        }
    }

    /// The protobuf number of this status.
    #[verifier::when_used_as_spec(spec_value)]
    pub fn value(self) -> (r: i32)
        ensures
            r == self.spec_value(),
    {
        match self {
            SkiPassRunStatus::Unknown => 0,
            SkiPassRunStatus::Succeeded => 1,
            SkiPassRunStatus::Failed => 2,
        }
    }
}

/// What a run of the command-line optimizer records about itself.
#[derive(Debug, Clone)]
pub struct SkiPassRunInfo {
    pub input_skp_json_name: String,
    pub optimized_skp_path: String,
    pub status: i32,
    pub rust_error: Option<RustError>,
}

} // verus!
