//! SkiLang: the language of the e-graph.
//!
//! A SkiLang expression is an `egg::RecExpr`: a list of nodes in which
//! every node names its children by the ids of their positions, and every
//! child comes before its parent. The last node is the root. The term that
//! a node stands for is `term_of`; the contracts of the library speak of
//! terms, so that they hold whatever the layout of the list.
use vstd::prelude::*;

use crate::egg_expr::id_index;
use crate::not_nan::{is_nan, is_nan_bits, lemma_zero_is_number};
use crate::protos::sk_paint::{Blender, ImageFilter};
use crate::protos::{BlendMode, Bounds, SkColor, SkM44, SkPaint};

verus! {

/// A rectangle; each side is the bit pattern of a double that is not NaN.
#[derive(Debug, Clone, Copy, PartialEq, Eq, PartialOrd, Ord, Hash, Structural)]
pub struct SkiLangRect {
    pub l: u64,
    pub t: u64,
    pub r: u64,
    pub b: u64,
}

impl SkiLangRect {
    /// No side is a NaN.
    pub open spec fn wf(self) -> bool {
        &&& !is_nan_bits(self.l)
        &&& !is_nan_bits(self.t)
        &&& !is_nan_bits(self.r)
        &&& !is_nan_bits(self.b)
    }

    pub open spec fn spec_from_bounds_proto(bounds: Bounds) -> SkiLangRect {
        SkiLangRect { l: bounds.left, t: bounds.top, r: bounds.right, b: bounds.bottom }
    }

    pub open spec fn bounds_are_numbers(bounds: Bounds) -> bool {
        SkiLangRect::spec_from_bounds_proto(bounds).wf()
    }

    /// The rectangle of a `Bounds` message, none of whose sides may be NaN.
    pub fn from_bounds_proto(bounds: &Bounds) -> (rect: SkiLangRect)
        requires
            SkiLangRect::bounds_are_numbers(*bounds),
        ensures
            rect == SkiLangRect::spec_from_bounds_proto(*bounds),
            rect.wf(),
    {
        SkiLangRect { l: bounds.left, t: bounds.top, r: bounds.right, b: bounds.bottom }
    }

    pub open spec fn spec_to_proto(self) -> Bounds {
        Bounds { left: self.l, right: self.r, top: self.t, bottom: self.b }
    }

    /// The `Bounds` message of this rectangle.
    pub fn to_proto(&self) -> (bounds: Bounds)
        ensures
            bounds == self.spec_to_proto(),
    {
        Bounds { left: self.l, right: self.r, top: self.t, bottom: self.b }
    }

    pub open spec fn spec_empty() -> SkiLangRect {
        SkiLangRect { l: 0, t: 0, r: 0, b: 0 }
    }

    /// The rectangle whose four sides are +0.
    pub fn empty() -> (rect: SkiLangRect)
        ensures
            rect == SkiLangRect::spec_empty(),
            rect.wf(),
    {
        proof {
            lemma_zero_is_number();
        }
        SkiLangRect { l: 0, t: 0, r: 0, b: 0 }
    }
}

/// The parameters of a state operation that SkiPass does not interpret
/// (a clip by a path or a rounded rectangle): the index of its record.
#[derive(Debug, Clone, Copy, PartialEq, Eq, PartialOrd, Ord, Hash, Structural)]
pub struct SkiLangMatrixOpParams {
    pub index: i32,
}

/// A 4x4 matrix, row-major; each entry is the bit pattern of a double that
/// is not NaN.
#[derive(Debug, Clone, Copy, PartialEq, Eq, PartialOrd, Ord, Hash, Structural)]
pub struct SkiLangM44 {
    m00: u64,
    m01: u64,
    m02: u64,
    m03: u64,
    m04: u64,
    m05: u64,
    m06: u64,
    m07: u64,
    m08: u64,
    m09: u64,
    m10: u64,
    m11: u64,
    m12: u64,
    m13: u64,
    m14: u64,
    m15: u64,
}

/// Whether none of the first sixteen entries is a NaN.
pub open spec fn sixteen_numbers(s: Seq<u64>) -> bool {
    &&& s.len() >= 16
    &&& forall|i: int| 0 <= i < 16 ==> !is_nan_bits(#[trigger] s[i])
}

impl SkiLangM44 {
    /// The sixteen entries, row-major.
    pub closed spec fn entries(self) -> Seq<u64> {
        seq![
            self.m00,
            self.m01,
            self.m02,
            self.m03,
            self.m04,
            self.m05,
            self.m06,
            self.m07,
            self.m08,
            self.m09,
            self.m10,
            self.m11,
            self.m12,
            self.m13,
            self.m14,
            self.m15,
        ]
    }

    /// No entry is a NaN.
    pub open spec fn wf(self) -> bool {
        sixteen_numbers(self.entries())
    }

    /// The matrix of the first sixteen values of `v`, row-major.
    pub closed spec fn spec_from_vec(v: Seq<u64>) -> SkiLangM44 {
        SkiLangM44 {
            m00: v[0],
            m01: v[1],
            m02: v[2],
            m03: v[3],
            m04: v[4],
            m05: v[5],
            m06: v[6],
            m07: v[7],
            m08: v[8],
            m09: v[9],
            m10: v[10],
            m11: v[11],
            m12: v[12],
            m13: v[13],
            m14: v[14],
            m15: v[15],
        }
    }

    /// The entries of the matrix of `v` are its first sixteen values.
    pub broadcast proof fn lemma_spec_from_vec(v: Seq<u64>)
        requires
            v.len() >= 16,
        ensures
            #[trigger] SkiLangM44::spec_from_vec(v).entries() == v.take(16),
    {
        assert(SkiLangM44::spec_from_vec(v).entries() =~= v.take(16));
    }

    /// A matrix is the matrix of its entries.
    pub broadcast proof fn lemma_from_entries(m: SkiLangM44)
        ensures
            #[trigger] SkiLangM44::spec_from_vec(m.entries()) == m,
    {
    }

    /// A matrix has sixteen entries.
    pub broadcast proof fn lemma_entries_len(m: SkiLangM44)
        ensures
            #[trigger] m.entries().len() == 16,
    {
    }

    /// A matrix is determined by its entries.
    pub proof fn lemma_entries_determine(a: SkiLangM44, b: SkiLangM44)
        requires
            a.entries() == b.entries(),
        ensures
            a == b,
    {
        assert(a.entries()[0] == b.entries()[0]);
        assert(a.entries()[1] == b.entries()[1]);
        assert(a.entries()[2] == b.entries()[2]);
        assert(a.entries()[3] == b.entries()[3]);
        assert(a.entries()[4] == b.entries()[4]);
        assert(a.entries()[5] == b.entries()[5]);
        assert(a.entries()[6] == b.entries()[6]);
        assert(a.entries()[7] == b.entries()[7]);
        assert(a.entries()[8] == b.entries()[8]);
        assert(a.entries()[9] == b.entries()[9]);
        assert(a.entries()[10] == b.entries()[10]);
        assert(a.entries()[11] == b.entries()[11]);
        assert(a.entries()[12] == b.entries()[12]);
        assert(a.entries()[13] == b.entries()[13]);
        assert(a.entries()[14] == b.entries()[14]);
        assert(a.entries()[15] == b.entries()[15]);
    }

    /// The matrix of the first sixteen values, row-major.
    pub fn from_vec(v: Vec<u64>) -> (m: SkiLangM44)
        requires
            sixteen_numbers(v@),
        ensures
            m == SkiLangM44::spec_from_vec(v@),
            m.entries() == v@.take(16),
            m.wf(),
    {
        let m = SkiLangM44 {
            m00: v[0],
            m01: v[1],
            m02: v[2],
            m03: v[3],
            m04: v[4],
            m05: v[5],
            m06: v[6],
            m07: v[7],
            m08: v[8],
            m09: v[9],
            m10: v[10],
            m11: v[11],
            m12: v[12],
            m13: v[13],
            m14: v[14],
            m15: v[15],
        };
        assert(m.entries() =~= v@.take(16));
        m
    }

    /// The sixteen entries, row-major.
    pub fn as_vec(&self) -> (v: Vec<u64>)
        ensures
            v@ == self.entries(),
    {
        let v = vec![
            self.m00,
            self.m01,
            self.m02,
            self.m03,
            self.m04,
            self.m05,
            self.m06,
            self.m07,
            self.m08,
            self.m09,
            self.m10,
            self.m11,
            self.m12,
            self.m13,
            self.m14,
            self.m15,
        ];
        assert(v@ =~= self.entries());
        v
    }

    /// The matrix of an `SkM44` message, which must hold at least sixteen
    /// values, none of them NaN.
    pub fn from_skm44_proto(sk_m44: &SkM44) -> (m: SkiLangM44)
        requires
            sixteen_numbers(sk_m44.m@),
        ensures
            m == SkiLangM44::spec_from_vec(sk_m44.m@),
            m.entries() == sk_m44.m@.take(16),
            m.wf(),
    {
        let mut mat: Vec<u64> = Vec::new();
        let mut i: usize = 0;
        while i < 16
            invariant
                i <= 16,
                sixteen_numbers(sk_m44.m@),
                mat@ == sk_m44.m@.take(i as int),
            decreases 16 - i,
        {
            let x = sk_m44.m[i];
            if is_nan(x) {
                // unreachable: no entry is a NaN
                assert(false);
            }
            mat.push(x);
            i = i + 1;
            assert(mat@ =~= sk_m44.m@.take(i as int));
        }
        assert(sixteen_numbers(mat@));
        let m = SkiLangM44::from_vec(mat);
        assert(mat@.take(16) =~= sk_m44.m@.take(16));
        assert(mat@.len() == 16);
        assert(forall|i: int| 0 <= i < 16 ==> mat@[i] == #[trigger] sk_m44.m@[i]);
        m
    }
}

#[derive(Debug, Clone, Copy, PartialEq, Eq, PartialOrd, Ord, Hash, Structural)]
pub enum SkiLangClipRectMode {
    Diff,
    Intersect,
}

#[derive(Debug, Clone, Copy, PartialEq, Eq, PartialOrd, Ord, Hash, Structural)]
pub struct SkiLangClipRectParams {
    pub clip_rect_mode: SkiLangClipRectMode,
    pub bounds: SkiLangRect,
    pub is_anti_aliased: bool,
}

/// A draw command, kept by the index of its record and its paint.
#[derive(Debug, Clone, Copy, PartialEq, Eq, PartialOrd, Ord, Hash, Structural)]
pub struct SkiLangDrawCommand {
    pub index: i32,
    pub paint: SkiLangPaint,
}

/// An ARGB color, each channel 0-255.
#[derive(Debug, Clone, Copy, PartialEq, Eq, PartialOrd, Ord, Hash, Structural)]
pub struct SkiLangColor {
    pub a: i32,
    pub r: i32,
    pub g: i32,
    pub b: i32,
}

#[derive(Debug, Clone, Copy, PartialEq, Eq, PartialOrd, Ord, Hash, Structural)]
pub enum SkiLangBlendMode {
    Src,
    SrcOver,
    Unknown,
}

#[derive(Debug, Clone, Copy, PartialEq, Eq, PartialOrd, Ord, Hash, Structural)]
pub struct SkiLangPaint {
    pub color: SkiLangColor,
    pub blend_mode: SkiLangBlendMode,
    pub has_filters: bool,
}

/// The parameters of a `saveLayer`: the index of its record, its paint,
/// whether it has a backdrop, and its bounds if it has any (`bounds` is
/// the empty rectangle when `has_bounds` is false).
#[derive(Debug, Clone, Copy, PartialEq, Eq, PartialOrd, Ord, Hash, Structural)]
pub struct SkiLangMergeParams {
    pub index: i32,
    pub paint: SkiLangPaint,
    pub has_backdrop: bool,
    pub has_bounds: bool,
    pub bounds: SkiLangRect,
}

#[derive(Debug, Clone, Copy, PartialEq, Eq, PartialOrd, Ord, Hash, Structural)]
pub struct SkiLangApplyAlphaParams {
    pub alpha: i32,
}

/// The color of a paint that carries none: opaque black.
pub open spec fn default_color() -> SkiLangColor {
    SkiLangColor { a: 255, r: 0, g: 0, b: 0 }
}

impl SkiLangPaint {
    /// The paint of an `SkPaint` message: its color (opaque black where it
    /// has none), its blend mode, and whether it has any effect.
    pub open spec fn spec_from_proto(p: SkPaint) -> SkiLangPaint {
        SkiLangPaint {
            color: match p.color {
                Some(c) => SkiLangColor { a: c.alpha_u8, r: c.red_u8, g: c.green_u8, b: c.blue_u8 },
                None => default_color(),
            },
            blend_mode: match p.blender {
                Some(blender) => if blender.blend_mode == BlendMode::SrcOver.spec_value() {
                    SkiLangBlendMode::SrcOver
                } else if blender.blend_mode == BlendMode::Src.spec_value() {
                    SkiLangBlendMode::Src
                } else {
                    SkiLangBlendMode::Unknown
                },
                None => SkiLangBlendMode::SrcOver,
            },
            has_filters: p.image_filter is Some || p.color_filter is Some || p.path_effect is Some
                || p.mask_filter is Some || p.shader is Some,
        }
    }

    /// The paint of a message that must carry one.
    pub fn from_proto(sk_record_paint: &Option<SkPaint>) -> (paint: SkiLangPaint)
        requires
            sk_record_paint is Some,
        ensures
            paint == SkiLangPaint::spec_from_proto(sk_record_paint->0),
    {
        let sk_record_paint = sk_record_paint.as_ref().unwrap();
        let color = match &sk_record_paint.color {
            Some(color) => SkiLangColor {
                a: color.alpha_u8,
                r: color.red_u8,
                g: color.green_u8,
                b: color.blue_u8,
            },
            None => SkiLangColor { a: 255, r: 0, g: 0, b: 0 },
        };
        let blend_mode = match &sk_record_paint.blender {
            Some(blender) => {
                if blender.blend_mode == BlendMode::SrcOver.value() {
                    SkiLangBlendMode::SrcOver
                } else if blender.blend_mode == BlendMode::Src.value() {
                    SkiLangBlendMode::Src
                } else {
                    SkiLangBlendMode::Unknown
                }
            },
            None => SkiLangBlendMode::SrcOver,
        };
        let mut has_filters = false;
        has_filters = has_filters || sk_record_paint.image_filter.is_some();
        has_filters = has_filters || sk_record_paint.color_filter.is_some();
        has_filters = has_filters || sk_record_paint.path_effect.is_some();
        has_filters = has_filters || sk_record_paint.mask_filter.is_some();
        has_filters = has_filters || sk_record_paint.shader.is_some();
        SkiLangPaint { color, blend_mode, has_filters }
    }

    pub open spec fn spec_blend_mode_value(m: SkiLangBlendMode) -> i32 {
        match m {
            SkiLangBlendMode::Src => BlendMode::Src.spec_value(),
            SkiLangBlendMode::SrcOver => BlendMode::SrcOver.spec_value(),
            SkiLangBlendMode::Unknown => BlendMode::Unknown.spec_value(),
        }
    }

    /// The `SkPaint` message of this paint: its color and blend mode, and
    /// an image filter standing for all its effects when it has any.
    pub open spec fn spec_to_proto(self) -> SkPaint {
        SkPaint {
            color: Some(
                SkColor {
                    alpha_u8: self.color.a,
                    red_u8: self.color.r,
                    green_u8: self.color.g,
                    blue_u8: self.color.b,
                },
            ),
            blender: Some(Blender { blend_mode: SkiLangPaint::spec_blend_mode_value(self.blend_mode) }),
            image_filter: if self.has_filters {
                Some(ImageFilter {  })
            } else {
                None
            },
            color_filter: None,
            path_effect: None,
            mask_filter: None,
            shader: None,
        }
    }

    pub fn to_proto(&self) -> (p: SkPaint)
        ensures
            p == self.spec_to_proto(),
    {
        let blend_mode = match self.blend_mode {
            SkiLangBlendMode::Src => BlendMode::Src.value(),
            SkiLangBlendMode::SrcOver => BlendMode::SrcOver.value(),
            SkiLangBlendMode::Unknown => BlendMode::Unknown.value(),
        };
        let image_filter = if self.has_filters {
            Some(ImageFilter {  })
        } else {
            None
        };
        SkPaint {
            color: Some(
                SkColor {
                    alpha_u8: self.color.a,
                    red_u8: self.color.r,
                    green_u8: self.color.g,
                    blue_u8: self.color.b,
                },
            ),
            blender: Some(Blender { blend_mode }),
            image_filter,
            color_filter: None,
            path_effect: None,
            mask_filter: None,
            shader: None,
        }
    }
}

/// A node of a SkiLang expression. Operators name their operands by their ids.
#[derive(Debug, Clone, Copy, PartialEq, Eq, PartialOrd, Ord, Hash)]
pub enum SkiLang {
    NoOp,
    BlankSurface,
    BlankState,
    M44(SkiLangM44),
    Rect(SkiLangRect),
    ClipRectParams(SkiLangClipRectParams),
    MatrixOpParams(SkiLangMatrixOpParams),
    ApplyAlphaParams(SkiLangApplyAlphaParams),
    Paint(SkiLangPaint),
    DrawCommand(SkiLangDrawCommand),
    MergeParams(SkiLangMergeParams),
    /// merge parameters, state
    MergeParamsWithState([egg::Id; 2]),
    /// surface, merge parameters with state
    SomeFilterAndState([egg::Id; 2]),
    /// surface, surface
    Concat([egg::Id; 2]),
    /// dst, src, merge parameters with state
    Merge([egg::Id; 3]),
    /// surface or state, parameters
    MatrixOp([egg::Id; 2]),
    /// surface or state, parameters
    Concat44([egg::Id; 2]),
    /// surface or state, parameters
    ClipRect([egg::Id; 2]),
    /// surface, state
    ApplyState([egg::Id; 2]),
    /// alpha parameters, surface
    ApplyAlpha([egg::Id; 2]),
    /// dst, src
    SrcOver([egg::Id; 2]),
}

/// The operands of a node, in order.
pub open spec fn children(n: SkiLang) -> Seq<egg::Id> {
    match n {
        SkiLang::MergeParamsWithState(ids) => seq![ids[0], ids[1]],
        SkiLang::SomeFilterAndState(ids) => seq![ids[0], ids[1]],
        SkiLang::Concat(ids) => seq![ids[0], ids[1]],
        SkiLang::Merge(ids) => seq![ids[0], ids[1], ids[2]],
        SkiLang::MatrixOp(ids) => seq![ids[0], ids[1]],
        SkiLang::Concat44(ids) => seq![ids[0], ids[1]],
        SkiLang::ClipRect(ids) => seq![ids[0], ids[1]],
        SkiLang::ApplyState(ids) => seq![ids[0], ids[1]],
        SkiLang::ApplyAlpha(ids) => seq![ids[0], ids[1]],
        SkiLang::SrcOver(ids) => seq![ids[0], ids[1]],
        _ => seq![],
    }
}

/// Every operand of `n` comes before position `pos`.
pub open spec fn children_before(n: SkiLang, pos: int) -> bool {
    forall|k: int| 0 <= k < children(n).len() ==> id_index(#[trigger] children(n)[k]) < pos
}

/// Every node names only nodes that come before it.
pub open spec fn wf_nodes(s: Seq<SkiLang>) -> bool {
    forall|i: int| 0 <= i < s.len() ==> children_before(#[trigger] s[i], i)
}

/// The number of operands of each kind of node.
pub fn arity(n: &SkiLang) -> (k: usize)
    ensures
        k == children(*n).len(),
{
    match n {
        SkiLang::MergeParamsWithState(_) => 2,
        SkiLang::SomeFilterAndState(_) => 2,
        SkiLang::Concat(_) => 2,
        SkiLang::Merge(_) => 3,
        SkiLang::MatrixOp(_) => 2,
        SkiLang::Concat44(_) => 2,
        SkiLang::ClipRect(_) => 2,
        SkiLang::ApplyState(_) => 2,
        SkiLang::ApplyAlpha(_) => 2,
        SkiLang::SrcOver(_) => 2,
        _ => 0,
    }
}

/// The terms of SkiLang: the trees that expressions stand for.
pub enum SkiTerm {
    NoOp,
    BlankSurface,
    BlankState,
    M44(SkiLangM44),
    Rect(SkiLangRect),
    ClipRectParams(SkiLangClipRectParams),
    MatrixOpParams(SkiLangMatrixOpParams),
    ApplyAlphaParams(SkiLangApplyAlphaParams),
    Paint(SkiLangPaint),
    DrawCommand(SkiLangDrawCommand),
    MergeParams(SkiLangMergeParams),
    MergeParamsWithState(Box<SkiTerm>, Box<SkiTerm>),
    SomeFilterAndState(Box<SkiTerm>, Box<SkiTerm>),
    Concat(Box<SkiTerm>, Box<SkiTerm>),
    Merge(Box<SkiTerm>, Box<SkiTerm>, Box<SkiTerm>),
    MatrixOp(Box<SkiTerm>, Box<SkiTerm>),
    Concat44(Box<SkiTerm>, Box<SkiTerm>),
    ClipRect(Box<SkiTerm>, Box<SkiTerm>),
    ApplyState(Box<SkiTerm>, Box<SkiTerm>),
    ApplyAlpha(Box<SkiTerm>, Box<SkiTerm>),
    SrcOver(Box<SkiTerm>, Box<SkiTerm>),
}

/// The term of the operand at `c` of the node at `id` (only an operand
/// that comes first has one).
pub open spec fn operand_term(s: Seq<SkiLang>, id: int, c: egg::Id) -> SkiTerm
    decreases id, 0int,
{
    if (id_index(c) as int) < id {
        term_of(s, id_index(c) as int)
    } else {
        SkiTerm::NoOp
    }
}

/// The term that the node at `id` stands for.
pub open spec fn term_of(s: Seq<SkiLang>, id: int) -> SkiTerm
    decreases id, 1int,
{
    if 0 <= id < s.len() {
        match s[id] {
            SkiLang::NoOp => SkiTerm::NoOp,
            SkiLang::BlankSurface => SkiTerm::BlankSurface,
            SkiLang::BlankState => SkiTerm::BlankState,
            SkiLang::M44(m) => SkiTerm::M44(m),
            SkiLang::Rect(r) => SkiTerm::Rect(r),
            SkiLang::ClipRectParams(p) => SkiTerm::ClipRectParams(p),
            SkiLang::MatrixOpParams(p) => SkiTerm::MatrixOpParams(p),
            SkiLang::ApplyAlphaParams(p) => SkiTerm::ApplyAlphaParams(p),
            SkiLang::Paint(p) => SkiTerm::Paint(p),
            SkiLang::DrawCommand(d) => SkiTerm::DrawCommand(d),
            SkiLang::MergeParams(p) => SkiTerm::MergeParams(p),
            SkiLang::MergeParamsWithState(ids) => SkiTerm::MergeParamsWithState(
                Box::new(operand_term(s, id, ids[0])),
                Box::new(operand_term(s, id, ids[1])),
            ),
            SkiLang::SomeFilterAndState(ids) => SkiTerm::SomeFilterAndState(
                Box::new(operand_term(s, id, ids[0])),
                Box::new(operand_term(s, id, ids[1])),
            ),
            SkiLang::Concat(ids) => SkiTerm::Concat(
                Box::new(operand_term(s, id, ids[0])),
                Box::new(operand_term(s, id, ids[1])),
            ),
            SkiLang::Merge(ids) => SkiTerm::Merge(
                Box::new(operand_term(s, id, ids[0])),
                Box::new(operand_term(s, id, ids[1])),
                Box::new(operand_term(s, id, ids[2])),
            ),
            SkiLang::MatrixOp(ids) => SkiTerm::MatrixOp(
                Box::new(operand_term(s, id, ids[0])),
                Box::new(operand_term(s, id, ids[1])),
            ),
            SkiLang::Concat44(ids) => SkiTerm::Concat44(
                Box::new(operand_term(s, id, ids[0])),
                Box::new(operand_term(s, id, ids[1])),
            ),
            SkiLang::ClipRect(ids) => SkiTerm::ClipRect(
                Box::new(operand_term(s, id, ids[0])),
                Box::new(operand_term(s, id, ids[1])),
            ),
            SkiLang::ApplyState(ids) => SkiTerm::ApplyState(
                Box::new(operand_term(s, id, ids[0])),
                Box::new(operand_term(s, id, ids[1])),
            ),
            SkiLang::ApplyAlpha(ids) => SkiTerm::ApplyAlpha(
                Box::new(operand_term(s, id, ids[0])),
                Box::new(operand_term(s, id, ids[1])),
            ),
            SkiLang::SrcOver(ids) => SkiTerm::SrcOver(
                Box::new(operand_term(s, id, ids[0])),
                Box::new(operand_term(s, id, ids[1])),
            ),
        }
    } else {
        SkiTerm::NoOp
    }
}

/// Appending nodes leaves the term of every existing node unchanged.
pub proof fn lemma_term_of_prefix(s: Seq<SkiLang>, t: Seq<SkiLang>, id: int)
    requires
        s.len() <= t.len(),
        t.subrange(0, s.len() as int) == s,
        0 <= id < s.len(),
    ensures
        term_of(t, id) == term_of(s, id),
    decreases id,
{
    assert(t[id] == s[id]);
    match s[id] {
        SkiLang::MergeParamsWithState(ids) => {
            if (id_index(ids[0]) as int) < id { lemma_term_of_prefix(s, t, id_index(ids[0]) as int); }
            if (id_index(ids[1]) as int) < id { lemma_term_of_prefix(s, t, id_index(ids[1]) as int); }
        },
        SkiLang::SomeFilterAndState(ids) => {
            if (id_index(ids[0]) as int) < id { lemma_term_of_prefix(s, t, id_index(ids[0]) as int); }
            if (id_index(ids[1]) as int) < id { lemma_term_of_prefix(s, t, id_index(ids[1]) as int); }
        },
        SkiLang::Concat(ids) => {
            if (id_index(ids[0]) as int) < id { lemma_term_of_prefix(s, t, id_index(ids[0]) as int); }
            if (id_index(ids[1]) as int) < id { lemma_term_of_prefix(s, t, id_index(ids[1]) as int); }
        },
        SkiLang::Merge(ids) => {
            if (id_index(ids[0]) as int) < id { lemma_term_of_prefix(s, t, id_index(ids[0]) as int); }
            if (id_index(ids[1]) as int) < id { lemma_term_of_prefix(s, t, id_index(ids[1]) as int); }
            if (id_index(ids[2]) as int) < id { lemma_term_of_prefix(s, t, id_index(ids[2]) as int); }
        },
        SkiLang::MatrixOp(ids) => {
            if (id_index(ids[0]) as int) < id { lemma_term_of_prefix(s, t, id_index(ids[0]) as int); }
            if (id_index(ids[1]) as int) < id { lemma_term_of_prefix(s, t, id_index(ids[1]) as int); }
        },
        SkiLang::Concat44(ids) => {
            if (id_index(ids[0]) as int) < id { lemma_term_of_prefix(s, t, id_index(ids[0]) as int); }
            if (id_index(ids[1]) as int) < id { lemma_term_of_prefix(s, t, id_index(ids[1]) as int); }
        },
        SkiLang::ClipRect(ids) => {
            if (id_index(ids[0]) as int) < id { lemma_term_of_prefix(s, t, id_index(ids[0]) as int); }
            if (id_index(ids[1]) as int) < id { lemma_term_of_prefix(s, t, id_index(ids[1]) as int); }
        },
        SkiLang::ApplyState(ids) => {
            if (id_index(ids[0]) as int) < id { lemma_term_of_prefix(s, t, id_index(ids[0]) as int); }
            if (id_index(ids[1]) as int) < id { lemma_term_of_prefix(s, t, id_index(ids[1]) as int); }
        },
        SkiLang::ApplyAlpha(ids) => {
            if (id_index(ids[0]) as int) < id { lemma_term_of_prefix(s, t, id_index(ids[0]) as int); }
            if (id_index(ids[1]) as int) < id { lemma_term_of_prefix(s, t, id_index(ids[1]) as int); }
        },
        SkiLang::SrcOver(ids) => {
            if (id_index(ids[0]) as int) < id { lemma_term_of_prefix(s, t, id_index(ids[0]) as int); }
            if (id_index(ids[1]) as int) < id { lemma_term_of_prefix(s, t, id_index(ids[1]) as int); }
        },
        _ => {},
    }
}

/// `b` starts with the nodes of `a`.
pub open spec fn extends(a: Seq<SkiLang>, b: Seq<SkiLang>) -> bool {
    a.len() <= b.len() && b.subrange(0, a.len() as int) == a
}

/// Extending an expression keeps the terms of its nodes.
pub proof fn lemma_extends_terms(a: Seq<SkiLang>, b: Seq<SkiLang>)
    requires
        extends(a, b),
    ensures
        forall|i: int| 0 <= i < a.len() ==> #[trigger] term_of(b, i) == term_of(a, i),
{
    assert forall|i: int| 0 <= i < a.len() implies #[trigger] term_of(b, i) == term_of(a, i) by {
        lemma_term_of_prefix(a, b, i);
    }
}

/// Every expression extends itself.
pub proof fn lemma_extends_refl(a: Seq<SkiLang>)
    ensures
        extends(a, a),
{
    assert(a.subrange(0, a.len() as int) =~= a);
}

/// Extension is transitive.
pub proof fn lemma_extends_trans(a: Seq<SkiLang>, b: Seq<SkiLang>, c: Seq<SkiLang>)
    requires
        extends(a, b),
        extends(b, c),
    ensures
        extends(a, c),
{
    assert(c.subrange(0, a.len() as int) =~= b.subrange(0, a.len() as int));
}

/// The nodes of a SkiLang expression, in order.
pub uninterp spec fn ski_lang_nodes(e: egg::RecExpr<SkiLang>) -> Seq<SkiLang>;

/// An expression whose nodes name only nodes that come before them.
pub open spec fn wf_expr(e: egg::RecExpr<SkiLang>) -> bool {
    wf_nodes(ski_lang_nodes(e))
}

/// The term of the root of an expression, its last node.
pub open spec fn root_term(e: egg::RecExpr<SkiLang>) -> SkiTerm {
    term_of(ski_lang_nodes(e), ski_lang_nodes(e).len() - 1)
}

/// The term of the node with id `id`.
pub open spec fn term_at(e: egg::RecExpr<SkiLang>, id: egg::Id) -> SkiTerm {
    term_of(ski_lang_nodes(e), id_index(id) as int)
}

/// `RecExpr::default`: an expression with no nodes.
#[verifier::external_body]
fn rec_expr_default() -> (e: egg::RecExpr<SkiLang>)
    ensures
        ski_lang_nodes(e) == Seq::<SkiLang>::empty(),
{
    egg::RecExpr::default()
}

/// `RecExpr::add`: appends a node, whose operands must already be in the
/// expression (`egg` asserts it in debug builds), and returns the id of
/// its position.
#[verifier::external_body]
fn rec_expr_add(e: &mut egg::RecExpr<SkiLang>, node: SkiLang) -> (id: egg::Id)
    requires
        children_before(node, ski_lang_nodes(*old(e)).len() as int),
    ensures
        ski_lang_nodes(*final(e)) == ski_lang_nodes(*old(e)).push(node),
        ski_lang_nodes(*old(e)).len() <= u32::MAX ==> id_index(id) == ski_lang_nodes(*old(e)).len(),
{
    e.add(node)
}

/// Indexing by an id: the node at its position.
#[verifier::external_body]
fn rec_expr_index(e: &egg::RecExpr<SkiLang>, id: egg::Id) -> (n: &SkiLang)
    requires
        id_index(id) < ski_lang_nodes(*e).len(),
    ensures
        *n == ski_lang_nodes(*e)[id_index(id) as int],
{
    &e[id]
}

/// `RecExpr::as_ref`: the nodes, in order.
#[verifier::external_body]
pub(crate) fn rec_expr_as_ref(e: &egg::RecExpr<SkiLang>) -> (nodes: &[SkiLang])
    ensures
        nodes@ == ski_lang_nodes(*e),
{
    e.as_ref()
}

/// An expression with no nodes.
pub fn new_expr() -> (e: egg::RecExpr<SkiLang>)
    ensures
        ski_lang_nodes(e) == Seq::<SkiLang>::empty(),
        wf_expr(e),
{
    rec_expr_default()
}

/// Appends a node whose operands are already in the expression, and
/// returns its id.
pub fn add_node(e: &mut egg::RecExpr<SkiLang>, node: SkiLang) -> (id: egg::Id)
    requires
        wf_expr(*old(e)),
        children_before(node, ski_lang_nodes(*old(e)).len() as int),
        ski_lang_nodes(*old(e)).len() < u32::MAX,
    ensures
        ski_lang_nodes(*final(e)) == ski_lang_nodes(*old(e)).push(node),
        extends(ski_lang_nodes(*old(e)), ski_lang_nodes(*final(e))),
        wf_expr(*final(e)),
        id_index(id) == ski_lang_nodes(*old(e)).len(),
        term_of(ski_lang_nodes(*final(e)), id_index(id) as int) == term_of(
            ski_lang_nodes(*old(e)).push(node),
            id_index(id) as int,
        ),
        forall|i: int|
            0 <= i < ski_lang_nodes(*old(e)).len() ==> term_of(ski_lang_nodes(*final(e)), i) == term_of(
                ski_lang_nodes(*old(e)),
                i,
            ),
{
    let id = rec_expr_add(e, node);
    proof {
        let s = ski_lang_nodes(*old(e));
        let t = ski_lang_nodes(*e);
        assert(t.subrange(0, s.len() as int) =~= s);
        assert forall|i: int| 0 <= i < s.len() implies #[trigger] term_of(t, i) == term_of(s, i) by {
            lemma_term_of_prefix(s, t, i);
        }
        assert forall|i: int| 0 <= i < t.len() implies children_before(#[trigger] t[i], i) by {
            if i < s.len() {
                assert(t[i] == s[i]);
            }
        }
    }
    id
}

/// The number of nodes.
pub fn expr_len(e: &egg::RecExpr<SkiLang>) -> (n: usize)
    ensures
        n == ski_lang_nodes(*e).len(),
{
    rec_expr_as_ref(e).len()
}

/// The node with id `id`.
pub fn get_node(e: &egg::RecExpr<SkiLang>, id: egg::Id) -> (n: &SkiLang)
    requires
        id_index(id) < ski_lang_nodes(*e).len(),
    ensures
        *n == ski_lang_nodes(*e)[id_index(id) as int],
{
    rec_expr_index(e, id)
}

/// The number of nodes of a term written as a tree: an operand is counted
/// once for each use.
pub open spec fn term_size(t: SkiTerm) -> nat
    decreases t,
{
    match t {
        SkiTerm::MergeParamsWithState(a, b) => 1 + term_size(*a) + term_size(*b),
        SkiTerm::SomeFilterAndState(a, b) => 1 + term_size(*a) + term_size(*b),
        SkiTerm::Concat(a, b) => 1 + term_size(*a) + term_size(*b),
        SkiTerm::Merge(a, b, c) => 1 + term_size(*a) + term_size(*b) + term_size(*c),
        SkiTerm::MatrixOp(a, b) => 1 + term_size(*a) + term_size(*b),
        SkiTerm::Concat44(a, b) => 1 + term_size(*a) + term_size(*b),
        SkiTerm::ClipRect(a, b) => 1 + term_size(*a) + term_size(*b),
        SkiTerm::ApplyState(a, b) => 1 + term_size(*a) + term_size(*b),
        SkiTerm::ApplyAlpha(a, b) => 1 + term_size(*a) + term_size(*b),
        SkiTerm::SrcOver(a, b) => 1 + term_size(*a) + term_size(*b),
        _ => 1,
    }
}

/// The term of a binary node of the same kind as `n`, with operands `x`
/// and `y`.
pub open spec fn op2(n: SkiLang, x: SkiTerm, y: SkiTerm) -> SkiTerm {
    match n {
        SkiLang::MergeParamsWithState(_) => SkiTerm::MergeParamsWithState(Box::new(x), Box::new(y)),
        SkiLang::SomeFilterAndState(_) => SkiTerm::SomeFilterAndState(Box::new(x), Box::new(y)),
        SkiLang::Concat(_) => SkiTerm::Concat(Box::new(x), Box::new(y)),
        SkiLang::MatrixOp(_) => SkiTerm::MatrixOp(Box::new(x), Box::new(y)),
        SkiLang::Concat44(_) => SkiTerm::Concat44(Box::new(x), Box::new(y)),
        SkiLang::ClipRect(_) => SkiTerm::ClipRect(Box::new(x), Box::new(y)),
        SkiLang::ApplyState(_) => SkiTerm::ApplyState(Box::new(x), Box::new(y)),
        SkiLang::ApplyAlpha(_) => SkiTerm::ApplyAlpha(Box::new(x), Box::new(y)),
        SkiLang::SrcOver(_) => SkiTerm::SrcOver(Box::new(x), Box::new(y)),
        _ => SkiTerm::NoOp,
    }
}

/// The term of a binary node is built from the terms of its operands.
proof fn lemma_term_of_binary(s: Seq<SkiLang>, id: int)
    requires
        0 <= id < s.len(),
        children(s[id]).len() == 2,
        children_before(s[id], id),
    ensures
        term_of(s, id) == op2(
            s[id],
            term_of(s, id_index(children(s[id])[0]) as int),
            term_of(s, id_index(children(s[id])[1]) as int),
        ),
{
    assert(id_index(children(s[id])[0]) < id && id_index(children(s[id])[1]) < id);
}

/// A binary node stands for a term one node larger than its operands.
proof fn lemma_op2_size(n: SkiLang, x: SkiTerm, y: SkiTerm)
    requires
        children(n).len() == 2,
    ensures
        term_size(op2(n, x, y)) == 1 + term_size(x) + term_size(y),
{
}

/// Two nodes without operands that are equal stand for the same term, of
/// one node.
proof fn lemma_term_of_leaf(s: Seq<SkiLang>, id: int, t: Seq<SkiLang>, j: int)
    requires
        0 <= id < s.len(),
        0 <= j < t.len(),
        s[id] == t[j],
        children(s[id]).len() == 0,
    ensures
        term_of(s, id) == term_of(t, j),
        term_size(term_of(s, id)) == 1,
{
}

/// The operands of a binary node.
fn operands2(n: &SkiLang) -> (r: (egg::Id, egg::Id))
    requires
        children(*n).len() == 2,
    ensures
        r.0 == children(*n)[0],
        r.1 == children(*n)[1],
{
    match n {
        SkiLang::MergeParamsWithState(ids) => (ids[0], ids[1]),
        SkiLang::SomeFilterAndState(ids) => (ids[0], ids[1]),
        SkiLang::Concat(ids) => (ids[0], ids[1]),
        SkiLang::MatrixOp(ids) => (ids[0], ids[1]),
        SkiLang::Concat44(ids) => (ids[0], ids[1]),
        SkiLang::ClipRect(ids) => (ids[0], ids[1]),
        SkiLang::ApplyState(ids) => (ids[0], ids[1]),
        SkiLang::ApplyAlpha(ids) => (ids[0], ids[1]),
        SkiLang::SrcOver(ids) => (ids[0], ids[1]),
        SkiLang::Merge(ids) => {
            assert(false);
            (ids[0], ids[1])
        },
        _ => {
            assert(false);
            let zero = crate::egg_expr::usize_to_id(0);
            (zero, zero)
        },
    }
}

/// The binary node of the kind of `n` with operands `a` and `b`.
fn with_operands2(n: SkiLang, a: egg::Id, b: egg::Id) -> (m: SkiLang)
    requires
        children(n).len() == 2,
    ensures
        children(m) == seq![a, b],
        forall|x: SkiTerm, y: SkiTerm| #[trigger] op2(m, x, y) == op2(n, x, y),
{
    match n {
        SkiLang::MergeParamsWithState(_) => SkiLang::MergeParamsWithState([a, b]),
        SkiLang::SomeFilterAndState(_) => SkiLang::SomeFilterAndState([a, b]),
        SkiLang::Concat(_) => SkiLang::Concat([a, b]),
        SkiLang::MatrixOp(_) => SkiLang::MatrixOp([a, b]),
        SkiLang::Concat44(_) => SkiLang::Concat44([a, b]),
        SkiLang::ClipRect(_) => SkiLang::ClipRect([a, b]),
        SkiLang::ApplyState(_) => SkiLang::ApplyState([a, b]),
        SkiLang::ApplyAlpha(_) => SkiLang::ApplyAlpha([a, b]),
        SkiLang::SrcOver(_) => SkiLang::SrcOver([a, b]),
        _ => n,
    }
}

/// Appends the tree of the term of the node `id` of `src` to `dst`, and
/// returns the id of its root; `None` where the tree does not fit in the
/// 32-bit ids of `dst`.
#[verifier::rlimit(40)]
fn copy_term(src: &egg::RecExpr<SkiLang>, id: egg::Id, dst: &mut egg::RecExpr<SkiLang>) -> (r: Option<egg::Id>)
    requires
        wf_expr(*src),
        id_index(id) < ski_lang_nodes(*src).len(),
        wf_expr(*old(dst)),
    ensures
        wf_expr(*final(dst)),
        extends(ski_lang_nodes(*old(dst)), ski_lang_nodes(*final(dst))),
        r is Some <==> ski_lang_nodes(*old(dst)).len() + term_size(term_at(*src, id)) <= u32::MAX,
        r matches Some(x) ==> {
            &&& ski_lang_nodes(*final(dst)).len() == ski_lang_nodes(*old(dst)).len() + term_size(term_at(*src, id))
            &&& id_index(x) == ski_lang_nodes(*final(dst)).len() - 1
            &&& term_of(ski_lang_nodes(*final(dst)), id_index(x) as int) == term_at(*src, id)
        },
    decreases id_index(id),
{
    let ghost d0 = ski_lang_nodes(*dst);
    let ghost s = ski_lang_nodes(*src);
    let ghost t = term_at(*src, id);
    let node = *get_node(src, id);
    proof {
        assert(children_before(s[id_index(id) as int], id_index(id) as int));
    }
    if arity(&node) == 2 {
        let (i0, i1) = operands2(&node);
        proof {
            lemma_term_of_binary(s, id_index(id) as int);
            lemma_op2_size(node, term_of(s, id_index(i0) as int), term_of(s, id_index(i1) as int));
        }
        let (a, b) = match copy_two(src, id, i0, i1, dst) {
            Some(p) => p,
            None => {
                return None;
            },
        };
        let ghost d1 = ski_lang_nodes(*dst);
        if expr_len(dst) >= 4294967295 {
            return None;
        }
        let m = with_operands2(node, a, b);
        assert(children(m)[0] == a && children(m)[1] == b);
        let r = add_node(dst, m);
        proof {
            lemma_extends_trans(d0, d1, ski_lang_nodes(*dst));
            lemma_term_of_binary(ski_lang_nodes(*dst), id_index(r) as int);
        }
        Some(r)
    } else if let SkiLang::Merge(ids) = node {
        assert(children(node)[0] == ids[0] && children(node)[1] == ids[1] && children(node)[2] == ids[2]);
        let (a, b) = match copy_two(src, id, ids[0], ids[1], dst) {
            Some(p) => p,
            None => {
                return None;
            },
        };
        let ghost d1 = ski_lang_nodes(*dst);
        let c = match copy_term(src, ids[2], dst) {
            Some(c) => c,
            None => {
                proof {
                    lemma_extends_trans(d0, d1, ski_lang_nodes(*dst));
                }
                return None;
            },
        };
        let ghost d2 = ski_lang_nodes(*dst);
        proof {
            lemma_extends_trans(d0, d1, d2);
        }
        if expr_len(dst) >= 4294967295 {
            return None;
        }
        let r = add_node(dst, SkiLang::Merge([a, b, c]));
        proof {
            lemma_extends_trans(d0, d2, ski_lang_nodes(*dst));
            let u = ski_lang_nodes(*dst);
            lemma_extends_terms(d1, d2);
            lemma_extends_terms(d2, u);
            assert(term_of(u, id_index(a) as int) == term_of(s, id_index(ids[0]) as int));
            assert(term_of(u, id_index(b) as int) == term_of(s, id_index(ids[1]) as int));
            assert(term_of(u, id_index(c) as int) == term_of(s, id_index(ids[2]) as int));
            assert(operand_term(u, id_index(r) as int, a) == term_of(u, id_index(a) as int));
            assert(operand_term(u, id_index(r) as int, b) == term_of(u, id_index(b) as int));
            assert(operand_term(u, id_index(r) as int, c) == term_of(u, id_index(c) as int));
            assert(operand_term(s, id_index(id) as int, ids[0]) == term_of(s, id_index(ids[0]) as int));
            assert(operand_term(s, id_index(id) as int, ids[1]) == term_of(s, id_index(ids[1]) as int));
            assert(operand_term(s, id_index(id) as int, ids[2]) == term_of(s, id_index(ids[2]) as int));
            assert(term_of(u, id_index(r) as int) == t);
        }
        Some(r)
    } else {
        proof {
            assert(children(node).len() == 0) by {
                if node is Merge {
                }
            }
            lemma_term_of_leaf(s, id_index(id) as int, s, id_index(id) as int);
            lemma_extends_refl(d0);
        }
        if expr_len(dst) >= 4294967295 {
            return None;
        }
        let r = add_node(dst, node);
        proof {
            lemma_term_of_leaf(ski_lang_nodes(*dst), id_index(r) as int, s, id_index(id) as int);
        }
        Some(r)
    }
}

/// Appends the trees of the terms of the operands `i0` and `i1` (both
/// before `id`) of `src` to `dst`.
fn copy_two(src: &egg::RecExpr<SkiLang>, id: egg::Id, i0: egg::Id, i1: egg::Id, dst: &mut egg::RecExpr<SkiLang>) -> (r:
    Option<(egg::Id, egg::Id)>)
    requires
        wf_expr(*src),
        id_index(id) < ski_lang_nodes(*src).len(),
        id_index(i0) < id_index(id),
        id_index(i1) < id_index(id),
        wf_expr(*old(dst)),
    ensures
        wf_expr(*final(dst)),
        extends(ski_lang_nodes(*old(dst)), ski_lang_nodes(*final(dst))),
        r is Some <==> ski_lang_nodes(*old(dst)).len() + term_size(term_at(*src, i0)) + term_size(term_at(*src, i1))
            <= u32::MAX,
        r matches Some(p) ==> {
            &&& ski_lang_nodes(*final(dst)).len() == ski_lang_nodes(*old(dst)).len() + term_size(term_at(*src, i0))
                + term_size(term_at(*src, i1))
            &&& id_index(p.0) < id_index(p.1) < ski_lang_nodes(*final(dst)).len()
            &&& term_of(ski_lang_nodes(*final(dst)), id_index(p.0) as int) == term_at(*src, i0)
            &&& term_of(ski_lang_nodes(*final(dst)), id_index(p.1) as int) == term_at(*src, i1)
        },
    decreases id_index(id), 0int,
{
    let ghost d0 = ski_lang_nodes(*dst);
    let a = match copy_term(src, i0, dst) {
        Some(a) => a,
        None => {
            return None;
        },
    };
    let ghost d1 = ski_lang_nodes(*dst);
    let b = match copy_term(src, i1, dst) {
        Some(b) => b,
        None => {
            proof {
                lemma_extends_trans(d0, d1, ski_lang_nodes(*dst));
            }
            return None;
        },
    };
    proof {
        lemma_extends_terms(d1, ski_lang_nodes(*dst));
        lemma_extends_trans(d0, d1, ski_lang_nodes(*dst));
    }
    Some((a, b))
}

/// The expression of the tree of the term of the node `id`, its root last;
/// `None` where that tree has more nodes than 32-bit ids can name. An
/// operand used twice is written twice.
pub fn term_to_expr(e: &egg::RecExpr<SkiLang>, id: egg::Id) -> (r: Option<egg::RecExpr<SkiLang>>)
    requires
        wf_expr(*e),
        id_index(id) < ski_lang_nodes(*e).len(),
    ensures
        r is Some <==> term_size(term_at(*e, id)) <= u32::MAX,
        r matches Some(t) ==> {
            &&& wf_expr(t)
            &&& ski_lang_nodes(t).len() == term_size(term_at(*e, id))
            &&& root_term(t) == term_at(*e, id)
        },
{
    let mut t = new_expr();
    match copy_term(e, id, &mut t) {
        Some(_) => Some(t),
        None => None,
    }
}

/// SkiLang as a language of the e-graph library: `matches` compares the
/// operators and the parameters of two nodes, not their operands, and
/// `children` gives the ids of the operands.
/// Two nodes have the same operator and the same parameters; their operands
/// are not compared.
pub open spec fn same_operator(m: SkiLang, n: SkiLang) -> bool {
    match (m, n) {
        (SkiLang::NoOp, SkiLang::NoOp) => true,
        (SkiLang::BlankSurface, SkiLang::BlankSurface) => true,
        (SkiLang::BlankState, SkiLang::BlankState) => true,
        (SkiLang::M44(a), SkiLang::M44(b)) => a == b,
        (SkiLang::Rect(a), SkiLang::Rect(b)) => a == b,
        (SkiLang::ClipRectParams(a), SkiLang::ClipRectParams(b)) => a == b,
        (SkiLang::MatrixOpParams(a), SkiLang::MatrixOpParams(b)) => a == b,
        (SkiLang::ApplyAlphaParams(a), SkiLang::ApplyAlphaParams(b)) => a == b,
        (SkiLang::Paint(a), SkiLang::Paint(b)) => a == b,
        (SkiLang::DrawCommand(a), SkiLang::DrawCommand(b)) => a == b,
        (SkiLang::MergeParams(a), SkiLang::MergeParams(b)) => a == b,
        (SkiLang::MergeParamsWithState(_), SkiLang::MergeParamsWithState(_)) => true,
        (SkiLang::SomeFilterAndState(_), SkiLang::SomeFilterAndState(_)) => true,
        (SkiLang::Concat(_), SkiLang::Concat(_)) => true,
        (SkiLang::Merge(_), SkiLang::Merge(_)) => true,
        (SkiLang::MatrixOp(_), SkiLang::MatrixOp(_)) => true,
        (SkiLang::Concat44(_), SkiLang::Concat44(_)) => true,
        (SkiLang::ClipRect(_), SkiLang::ClipRect(_)) => true,
        (SkiLang::ApplyState(_), SkiLang::ApplyState(_)) => true,
        (SkiLang::ApplyAlpha(_), SkiLang::ApplyAlpha(_)) => true,
        (SkiLang::SrcOver(_), SkiLang::SrcOver(_)) => true,
        _ => false,
    }
}

impl egg::Language for SkiLang {
    fn matches(&self, other: &Self) -> (b: bool)
        ensures
            b == same_operator(*self, *other),
    {
        match (self, other) {
            (SkiLang::NoOp, SkiLang::NoOp) => true,
            (SkiLang::BlankSurface, SkiLang::BlankSurface) => true,
            (SkiLang::BlankState, SkiLang::BlankState) => true,
            (SkiLang::M44(a), SkiLang::M44(b)) => a == b,
            (SkiLang::Rect(a), SkiLang::Rect(b)) => a == b,
            (SkiLang::ClipRectParams(a), SkiLang::ClipRectParams(b)) => a == b,
            (SkiLang::MatrixOpParams(a), SkiLang::MatrixOpParams(b)) => a == b,
            (SkiLang::ApplyAlphaParams(a), SkiLang::ApplyAlphaParams(b)) => a == b,
            (SkiLang::Paint(a), SkiLang::Paint(b)) => a == b,
            (SkiLang::DrawCommand(a), SkiLang::DrawCommand(b)) => a == b,
            (SkiLang::MergeParams(a), SkiLang::MergeParams(b)) => a == b,
            (SkiLang::MergeParamsWithState(_), SkiLang::MergeParamsWithState(_)) => true,
            (SkiLang::SomeFilterAndState(_), SkiLang::SomeFilterAndState(_)) => true,
            (SkiLang::Concat(_), SkiLang::Concat(_)) => true,
            (SkiLang::Merge(_), SkiLang::Merge(_)) => true,
            (SkiLang::MatrixOp(_), SkiLang::MatrixOp(_)) => true,
            (SkiLang::Concat44(_), SkiLang::Concat44(_)) => true,
            (SkiLang::ClipRect(_), SkiLang::ClipRect(_)) => true,
            (SkiLang::ApplyState(_), SkiLang::ApplyState(_)) => true,
            (SkiLang::ApplyAlpha(_), SkiLang::ApplyAlpha(_)) => true,
            (SkiLang::SrcOver(_), SkiLang::SrcOver(_)) => true,
            _ => false,
        }
    }

    fn children(&self) -> (ids: &[egg::Id])
        ensures
            ids@ == children(*self),
    {
        match self {
            SkiLang::MergeParamsWithState(ids) => ids,
            SkiLang::SomeFilterAndState(ids) => ids,
            SkiLang::Concat(ids) => ids,
            SkiLang::Merge(ids) => ids,
            SkiLang::MatrixOp(ids) => ids,
            SkiLang::Concat44(ids) => ids,
            SkiLang::ClipRect(ids) => ids,
            SkiLang::ApplyState(ids) => ids,
            SkiLang::ApplyAlpha(ids) => ids,
            SkiLang::SrcOver(ids) => ids,
            _ => &[],
        }
    }

    fn children_mut(&mut self) -> (ids: &mut [egg::Id])
        ensures
            ids@ == children(*old(self)),
            same_operator(*old(self), *final(self)),
            children(*final(self)) == final(ids)@,
    {
        match self {
            SkiLang::MergeParamsWithState(ids) => ids,
            SkiLang::SomeFilterAndState(ids) => ids,
            SkiLang::Concat(ids) => ids,
            SkiLang::Merge(ids) => ids,
            SkiLang::MatrixOp(ids) => ids,
            SkiLang::Concat44(ids) => ids,
            SkiLang::ClipRect(ids) => ids,
            SkiLang::ApplyState(ids) => ids,
            SkiLang::ApplyAlpha(ids) => ids,
            SkiLang::SrcOver(ids) => ids,
            _ => &mut [],
        }
    }
}

/// The cost of an expression: the number of virtual operations, the
/// number of layers, the number of nodes; compared in that order.
pub type Cost = (i32, i32, i32);

/// The cost of one node without its operands: a virtual operation (an
/// alpha, a state or a filter applied to a surface, or a source-over that
/// is not a concatenation) counts in the first place, a merge (a layer) in
/// the second, and every node in the third.
pub open spec fn spec_op_cost(n: SkiLang) -> (int, int, int) {
    match n {
        SkiLang::ApplyAlpha(_) => (1, 0, 1),
        SkiLang::ApplyState(_) => (1, 0, 1),
        SkiLang::SomeFilterAndState(_) => (1, 0, 1),
        SkiLang::SrcOver(_) => (1, 0, 1),
        SkiLang::Merge(_) => (0, 1, 1),
        _ => (0, 0, 1),
    }
}

pub open spec fn add_cost(a: (int, int, int), c: Cost) -> (int, int, int) {
    (a.0 + c.0, a.1 + c.1, a.2 + c.2)
}

/// The sum, from the left, of `init` and the costs `cs`.
pub open spec fn fold_costs(init: (int, int, int), cs: Seq<Cost>) -> (int, int, int)
    decreases cs.len(),
{
    if cs.len() == 0 {
        init
    } else {
        add_cost(fold_costs(init, cs.drop_last()), cs.last())
    }
}

pub open spec fn fits_i32(c: (int, int, int)) -> bool {
    &&& i32::MIN <= c.0 <= i32::MAX
    &&& i32::MIN <= c.1 <= i32::MAX
    &&& i32::MIN <= c.2 <= i32::MAX
}

pub open spec fn cost_as_int(c: Cost) -> (int, int, int) {
    (c.0 as int, c.1 as int, c.2 as int)
}

/// The cost that prefers expressions without virtual operations, then
/// with fewer layers, then with fewer nodes, so that the internal
/// operators of SkiLang are never extracted where they can be avoided.
pub struct SkiLangCostFn;

impl SkiLangCostFn {
    /// The cost of `enode` whose operands cost `costs`, in the order of
    /// the operands; every partial sum must fit in an `i32`.
    pub fn cost(&self, enode: &SkiLang, costs: &Vec<Cost>) -> (c: Cost)
        requires
            costs@.len() == children(*enode).len(),
            forall|k: int|
                0 <= k <= costs@.len() ==> fits_i32(#[trigger] fold_costs(spec_op_cost(*enode), costs@.take(k))),
        ensures
            cost_as_int(c) == fold_costs(spec_op_cost(*enode), costs@),
    {
        let op_cost: Cost = match enode {
            SkiLang::ApplyAlpha(_) => (1, 0, 1),
            SkiLang::ApplyState(_) => (1, 0, 1),
            SkiLang::SomeFilterAndState(_) => (1, 0, 1),
            SkiLang::SrcOver(_) => (1, 0, 1),
            SkiLang::Merge(_) => (0, 1, 1),
            _ => (0, 0, 1),
        };
        let mut sum = op_cost;
        let mut i: usize = 0;
        assert(costs@.take(0) =~= Seq::<Cost>::empty());
        while i < costs.len()
            invariant
                i <= costs@.len(),
                forall|k: int|
                    0 <= k <= costs@.len() ==> fits_i32(#[trigger] fold_costs(spec_op_cost(*enode), costs@.take(k))),
                cost_as_int(sum) == fold_costs(spec_op_cost(*enode), costs@.take(i as int)),
            decreases costs@.len() - i,
        {
            let c = costs[i];
            assert(costs@.take(i + 1).drop_last() =~= costs@.take(i as int));
            assert(fits_i32(fold_costs(spec_op_cost(*enode), costs@.take(i + 1))));
            sum = (sum.0 + c.0, sum.1 + c.1, sum.2 + c.2);
            i = i + 1;
        }
        assert(costs@.take(costs@.len() as int) =~= costs@);
        sum
    }

    /// The cost of `enode` whose operands cost `costs`, or `None` where a
    /// partial sum, adding the costs of the operands in order, leaves the
    /// range of an `i32`.
    pub fn try_cost(&self, enode: &SkiLang, costs: &Vec<Cost>) -> (r: Option<Cost>)
        requires
            costs@.len() == children(*enode).len(),
        ensures
            r is Some <==> forall|k: int|
                0 <= k <= costs@.len() ==> fits_i32(#[trigger] fold_costs(spec_op_cost(*enode), costs@.take(k))),
            r matches Some(c) ==> cost_as_int(c) == fold_costs(spec_op_cost(*enode), costs@),
    {
        let op_cost: Cost = match enode {
            SkiLang::ApplyAlpha(_) => (1, 0, 1),
            SkiLang::ApplyState(_) => (1, 0, 1),
            SkiLang::SomeFilterAndState(_) => (1, 0, 1),
            SkiLang::SrcOver(_) => (1, 0, 1),
            SkiLang::Merge(_) => (0, 1, 1),
            _ => (0, 0, 1),
        };
        let mut sum = op_cost;
        let mut i: usize = 0;
        assert(costs@.take(0) =~= Seq::<Cost>::empty());
        while i < costs.len()
            invariant
                i <= costs@.len(),
                forall|k: int| 0 <= k <= i ==> fits_i32(#[trigger] fold_costs(spec_op_cost(*enode), costs@.take(k))),
                cost_as_int(sum) == fold_costs(spec_op_cost(*enode), costs@.take(i as int)),
            decreases costs@.len() - i,
        {
            let c = costs[i];
            assert(costs@.take(i + 1).drop_last() =~= costs@.take(i as int));
            let s0: i64 = sum.0 as i64 + c.0 as i64;
            let s1: i64 = sum.1 as i64 + c.1 as i64;
            let s2: i64 = sum.2 as i64 + c.2 as i64;
            let lo: i64 = -2147483648;
            let hi: i64 = 2147483647;
            if s0 < lo || s0 > hi || s1 < lo || s1 > hi || s2 < lo || s2 > hi {
                assert(!fits_i32(fold_costs(spec_op_cost(*enode), costs@.take(i + 1))));
                return None;
            }
            sum = (s0 as i32, s1 as i32, s2 as i32);
            i = i + 1;
        }
        assert(costs@.take(costs@.len() as int) =~= costs@);
        Some(sum)
    }
}

/// The cost of a term: the cost of its root plus the costs of its
/// operands.
pub open spec fn spec_term_cost(t: SkiTerm) -> (int, int, int)
    decreases t,
{
    match t {
        SkiTerm::MergeParamsWithState(a, b) => sum3((0, 0, 1), spec_term_cost(*a), spec_term_cost(*b)),
        SkiTerm::SomeFilterAndState(a, b) => sum3((1, 0, 1), spec_term_cost(*a), spec_term_cost(*b)),
        SkiTerm::Concat(a, b) => sum3((0, 0, 1), spec_term_cost(*a), spec_term_cost(*b)),
        SkiTerm::Merge(a, b, c) => sum3(
            sum3((0, 1, 1), spec_term_cost(*a), spec_term_cost(*b)),
            spec_term_cost(*c),
            (0, 0, 0),
        ),
        SkiTerm::MatrixOp(a, b) => sum3((0, 0, 1), spec_term_cost(*a), spec_term_cost(*b)),
        SkiTerm::Concat44(a, b) => sum3((0, 0, 1), spec_term_cost(*a), spec_term_cost(*b)),
        SkiTerm::ClipRect(a, b) => sum3((0, 0, 1), spec_term_cost(*a), spec_term_cost(*b)),
        SkiTerm::ApplyState(a, b) => sum3((1, 0, 1), spec_term_cost(*a), spec_term_cost(*b)),
        SkiTerm::ApplyAlpha(a, b) => sum3((1, 0, 1), spec_term_cost(*a), spec_term_cost(*b)),
        SkiTerm::SrcOver(a, b) => sum3((1, 0, 1), spec_term_cost(*a), spec_term_cost(*b)),
        _ => (0, 0, 1),
    }
}

pub open spec fn sum3(a: (int, int, int), b: (int, int, int), c: (int, int, int)) -> (int, int, int) {
    (a.0 + b.0 + c.0, a.1 + b.1 + c.1, a.2 + b.2 + c.2)
}

/// Whether a term holds a virtual operation: an alpha, a state or a
/// filter applied to a surface, or a source-over.
pub open spec fn has_virtual_op(t: SkiTerm) -> bool
    decreases t,
{
    match t {
        SkiTerm::SomeFilterAndState(_, _) => true,
        SkiTerm::ApplyState(_, _) => true,
        SkiTerm::ApplyAlpha(_, _) => true,
        SkiTerm::SrcOver(_, _) => true,
        SkiTerm::MergeParamsWithState(a, b) => has_virtual_op(*a) || has_virtual_op(*b),
        SkiTerm::Concat(a, b) => has_virtual_op(*a) || has_virtual_op(*b),
        SkiTerm::Merge(a, b, c) => has_virtual_op(*a) || has_virtual_op(*b) || has_virtual_op(*c),
        SkiTerm::MatrixOp(a, b) => has_virtual_op(*a) || has_virtual_op(*b),
        SkiTerm::Concat44(a, b) => has_virtual_op(*a) || has_virtual_op(*b),
        SkiTerm::ClipRect(a, b) => has_virtual_op(*a) || has_virtual_op(*b),
        _ => false,
    }
}

/// Costs are never negative, and every node counts at least one.
pub proof fn lemma_term_cost_nonneg(t: SkiTerm)
    ensures
        spec_term_cost(t).0 >= 0,
        spec_term_cost(t).1 >= 0,
        spec_term_cost(t).2 >= 1,
    decreases t,
{
    match t {
        SkiTerm::MergeParamsWithState(a, b) | SkiTerm::SomeFilterAndState(a, b) | SkiTerm::Concat(a, b)
        | SkiTerm::MatrixOp(a, b) | SkiTerm::Concat44(a, b) | SkiTerm::ClipRect(a, b)
        | SkiTerm::ApplyState(a, b) | SkiTerm::ApplyAlpha(a, b) | SkiTerm::SrcOver(a, b) => {
            lemma_term_cost_nonneg(*a);
            lemma_term_cost_nonneg(*b);
        },
        SkiTerm::Merge(a, b, c) => {
            lemma_term_cost_nonneg(*a);
            lemma_term_cost_nonneg(*b);
            lemma_term_cost_nonneg(*c);
        },
        _ => {},
    }
}

/// The extraction cost puts every term without virtual operations before
/// every term with one: the first component of the cost is zero exactly
/// when the term holds no virtual operation.
pub proof fn lemma_cost_counts_virtual_ops(t: SkiTerm)
    ensures
        (spec_term_cost(t).0 == 0) <==> !has_virtual_op(t),
    decreases t,
{
    match t {
        SkiTerm::MergeParamsWithState(a, b) | SkiTerm::SomeFilterAndState(a, b) | SkiTerm::Concat(a, b)
        | SkiTerm::MatrixOp(a, b) | SkiTerm::Concat44(a, b) | SkiTerm::ClipRect(a, b)
        | SkiTerm::ApplyState(a, b) | SkiTerm::ApplyAlpha(a, b) | SkiTerm::SrcOver(a, b) => {
            lemma_cost_counts_virtual_ops(*a);
            lemma_cost_counts_virtual_ops(*b);
            lemma_term_cost_nonneg(*a);
            lemma_term_cost_nonneg(*b);
        },
        SkiTerm::Merge(a, b, c) => {
            lemma_cost_counts_virtual_ops(*a);
            lemma_cost_counts_virtual_ops(*b);
            lemma_cost_counts_virtual_ops(*c);
            lemma_term_cost_nonneg(*a);
            lemma_term_cost_nonneg(*b);
            lemma_term_cost_nonneg(*c);
        },
        _ => {},
    }
}


/// A rectangle read back from its `Bounds` message is the same rectangle.
pub proof fn lemma_rect_proto_round_trip(rect: SkiLangRect)
    requires
        rect.wf(),
    ensures
        SkiLangRect::bounds_are_numbers(rect.spec_to_proto()),
        SkiLangRect::spec_from_bounds_proto(rect.spec_to_proto()) == rect,
{
}

/// A `Bounds` message of numbers written back from its rectangle is the
/// same message.
pub proof fn lemma_bounds_proto_round_trip(bounds: Bounds)
    requires
        SkiLangRect::bounds_are_numbers(bounds),
    ensures
        SkiLangRect::spec_from_bounds_proto(bounds).spec_to_proto() == bounds,
{
}

/// A matrix read back from its entries is the same matrix.
pub proof fn lemma_m44_vec_round_trip(m: SkiLangM44)
    requires
        m.wf(),
    ensures
        sixteen_numbers(m.entries()),
        SkiLangM44::spec_from_vec(m.entries()) == m,
{
}

/// A paint read back from its `SkPaint` message is the same paint.
pub proof fn lemma_paint_proto_round_trip(paint: SkiLangPaint)
    ensures
        SkiLangPaint::spec_from_proto(paint.spec_to_proto()) == paint,
{
}

/// The cost that the extraction computes for a node, from the costs of
/// the terms of its operands, is the cost of the node's term.
pub proof fn lemma_node_cost_is_term_cost(s: Seq<SkiLang>, id: int, costs: Seq<Cost>)
    requires
        wf_nodes(s),
        0 <= id < s.len(),
        costs.len() == children(s[id]).len(),
        forall|k: int|
            0 <= k < costs.len() ==> cost_as_int(#[trigger] costs[k]) == spec_term_cost(
                term_of(s, id_index(children(s[id])[k]) as int),
            ),
    ensures
        fold_costs(spec_op_cost(s[id]), costs) == spec_term_cost(term_of(s, id)),
{
    reveal_with_fuel(fold_costs, 4);
    let n = s[id];
    assert(children_before(n, id));
    let c = children(n);
    if c.len() > 0 {
        assert(id_index(c[0]) < id);
        assert(operand_term(s, id, c[0]) == term_of(s, id_index(c[0]) as int));
    }
    if c.len() > 1 {
        assert(id_index(c[1]) < id);
        assert(operand_term(s, id, c[1]) == term_of(s, id_index(c[1]) as int));
    }
    if c.len() > 2 {
        assert(id_index(c[2]) < id);
        assert(operand_term(s, id, c[2]) == term_of(s, id_index(c[2]) as int));
    }
    if costs.len() == 2 {
        assert(costs.drop_last() =~= seq![costs[0]]);
        assert(seq![costs[0]].drop_last() =~= Seq::<Cost>::empty());
    }
    if costs.len() == 3 {
        assert(costs.drop_last() =~= seq![costs[0], costs[1]]);
        assert(seq![costs[0], costs[1]].drop_last() =~= seq![costs[0]]);
        assert(seq![costs[0]].drop_last() =~= Seq::<Cost>::empty());
    }
    match n {
        SkiLang::Merge(ids) => {
            assert(c[0] == ids[0] && c[1] == ids[1] && c[2] == ids[2]);
            assert(cost_as_int(costs[0]) == spec_term_cost(term_of(s, id_index(c[0]) as int)));
            assert(cost_as_int(costs[1]) == spec_term_cost(term_of(s, id_index(c[1]) as int)));
            assert(cost_as_int(costs[2]) == spec_term_cost(term_of(s, id_index(c[2]) as int)));
            let f1 = fold_costs(spec_op_cost(n), seq![costs[0]]);
            let f2 = fold_costs(spec_op_cost(n), seq![costs[0], costs[1]]);
            assert(f1 == add_cost(spec_op_cost(n), costs[0]));
            assert(f2 == add_cost(f1, costs[1]));
            assert(fold_costs(spec_op_cost(n), costs) == add_cost(f2, costs[2]));
        },
        SkiLang::MergeParamsWithState(ids) | SkiLang::SomeFilterAndState(ids) | SkiLang::Concat(ids)
        | SkiLang::MatrixOp(ids) | SkiLang::Concat44(ids) | SkiLang::ClipRect(ids)
        | SkiLang::ApplyState(ids) | SkiLang::ApplyAlpha(ids) | SkiLang::SrcOver(ids) => {
            assert(c[0] == ids[0] && c[1] == ids[1]);
        },
        _ => {},
    }
}

} // verus!
