//! Conversions between the protos of Skia and the parameter nodes of
//! expanded SkiLang: bounds, colors, paints and matrices become nodes, and
//! bounds, colors and paints are read back from them.
//!
//! Each function that builds appends nodes to an expression and returns
//! the position of the node it built; what that node stands for is stated
//! as a term. Each function that reads requires the term it reads to have
//! the shape it expects.
use vstd::prelude::*;

use crate::egg_expr::id_index;
use crate::expanded_ski_lang::{
    add_expanded, args, children, expanded_nodes, expanded_term, expanded_wf, extends, get_expanded,
    lemma_term_of_node, leaf, node_term, op, op_of, term_of, wf_nodes, ExpandedOp, ExpandedSkiLang, ExpandedTerm,
};
use crate::protos::sk_paint::{Blender, ColorFilter, ImageFilter, MaskFilter, PathEffect, Shader};
use crate::protos::{BlendMode, Bounds, SkColor, SkM44, SkPaint};
use crate::ski_lang::{sixteen_numbers, SkiLangM44, SkiLangRect};

verus! {

/// `after` is `before` with nodes appended, the last of which, at `id`,
/// stands for `t`; the nodes of `before` keep their terms.
pub open spec fn added(before: Seq<ExpandedSkiLang>, after: Seq<ExpandedSkiLang>, id: egg::Id, t: ExpandedTerm) -> bool {
    &&& wf_nodes(after)
    &&& extends(before, after)
    &&& before.len() <= id_index(id) < after.len()
    &&& term_of(after, id_index(id) as int) == t
    &&& forall|i: int| 0 <= i < before.len() ==> #[trigger] term_of(after, i) == term_of(before, i)
}

pub open spec fn num_term(v: i32) -> ExpandedTerm {
    leaf(ExpandedOp::Num(v))
}

pub open spec fn bool_term(v: bool) -> ExpandedTerm {
    leaf(ExpandedOp::Bool(v))
}

/// The term of an ARGB color.
pub open spec fn color_term(a: i32, r: i32, g: i32, b: i32) -> ExpandedTerm {
    ExpandedTerm::Node(ExpandedOp::Color, seq![num_term(a), num_term(r), num_term(g), num_term(b)])
}

/// The blend mode operator of a blend mode number: source-over, source,
/// or unknown for any other number.
pub open spec fn blend_mode_op(mode: i32) -> ExpandedOp {
    if mode == BlendMode::SrcOver.spec_value() {
        ExpandedOp::BlendModeSrcOver
    } else if mode == BlendMode::Src.spec_value() {
        ExpandedOp::BlendModeSrc
    } else {
        ExpandedOp::BlendModeUnknown
    }
}

/// The term of an effect of a paint (`o` names which one), recording only
/// whether it is present.
pub open spec fn effect_term(o: ExpandedOp, exists: bool) -> ExpandedTerm {
    ExpandedTerm::Node(o, seq![bool_term(exists)])
}

/// The term of a paint message. A missing paint or a missing color is
/// opaque black; a missing blender is source-over.
pub open spec fn spec_paint_term(sk_paint: Option<SkPaint>) -> ExpandedTerm {
    let color = match sk_paint {
        Some(p) => match p.color {
            Some(c) => color_term(c.alpha_u8, c.red_u8, c.green_u8, c.blue_u8),
            None => color_term(255, 0, 0, 0),
        },
        None => color_term(255, 0, 0, 0),
    };
    let blend_mode = match sk_paint {
        Some(p) => match p.blender {
            Some(b) => blend_mode_op(b.blend_mode),
            None => ExpandedOp::BlendModeSrcOver,
        },
        None => ExpandedOp::BlendModeSrcOver,
    };
    let has = |f: bool| sk_paint is Some && f;
    ExpandedTerm::Node(
        ExpandedOp::Paint,
        seq![
            color,
            ExpandedTerm::Node(ExpandedOp::Blender, seq![leaf(blend_mode)]),
            effect_term(ExpandedOp::ImageFilter, has(sk_paint->0.image_filter is Some)),
            effect_term(ExpandedOp::ColorFilter, has(sk_paint->0.color_filter is Some)),
            effect_term(ExpandedOp::PathEffect, has(sk_paint->0.path_effect is Some)),
            effect_term(ExpandedOp::MaskFilter, has(sk_paint->0.mask_filter is Some)),
            effect_term(ExpandedOp::Shader, has(sk_paint->0.shader is Some)),
        ],
    )
}

/// The term of the rectangle of a `Bounds` message.
pub open spec fn rect_term(b: Bounds) -> ExpandedTerm {
    leaf(ExpandedOp::Rect(SkiLangRect::spec_from_bounds_proto(b)))
}

/// The term of optional bounds: whether they exist, and their rectangle
/// or a no-op.
pub open spec fn spec_bounds_term(bounds: Option<Bounds>) -> ExpandedTerm {
    match bounds {
        Some(b) => ExpandedTerm::Node(ExpandedOp::Bounds, seq![bool_term(true), rect_term(b)]),
        None => ExpandedTerm::Node(ExpandedOp::Bounds, seq![bool_term(false), leaf(ExpandedOp::NoOp)]),
    }
}

/// The number of nodes of the term of optional bounds.
pub open spec fn bounds_nodes(bounds: Option<Bounds>) -> int {
    if bounds is Some {
        4
    } else {
        3
    }
}

/// Bounds that can be converted: absent, or with no side a NaN.
pub open spec fn bounds_convertible(bounds: Option<Bounds>) -> bool {
    bounds matches Some(b) ==> SkiLangRect::bounds_are_numbers(b)
}

/// Two appends in a row are one append, after which the node of the first
/// keeps its term.
pub proof fn lemma_added_then(
    s0: Seq<ExpandedSkiLang>,
    s1: Seq<ExpandedSkiLang>,
    s2: Seq<ExpandedSkiLang>,
    id1: egg::Id,
    t1: ExpandedTerm,
    id2: egg::Id,
    t2: ExpandedTerm,
)
    requires
        added(s0, s1, id1, t1),
        added(s1, s2, id2, t2),
    ensures
        added(s0, s2, id2, t2),
        term_of(s2, id_index(id1) as int) == t1,
        id_index(id1) < id_index(id2),
{
    crate::expanded_ski_lang::lemma_extends_trans(s0, s1, s2);
}

/// Appends a node without operands.
pub(crate) fn add_leaf(expr: &mut egg::RecExpr<ExpandedSkiLang>, node: ExpandedSkiLang) -> (id: egg::Id)
    requires
        expanded_wf(*old(expr)),
        children(node).len() == 0,
        expanded_nodes(*old(expr)).len() < u32::MAX,
    ensures
        added(expanded_nodes(*old(expr)), expanded_nodes(*final(expr)), id, leaf(op(node))),
        expanded_nodes(*final(expr)).len() == expanded_nodes(*old(expr)).len() + 1,
{
    let id = add_expanded(expr, node);
    assert(args(node_term(expanded_nodes(*old(expr)), node)) =~= Seq::<ExpandedTerm>::empty());
    id
}

/// Appends a node whose operands stand for the terms `ts`.
pub(crate) fn add_with(expr: &mut egg::RecExpr<ExpandedSkiLang>, node: ExpandedSkiLang, Ghost(ts): Ghost<Seq<ExpandedTerm>>) -> (id: egg::Id)
    requires
        expanded_wf(*old(expr)),
        expanded_nodes(*old(expr)).len() < u32::MAX,
        children(node).len() == ts.len(),
        forall|k: int|
            0 <= k < ts.len() ==> id_index(#[trigger] children(node)[k]) < expanded_nodes(*old(expr)).len()
                && term_of(expanded_nodes(*old(expr)), id_index(children(node)[k]) as int) == ts[k],
    ensures
        added(expanded_nodes(*old(expr)), expanded_nodes(*final(expr)), id, ExpandedTerm::Node(op(node), ts)),
        expanded_nodes(*final(expr)).len() == expanded_nodes(*old(expr)).len() + 1,
{
    let id = add_expanded(expr, node);
    proof {
        let s = expanded_nodes(*old(expr));
        assert(crate::expanded_ski_lang::children_before(node, s.len() as int));
        assert(args(node_term(s, node)) =~= ts);
    }
    id
}

/// The rectangle of bounds that must exist, none of whose sides is a NaN.
pub fn bounds_proto_to_rect(bounds: &Option<Bounds>) -> (rect: SkiLangRect)
    requires
        bounds is Some,
        SkiLangRect::bounds_are_numbers(bounds->0),
    ensures
        rect == SkiLangRect::spec_from_bounds_proto(bounds->0),
        rect.wf(),
{
    match bounds {
        Some(bounds) => SkiLangRect::from_bounds_proto(bounds),
        None => {
            assert(false);
            SkiLangRect::empty()
        },
    }
}

/// Appends the rectangle of bounds that must exist (after an unused flag
/// node), and returns the position of the rectangle.
pub fn bounds_proto_to_rect_expr(expr: &mut egg::RecExpr<ExpandedSkiLang>, bounds: &Option<Bounds>) -> (id: egg::Id)
    requires
        expanded_wf(*old(expr)),
        expanded_nodes(*old(expr)).len() + 2 <= u32::MAX,
        bounds is Some,
        SkiLangRect::bounds_are_numbers(bounds->0),
    ensures
        added(expanded_nodes(*old(expr)), expanded_nodes(*final(expr)), id, rect_term(bounds->0)),
        expanded_nodes(*final(expr)).len() == expanded_nodes(*old(expr)).len() + 2,
{
    let ghost s0 = expanded_nodes(*expr);
    let bounds_exist = add_leaf(expr, ExpandedSkiLang::Bool(true));
    let ghost s1 = expanded_nodes(*expr);
    let rect = bounds_proto_to_rect(bounds);
    let id = add_leaf(expr, ExpandedSkiLang::Rect(rect));
    proof {
        lemma_added_then(s0, s1, expanded_nodes(*expr), bounds_exist, bool_term(true), id, rect_term(bounds->0));
    }
    id
}

/// Appends the term of optional bounds.
pub fn bounds_proto_to_expr(expr: &mut egg::RecExpr<ExpandedSkiLang>, bounds: &Option<Bounds>) -> (id: egg::Id)
    requires
        expanded_wf(*old(expr)),
        expanded_nodes(*old(expr)).len() + bounds_nodes(*bounds) <= u32::MAX,
        bounds_convertible(*bounds),
    ensures
        added(expanded_nodes(*old(expr)), expanded_nodes(*final(expr)), id, spec_bounds_term(*bounds)),
        expanded_nodes(*final(expr)).len() == expanded_nodes(*old(expr)).len() + bounds_nodes(*bounds),
{
    let ghost s0 = expanded_nodes(*expr);
    match bounds {
        Some(_) => {
            let bounds_exist = add_leaf(expr, ExpandedSkiLang::Bool(true));
            let ghost s1 = expanded_nodes(*expr);
            let rect = bounds_proto_to_rect_expr(expr, bounds);
            let ghost s2 = expanded_nodes(*expr);
            proof {
                lemma_added_then(s0, s1, s2, bounds_exist, bool_term(true), rect, rect_term(bounds->0));
            }
            let ghost ts = seq![bool_term(true), rect_term(bounds->0)];
            let id = add_with(expr, ExpandedSkiLang::Bounds([bounds_exist, rect]), Ghost(ts));
            proof {
                lemma_added_then(s0, s2, expanded_nodes(*expr), rect, rect_term(bounds->0), id, spec_bounds_term(*bounds));
            }
            id
        },
        None => {
            let bounds_exist = add_leaf(expr, ExpandedSkiLang::Bool(false));
            let ghost s1 = expanded_nodes(*expr);
            let no_op = add_leaf(expr, ExpandedSkiLang::NoOp);
            let ghost s2 = expanded_nodes(*expr);
            proof {
                lemma_added_then(s0, s1, s2, bounds_exist, bool_term(false), no_op, leaf(ExpandedOp::NoOp));
            }
            let ghost ts = seq![bool_term(false), leaf(ExpandedOp::NoOp)];
            let id = add_with(expr, ExpandedSkiLang::Bounds([bounds_exist, no_op]), Ghost(ts));
            proof {
                lemma_added_then(s0, s2, expanded_nodes(*expr), no_op, leaf(ExpandedOp::NoOp), id, spec_bounds_term(*bounds));
            }
            id
        },
    }
}

/// The effects of a paint.
enum Effect {
    ImageFilter,
    ColorFilter,
    PathEffect,
    MaskFilter,
    Shader,
}

/// The operator of the term of an effect.
spec fn effect_op(e: Effect) -> ExpandedOp {
    match e {
        Effect::ImageFilter => ExpandedOp::ImageFilter,
        Effect::ColorFilter => ExpandedOp::ColorFilter,
        Effect::PathEffect => ExpandedOp::PathEffect,
        Effect::MaskFilter => ExpandedOp::MaskFilter,
        Effect::Shader => ExpandedOp::Shader,
    }
}

/// Appends the term of the effect `effect` of a paint, whose flag is
/// `exists`.
fn flag_to_expr(expr: &mut egg::RecExpr<ExpandedSkiLang>, exists: bool, effect: Effect) -> (id: egg::Id)
    requires
        expanded_wf(*old(expr)),
        expanded_nodes(*old(expr)).len() + 2 <= u32::MAX,
    ensures
        added(expanded_nodes(*old(expr)), expanded_nodes(*final(expr)), id, effect_term(effect_op(effect), exists)),
        expanded_nodes(*final(expr)).len() == expanded_nodes(*old(expr)).len() + 2,
{
    let ghost s0 = expanded_nodes(*expr);
    let e = add_leaf(expr, ExpandedSkiLang::Bool(exists));
    let ghost s1 = expanded_nodes(*expr);
    let node = match effect {
        Effect::ImageFilter => ExpandedSkiLang::ImageFilter([e]),
        Effect::ColorFilter => ExpandedSkiLang::ColorFilter([e]),
        Effect::PathEffect => ExpandedSkiLang::PathEffect([e]),
        Effect::MaskFilter => ExpandedSkiLang::MaskFilter([e]),
        Effect::Shader => ExpandedSkiLang::Shader([e]),
    };
    let ghost ts = seq![bool_term(exists)];
    let id = add_with(expr, node, Ghost(ts));
    proof {
        lemma_added_then(s0, s1, expanded_nodes(*expr), e, bool_term(exists), id, effect_term(effect_op(effect), exists));
    }
    id
}

/// Appends the term of a paint message.
pub fn paint_proto_to_expr(expr: &mut egg::RecExpr<ExpandedSkiLang>, sk_paint: &Option<SkPaint>) -> (id: egg::Id)
    requires
        expanded_wf(*old(expr)),
        expanded_nodes(*old(expr)).len() + 18 <= u32::MAX,
    ensures
        added(expanded_nodes(*old(expr)), expanded_nodes(*final(expr)), id, spec_paint_term(*sk_paint)),
        expanded_nodes(*final(expr)).len() == expanded_nodes(*old(expr)).len() + 18,
{
    let ghost t = spec_paint_term(*sk_paint);
    let ghost s0 = expanded_nodes(*expr);
    let color = match sk_paint {
        Some(p) => match &p.color {
            Some(c) => color_proto_to_expr(expr, c.alpha_u8, c.red_u8, c.green_u8, c.blue_u8),
            None => color_proto_to_expr(expr, 255, 0, 0, 0),
        },
        None => color_proto_to_expr(expr, 255, 0, 0, 0),
    };
    let ghost s1 = expanded_nodes(*expr);
    let blend_mode_node = match sk_paint {
        Some(p) => match &p.blender {
            Some(blender) => {
                if blender.blend_mode == BlendMode::SrcOver.value() {
                    ExpandedSkiLang::BlendModeSrcOver
                } else if blender.blend_mode == BlendMode::Src.value() {
                    ExpandedSkiLang::BlendModeSrc
                } else {
                    ExpandedSkiLang::BlendModeUnknown
                }
            },
            None => ExpandedSkiLang::BlendModeSrcOver,
        },
        None => ExpandedSkiLang::BlendModeSrcOver,
    };
    let blend_mode = add_leaf(expr, blend_mode_node);
    let ghost s2 = expanded_nodes(*expr);
    proof {
        lemma_added_then(s0, s1, s2, color, args(t)[0], blend_mode, leaf(op(blend_mode_node)));
    }
    let ghost ts = seq![leaf(op(blend_mode_node))];
    let blender = add_with(expr, ExpandedSkiLang::Blender([blend_mode]), Ghost(ts));
    let ghost s3 = expanded_nodes(*expr);
    proof {
        lemma_added_then(s0, s2, s3, blend_mode, leaf(op(blend_mode_node)), blender, args(t)[1]);
    }
    let (image_filter, color_filter, path_effect, mask_filter, shader) = match sk_paint {
        Some(p) => (
            p.image_filter.is_some(),
            p.color_filter.is_some(),
            p.path_effect.is_some(),
            p.mask_filter.is_some(),
            p.shader.is_some(),
        ),
        None => (false, false, false, false, false),
    };
    let image_filter = flag_to_expr(expr, image_filter, Effect::ImageFilter);
    let ghost s4 = expanded_nodes(*expr);
    proof {
        lemma_added_then(s0, s3, s4, blender, args(t)[1], image_filter, args(t)[2]);
    }
    let color_filter = flag_to_expr(expr, color_filter, Effect::ColorFilter);
    let ghost s5 = expanded_nodes(*expr);
    proof {
        lemma_added_then(s0, s4, s5, image_filter, args(t)[2], color_filter, args(t)[3]);
    }
    let path_effect = flag_to_expr(expr, path_effect, Effect::PathEffect);
    let ghost s6 = expanded_nodes(*expr);
    proof {
        lemma_added_then(s0, s5, s6, color_filter, args(t)[3], path_effect, args(t)[4]);
    }
    let mask_filter = flag_to_expr(expr, mask_filter, Effect::MaskFilter);
    let ghost s7 = expanded_nodes(*expr);
    proof {
        lemma_added_then(s0, s6, s7, path_effect, args(t)[4], mask_filter, args(t)[5]);
    }
    let shader = flag_to_expr(expr, shader, Effect::Shader);
    let ghost s8 = expanded_nodes(*expr);
    proof {
        lemma_added_then(s0, s7, s8, mask_filter, args(t)[5], shader, args(t)[6]);
    }
    let id = add_with(
        expr,
        ExpandedSkiLang::Paint([color, blender, image_filter, color_filter, path_effect, mask_filter, shader]),
        Ghost(args(t)),
    );
    proof {
        lemma_added_then(s0, s8, expanded_nodes(*expr), shader, args(t)[6], id, t);
    }
    id
}

/// Appends the term of an ARGB color.
pub fn color_proto_to_expr(expr: &mut egg::RecExpr<ExpandedSkiLang>, a_val: i32, r_val: i32, g_val: i32, b_val: i32) -> (id: egg::Id)
    requires
        expanded_wf(*old(expr)),
        expanded_nodes(*old(expr)).len() + 5 <= u32::MAX,
    ensures
        added(expanded_nodes(*old(expr)), expanded_nodes(*final(expr)), id, color_term(a_val, r_val, g_val, b_val)),
        expanded_nodes(*final(expr)).len() == expanded_nodes(*old(expr)).len() + 5,
{
    let ghost s0 = expanded_nodes(*expr);
    let a = add_leaf(expr, ExpandedSkiLang::Num(a_val));
    let ghost s1 = expanded_nodes(*expr);
    let r = add_leaf(expr, ExpandedSkiLang::Num(r_val));
    let ghost s2 = expanded_nodes(*expr);
    let g = add_leaf(expr, ExpandedSkiLang::Num(g_val));
    let ghost s3 = expanded_nodes(*expr);
    let b = add_leaf(expr, ExpandedSkiLang::Num(b_val));
    let ghost s4 = expanded_nodes(*expr);
    proof {
        lemma_added_then(s0, s1, s2, a, num_term(a_val), r, num_term(r_val));
        lemma_added_then(s0, s2, s3, r, num_term(r_val), g, num_term(g_val));
        lemma_added_then(s0, s3, s4, g, num_term(g_val), b, num_term(b_val));
    }
    let ghost ts = seq![num_term(a_val), num_term(r_val), num_term(g_val), num_term(b_val)];
    let id = add_with(expr, ExpandedSkiLang::Color([a, r, g, b]), Ghost(ts));
    proof {
        lemma_added_then(s0, s4, expanded_nodes(*expr), b, num_term(b_val), id, color_term(a_val, r_val, g_val, b_val));
    }
    id
}

/// Appends the matrix of an `SkM44` message that must exist and hold at
/// least sixteen values, none a NaN.
pub fn skm44_to_expr(expr: &mut egg::RecExpr<ExpandedSkiLang>, sk_m44: &Option<SkM44>) -> (id: egg::Id)
    requires
        expanded_wf(*old(expr)),
        expanded_nodes(*old(expr)).len() + 1 <= u32::MAX,
        sk_m44 is Some,
        sixteen_numbers(sk_m44->0.m@),
    ensures
        added(
            expanded_nodes(*old(expr)),
            expanded_nodes(*final(expr)),
            id,
            leaf(ExpandedOp::M44(SkiLangM44::spec_from_vec(sk_m44->0.m@))),
        ),
        expanded_nodes(*final(expr)).len() == expanded_nodes(*old(expr)).len() + 1,
{
    match sk_m44 {
        Some(m) => {
            let mat = SkiLangM44::from_skm44_proto(m);
            add_leaf(expr, ExpandedSkiLang::M44(mat))
        },
        None => {
            assert(false);
            add_leaf(expr, ExpandedSkiLang::NoOp)
        },
    }
}

/// A number without operands.
pub open spec fn is_num_term(t: ExpandedTerm) -> bool {
    op_of(t) is Num && args(t).len() == 0
}

pub open spec fn num_of(t: ExpandedTerm) -> i32 {
    op_of(t)->Num_0
}

/// A flag without operands.
pub open spec fn is_bool_term(t: ExpandedTerm) -> bool {
    op_of(t) is Bool && args(t).len() == 0
}

pub open spec fn bool_of(t: ExpandedTerm) -> bool {
    op_of(t)->Bool_0
}

/// One of the three blend modes.
pub open spec fn is_blend_mode_op(o: ExpandedOp) -> bool {
    o is BlendModeSrc || o is BlendModeSrcOver || o is BlendModeUnknown
}

/// The number of a blend mode operator.
pub open spec fn blend_mode_of(o: ExpandedOp) -> i32 {
    match o {
        ExpandedOp::BlendModeSrc => BlendMode::Src.spec_value(),
        ExpandedOp::BlendModeSrcOver => BlendMode::SrcOver.spec_value(),
        _ => BlendMode::Unknown.spec_value(),
    }
}

/// A color of four numbers.
pub open spec fn is_color_term(t: ExpandedTerm) -> bool {
    &&& op_of(t) == ExpandedOp::Color
    &&& args(t).len() == 4
    &&& is_num_term(args(t)[0])
    &&& is_num_term(args(t)[1])
    &&& is_num_term(args(t)[2])
    &&& is_num_term(args(t)[3])
}

/// The color message of a color term.
pub open spec fn spec_color_of_term(t: ExpandedTerm) -> SkColor {
    SkColor {
        alpha_u8: num_of(args(t)[0]),
        red_u8: num_of(args(t)[1]),
        green_u8: num_of(args(t)[2]),
        blue_u8: num_of(args(t)[3]),
    }
}

/// An effect `o` of a paint with its flag.
pub open spec fn is_effect_term(t: ExpandedTerm, o: ExpandedOp) -> bool {
    &&& op_of(t) == o
    &&& args(t).len() == 1
    &&& is_bool_term(args(t)[0])
}

/// The flag of an effect term.
pub open spec fn effect_of(t: ExpandedTerm) -> bool {
    bool_of(args(t)[0])
}

/// A paint: a color, a blender with its blend mode, and the flags of its
/// five effects.
pub open spec fn is_paint_term(t: ExpandedTerm) -> bool {
    let a = args(t);
    &&& op_of(t) == ExpandedOp::Paint
    &&& a.len() == 7
    &&& is_color_term(a[0])
    &&& op_of(a[1]) == ExpandedOp::Blender
    &&& args(a[1]).len() == 1
    &&& is_blend_mode_op(op_of(args(a[1])[0]))
    &&& args(args(a[1])[0]).len() == 0
    &&& is_effect_term(a[2], ExpandedOp::ImageFilter)
    &&& is_effect_term(a[3], ExpandedOp::ColorFilter)
    &&& is_effect_term(a[4], ExpandedOp::PathEffect)
    &&& is_effect_term(a[5], ExpandedOp::MaskFilter)
    &&& is_effect_term(a[6], ExpandedOp::Shader)
}

/// The paint message of a paint term: its color, its blend mode, and an
/// empty message for each effect whose flag is set.
pub open spec fn spec_paint_of_term(t: ExpandedTerm) -> SkPaint {
    let a = args(t);
    SkPaint {
        color: Some(spec_color_of_term(a[0])),
        blender: Some(Blender { blend_mode: blend_mode_of(op_of(args(a[1])[0])) }),
        image_filter: if effect_of(a[2]) { Some(ImageFilter {  }) } else { None },
        color_filter: if effect_of(a[3]) { Some(ColorFilter {  }) } else { None },
        path_effect: if effect_of(a[4]) { Some(PathEffect {  }) } else { None },
        mask_filter: if effect_of(a[5]) { Some(MaskFilter {  }) } else { None },
        shader: if effect_of(a[6]) { Some(Shader {  }) } else { None },
    }
}

/// Bounds: a flag, and a rectangle where the flag is set.
pub open spec fn is_bounds_term(t: ExpandedTerm) -> bool {
    &&& op_of(t) == ExpandedOp::Bounds
    &&& args(t).len() == 2
    &&& is_bool_term(args(t)[0])
    &&& (bool_of(args(t)[0]) ==> op_of(args(t)[1]) is Rect)
}

/// The bounds message of a bounds term, if its flag is set.
pub open spec fn spec_bounds_of_term(t: ExpandedTerm) -> Option<Bounds> {
    if bool_of(args(t)[0]) {
        Some(op_of(args(t)[1])->Rect_0.spec_to_proto())
    } else {
        None
    }
}

/// The flag at `id`.
pub fn get_exists_value(expr: &egg::RecExpr<ExpandedSkiLang>, id: egg::Id) -> (b: bool)
    requires
        expanded_wf(*expr),
        id_index(id) < expanded_nodes(*expr).len(),
        op_of(expanded_term(*expr, id)) is Bool,
    ensures
        b == bool_of(expanded_term(*expr, id)),
{
    proof {
        lemma_term_of_node(expanded_nodes(*expr), id_index(id) as int);
    }
    match get_expanded(expr, id) {
        ExpandedSkiLang::Bool(value) => *value,
        _ => {
            assert(false);
            false
        },
    }
}

/// The number at `id`.
fn get_num(expr: &egg::RecExpr<ExpandedSkiLang>, id: egg::Id) -> (v: i32)
    requires
        expanded_wf(*expr),
        id_index(id) < expanded_nodes(*expr).len(),
        op_of(expanded_term(*expr, id)) is Num,
    ensures
        v == num_of(expanded_term(*expr, id)),
{
    proof {
        lemma_term_of_node(expanded_nodes(*expr), id_index(id) as int);
    }
    match get_expanded(expr, id) {
        ExpandedSkiLang::Num(value) => *value,
        _ => {
            assert(false);
            0
        },
    }
}

/// The number of the blend mode at `id`.
pub fn get_blend_mode(expr: &egg::RecExpr<ExpandedSkiLang>, id: egg::Id) -> (mode: i32)
    requires
        expanded_wf(*expr),
        id_index(id) < expanded_nodes(*expr).len(),
        is_blend_mode_op(op_of(expanded_term(*expr, id))),
    ensures
        mode == blend_mode_of(op_of(expanded_term(*expr, id))),
{
    proof {
        lemma_term_of_node(expanded_nodes(*expr), id_index(id) as int);
    }
    match get_expanded(expr, id) {
        ExpandedSkiLang::BlendModeSrc => BlendMode::Src.value(),
        ExpandedSkiLang::BlendModeSrcOver => BlendMode::SrcOver.value(),
        ExpandedSkiLang::BlendModeUnknown => BlendMode::Unknown.value(),
        _ => {
            assert(false);
            BlendMode::Unknown.value()
        },
    }
}

/// The bounds message of the rectangle at `id`.
pub fn unpack_rect_to_bounds(expr: &egg::RecExpr<ExpandedSkiLang>, id: egg::Id) -> (bounds: Bounds)
    requires
        expanded_wf(*expr),
        id_index(id) < expanded_nodes(*expr).len(),
        op_of(expanded_term(*expr, id)) is Rect,
    ensures
        bounds == op_of(expanded_term(*expr, id))->Rect_0.spec_to_proto(),
{
    proof {
        lemma_term_of_node(expanded_nodes(*expr), id_index(id) as int);
    }
    match get_expanded(expr, id) {
        ExpandedSkiLang::Rect(rect) => rect.to_proto(),
        _ => {
            assert(false);
            SkiLangRect::empty().to_proto()
        },
    }
}

/// The bit pattern of the double at `id`.
pub fn unpack_float(expr: &egg::RecExpr<ExpandedSkiLang>, id: egg::Id) -> (v: u64)
    requires
        expanded_wf(*expr),
        id_index(id) < expanded_nodes(*expr).len(),
        op_of(expanded_term(*expr, id)) is Float,
    ensures
        v == op_of(expanded_term(*expr, id))->Float_0,
{
    proof {
        lemma_term_of_node(expanded_nodes(*expr), id_index(id) as int);
    }
    match get_expanded(expr, id) {
        ExpandedSkiLang::Float(value) => *value,
        _ => {
            assert(false);
            0
        },
    }
}

/// The bounds message of the bounds at `id`, if they exist.
pub fn bounds_expr_to_proto(expr: &egg::RecExpr<ExpandedSkiLang>, id: egg::Id) -> (bounds: Option<Bounds>)
    requires
        expanded_wf(*expr),
        id_index(id) < expanded_nodes(*expr).len(),
        is_bounds_term(expanded_term(*expr, id)),
    ensures
        bounds == spec_bounds_of_term(expanded_term(*expr, id)),
{
    let ghost s = expanded_nodes(*expr);
    proof {
        lemma_term_of_node(s, id_index(id) as int);
    }
    match get_expanded(expr, id) {
        ExpandedSkiLang::Bounds(ids) => {
            assert(children(s[id_index(id) as int])[0] == ids[0] && children(s[id_index(id) as int])[1] == ids[1]);
            assert(crate::expanded_ski_lang::children_before(s[id_index(id) as int], id_index(id) as int));
            if get_exists_value(expr, ids[0]) {
                Some(unpack_rect_to_bounds(expr, ids[1]))
            } else {
                None
            }
        },
        _ => {
            assert(false);
            None
        },
    }
}

/// The color message of the color at `id`.
pub fn color_expr_to_proto(expr: &egg::RecExpr<ExpandedSkiLang>, id: egg::Id) -> (color: SkColor)
    requires
        expanded_wf(*expr),
        id_index(id) < expanded_nodes(*expr).len(),
        is_color_term(expanded_term(*expr, id)),
    ensures
        color == spec_color_of_term(expanded_term(*expr, id)),
{
    let ghost s = expanded_nodes(*expr);
    proof {
        lemma_term_of_node(s, id_index(id) as int);
    }
    match get_expanded(expr, id) {
        ExpandedSkiLang::Color(ids) => {
            assert(crate::expanded_ski_lang::children_before(s[id_index(id) as int], id_index(id) as int));
            assert(children(s[id_index(id) as int])[0] == ids[0] && children(s[id_index(id) as int])[1] == ids[1]);
            assert(children(s[id_index(id) as int])[2] == ids[2] && children(s[id_index(id) as int])[3] == ids[3]);
            let alpha_u8 = get_num(expr, ids[0]);
            let red_u8 = get_num(expr, ids[1]);
            let green_u8 = get_num(expr, ids[2]);
            let blue_u8 = get_num(expr, ids[3]);
            SkColor { alpha_u8, red_u8, green_u8, blue_u8 }
        },
        _ => {
            assert(false);
            SkColor { alpha_u8: 0, red_u8: 0, green_u8: 0, blue_u8: 0 }
        },
    }
}

/// The flag of the effect at `id`.
fn effect_exists(expr: &egg::RecExpr<ExpandedSkiLang>, id: egg::Id, Ghost(o): Ghost<ExpandedOp>) -> (b: bool)
    requires
        expanded_wf(*expr),
        id_index(id) < expanded_nodes(*expr).len(),
        is_effect_term(expanded_term(*expr, id), o),
    ensures
        b == effect_of(expanded_term(*expr, id)),
{
    let ghost s = expanded_nodes(*expr);
    proof {
        lemma_term_of_node(s, id_index(id) as int);
        assert(crate::expanded_ski_lang::children_before(s[id_index(id) as int], id_index(id) as int));
        assert(children(s[id_index(id) as int]).len() == 1);
    }
    let flag = match get_expanded(expr, id) {
        ExpandedSkiLang::ImageFilter(ids) => ids[0],
        ExpandedSkiLang::ColorFilter(ids) => ids[0],
        ExpandedSkiLang::PathEffect(ids) => ids[0],
        ExpandedSkiLang::MaskFilter(ids) => ids[0],
        ExpandedSkiLang::Shader(ids) => ids[0],
        ExpandedSkiLang::Blender(ids) => ids[0],
        ExpandedSkiLang::Backdrop(ids) => ids[0],
        ExpandedSkiLang::MatrixOpParams(ids) => ids[0],
        _ => {
            assert(false);
            return false;
        },
    };
    assert(flag == children(s[id_index(id) as int])[0]);
    get_exists_value(expr, flag)
}

/// The paint message of the paint at `id`.
pub fn paint_expr_to_proto(expr: &egg::RecExpr<ExpandedSkiLang>, id: egg::Id) -> (p: SkPaint)
    requires
        expanded_wf(*expr),
        id_index(id) < expanded_nodes(*expr).len(),
        is_paint_term(expanded_term(*expr, id)),
    ensures
        p == spec_paint_of_term(expanded_term(*expr, id)),
{
    let ghost s = expanded_nodes(*expr);
    let ghost a = args(expanded_term(*expr, id));
    proof {
        lemma_term_of_node(s, id_index(id) as int);
        assert(crate::expanded_ski_lang::children_before(s[id_index(id) as int], id_index(id) as int));
    }
    let paint_param_ids = match get_expanded(expr, id) {
        ExpandedSkiLang::Paint(ids) => *ids,
        _ => {
            assert(false);
            return SkPaint {
                color: None,
                blender: None,
                image_filter: None,
                color_filter: None,
                path_effect: None,
                mask_filter: None,
                shader: None,
            };
        },
    };
    assert(forall|k: int| 0 <= k < 7 ==> paint_param_ids[k] == #[trigger] children(s[id_index(id) as int])[k]);
    let color = Some(color_expr_to_proto(expr, paint_param_ids[0]));
    let ghost blender_id = paint_param_ids[1];
    proof {
        lemma_term_of_node(s, id_index(blender_id) as int);
        assert(crate::expanded_ski_lang::children_before(s[id_index(blender_id) as int], id_index(blender_id) as int));
    }
    let blend_mode = match get_expanded(expr, paint_param_ids[1]) {
        ExpandedSkiLang::Blender(ids) => {
            assert(ids[0] == children(s[id_index(blender_id) as int])[0]);
            get_blend_mode(expr, ids[0])
        },
        _ => {
            assert(false);
            BlendMode::Unknown.value()
        },
    };
    let image_filter_exists = effect_exists(expr, paint_param_ids[2], Ghost(ExpandedOp::ImageFilter));
    let color_filter_exists = effect_exists(expr, paint_param_ids[3], Ghost(ExpandedOp::ColorFilter));
    let path_effect_exists = effect_exists(expr, paint_param_ids[4], Ghost(ExpandedOp::PathEffect));
    let mask_filter_exists = effect_exists(expr, paint_param_ids[5], Ghost(ExpandedOp::MaskFilter));
    let shader_exists = effect_exists(expr, paint_param_ids[6], Ghost(ExpandedOp::Shader));
    SkPaint {
        color,
        blender: Some(Blender { blend_mode }),
        image_filter: if image_filter_exists {
            Some(ImageFilter {  })
        } else {
            None
        },
        color_filter: if color_filter_exists {
            Some(ColorFilter {  })
        } else {
            None
        },
        path_effect: if path_effect_exists {
            Some(PathEffect {  })
        } else {
            None
        },
        mask_filter: if mask_filter_exists {
            Some(MaskFilter {  })
        } else {
            None
        },
        shader: if shader_exists {
            Some(Shader {  })
        } else {
            None
        },
    }
}

/// A term without operands is the leaf of its operator.
proof fn lemma_leaf(t: ExpandedTerm)
    requires
        args(t).len() == 0,
    ensures
        t == leaf(op_of(t)),
{
    assert(args(t) =~= args(leaf(op_of(t))));
}

/// A term is its operator applied to its operands.
proof fn lemma_node(t: ExpandedTerm, a: Seq<ExpandedTerm>)
    requires
        args(t) == a,
    ensures
        t == ExpandedTerm::Node(op_of(t), a),
{
}

/// The term of every paint message, present or not, has the shape of a
/// paint.
pub proof fn lemma_paint_term_is_paint(sk_paint: Option<SkPaint>)
    ensures
        is_paint_term(spec_paint_term(sk_paint)),
{
}

/// The term of bounds that can be converted has the shape of bounds, and
/// reads back as the same bounds.
pub proof fn lemma_bounds_round_trip(bounds: Option<Bounds>)
    requires
        bounds_convertible(bounds),
    ensures
        is_bounds_term(spec_bounds_term(bounds)),
        spec_bounds_of_term(spec_bounds_term(bounds)) == bounds,
{
}

/// The term of a color reads back as the same color.
pub proof fn lemma_color_round_trip(a: i32, r: i32, g: i32, b: i32)
    ensures
        is_color_term(color_term(a, r, g, b)),
        spec_color_of_term(color_term(a, r, g, b)) == (SkColor { alpha_u8: a, red_u8: r, green_u8: g, blue_u8: b }),
{
}

/// A paint message with a color and a blender whose blend mode is one of
/// the three that SkiPass knows reads back from its term unchanged.
pub proof fn lemma_paint_proto_round_trip(p: SkPaint)
    requires
        p.color is Some,
        p.blender matches Some(b) && BlendMode::Unknown.spec_value() <= b.blend_mode
            <= BlendMode::SrcOver.spec_value(),
    ensures
        spec_paint_of_term(spec_paint_term(Some(p))) == p,
{
    let q = spec_paint_of_term(spec_paint_term(Some(p)));
    assert(q.blender == p.blender);
    assert(q.image_filter == p.image_filter);
    assert(q.color_filter == p.color_filter);
    assert(q.path_effect == p.path_effect);
    assert(q.mask_filter == p.mask_filter);
    assert(q.shader == p.shader);
}

/// The paint message that a paint (or its absence) reads back as: its
/// color, or opaque black; its blend mode where SkiPass knows it (source
/// or source-over), unknown for any other, source-over without a blender;
/// and each effect that it has.
pub open spec fn spec_read_back_paint(p: Option<SkPaint>) -> SkPaint {
    let has = |f: bool| p is Some && f;
    SkPaint {
        color: Some(
            match p {
                Some(q) => match q.color {
                    Some(c) => c,
                    None => SkColor { alpha_u8: 255, red_u8: 0, green_u8: 0, blue_u8: 0 },
                },
                None => SkColor { alpha_u8: 255, red_u8: 0, green_u8: 0, blue_u8: 0 },
            },
        ),
        blender: Some(
            Blender {
                blend_mode: match p {
                    Some(q) => match q.blender {
                        Some(b) => if b.blend_mode == BlendMode::Src.spec_value()
                            || b.blend_mode == BlendMode::SrcOver.spec_value() {
                            b.blend_mode
                        } else {
                            BlendMode::Unknown.spec_value()
                        },
                        None => BlendMode::SrcOver.spec_value(),
                    },
                    None => BlendMode::SrcOver.spec_value(),
                },
            },
        ),
        image_filter: if has(p->0.image_filter is Some) { Some(ImageFilter {  }) } else { None },
        color_filter: if has(p->0.color_filter is Some) { Some(ColorFilter {  }) } else { None },
        path_effect: if has(p->0.path_effect is Some) { Some(PathEffect {  }) } else { None },
        mask_filter: if has(p->0.mask_filter is Some) { Some(MaskFilter {  }) } else { None },
        shader: if has(p->0.shader is Some) { Some(Shader {  }) } else { None },
    }
}

/// Every paint message, present or not, reads back from its term as
/// `spec_read_back_paint`: the color or opaque black, the known blend
/// mode or unknown (source-over without a blender), and its effects.
pub proof fn lemma_paint_read_back(p: Option<SkPaint>)
    ensures
        spec_paint_of_term(spec_paint_term(p)) == spec_read_back_paint(p),
{
    let q = spec_paint_of_term(spec_paint_term(p));
    let r = spec_read_back_paint(p);
    assert(q.color == r.color);
    assert(q.blender == r.blender);
    assert(q.image_filter == r.image_filter);
    assert(q.color_filter == r.color_filter);
    assert(q.path_effect == r.path_effect);
    assert(q.mask_filter == r.mask_filter);
    assert(q.shader == r.shader);
}

/// Every paint term is the term of the paint message read from it.
pub proof fn lemma_paint_term_round_trip(t: ExpandedTerm)
    requires
        is_paint_term(t),
    ensures
        spec_paint_term(Some(spec_paint_of_term(t))) == t,
{
    let a = args(t);
    let u = spec_paint_term(Some(spec_paint_of_term(t)));
    let c = a[0];
    lemma_leaf(args(c)[0]);
    lemma_leaf(args(c)[1]);
    lemma_leaf(args(c)[2]);
    lemma_leaf(args(c)[3]);
    assert(args(c) =~= args(args(u)[0]));
    lemma_node(c, args(c));
    let bm = args(a[1])[0];
    lemma_leaf(bm);
    assert(args(a[1]) =~= args(args(u)[1]));
    lemma_node(a[1], args(a[1]));
    assert forall|k: int| 2 <= k < 7 implies #[trigger] a[k] == args(u)[k] by {
        lemma_leaf(args(a[k])[0]);
        assert(args(a[k]) =~= args(args(u)[k]));
        lemma_node(a[k], args(a[k]));
    }
    assert(args(u) =~= a);
    lemma_node(t, a);
}

} // verus!
