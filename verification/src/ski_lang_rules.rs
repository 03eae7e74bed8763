//! The computations inside the rewrite rules of SkiPass.
//!
//! The rules themselves are patterns of the e-graph library. What they
//! decide and compute is here: the conditions under which a merge can be
//! rewritten, the alpha that a layer carries as a virtual operation, the
//! folding of two alphas into one and of two clips into one.
use vstd::prelude::*;

use crate::egg_expr::id_index;
use crate::not_nan::{max, min, order_key};
use crate::ski_lang::{
    get_node, rec_expr_as_ref, root_term, ski_lang_nodes, wf_expr, SkiLang, SkiLangApplyAlphaParams, SkiLangBlendMode, SkiLangClipRectMode,
    SkiLangClipRectParams, SkiLangDrawCommand, SkiLangMergeParams, SkiLangRect, SkiTerm,
    children_before, operand_term, term_of,
};

verus! {

/// Integer division by 255 that rounds toward zero, as `i32` division does.
pub open spec fn div255(x: int) -> int {
    if x >= 0 {
        x / 255
    } else {
        -((-x) / 255)
    }
}

/// A layer that blends source-over, with no effects and no backdrop.
pub open spec fn spec_merge_params_is_only_src_over(p: SkiLangMergeParams) -> bool {
    &&& p.paint.blend_mode == SkiLangBlendMode::SrcOver
    &&& !p.paint.has_filters
    &&& !p.has_backdrop
}

/// A layer that blends source-over.
pub open spec fn spec_merge_params_is_src_over(p: SkiLangMergeParams) -> bool {
    p.paint.blend_mode == SkiLangBlendMode::SrcOver
}

/// A layer that blends source-over, with no effects, no backdrop and no
/// bounds.
pub open spec fn spec_merge_params_is_only_src_over_and_no_bounds(p: SkiLangMergeParams) -> bool {
    &&& spec_merge_params_is_only_src_over(p)
    &&& !p.has_bounds
}

/// A layer that changes nothing: it blends source-over an opaque paint
/// with no effects, no backdrop and no bounds, under the blank state.
pub open spec fn spec_merge_is_noop(p: SkiLangMergeParams, state: SkiTerm) -> bool {
    &&& state == SkiTerm::BlankState
    &&& p.paint.color.a == 255
    &&& !p.has_bounds
    &&& p.paint.blend_mode == SkiLangBlendMode::SrcOver
    &&& !p.paint.has_filters
    &&& !p.has_backdrop
}

/// Whether the merge parameters at the root of a rule's match blend
/// source-over with no effects and no backdrop.
pub fn merge_params_is_only_src_over(merge_params_root: &SkiLang) -> (b: bool)
    requires
        merge_params_root is MergeParams,
    ensures
        b == spec_merge_params_is_only_src_over(merge_params_root->MergeParams_0),
{
    match merge_params_root {
        SkiLang::MergeParams(merge_params) => {
            is_src_over(merge_params.paint.blend_mode) && !merge_params.paint.has_filters
                && !merge_params.has_backdrop
        },
        _ => false,
    }
}

/// Whether the merge parameters at the root of a rule's match blend
/// source-over.
pub fn merge_params_is_src_over(merge_params_root: &SkiLang) -> (b: bool)
    requires
        merge_params_root is MergeParams,
    ensures
        b == spec_merge_params_is_src_over(merge_params_root->MergeParams_0),
{
    match merge_params_root {
        SkiLang::MergeParams(merge_params) => is_src_over(merge_params.paint.blend_mode),
        _ => false,
    }
}

/// Whether the merge parameters at the root of a rule's match blend
/// source-over with no effects, no backdrop and no bounds.
pub fn merge_params_is_only_src_over_and_no_bounds(merge_params_root: &SkiLang) -> (b: bool)
    requires
        merge_params_root is MergeParams,
    ensures
        b == spec_merge_params_is_only_src_over_and_no_bounds(merge_params_root->MergeParams_0),
{
    match merge_params_root {
        SkiLang::MergeParams(merge_params) => {
            is_src_over(merge_params.paint.blend_mode) && !merge_params.paint.has_filters
                && !merge_params.has_backdrop && !merge_params.has_bounds
        },
        _ => false,
    }
}

fn is_src_over(m: SkiLangBlendMode) -> (b: bool)
    ensures
        b == (m == SkiLangBlendMode::SrcOver),
{
    match m {
        SkiLangBlendMode::SrcOver => true,
        _ => false,
    }
}

/// The shape that the merge parameters with state matched by a rule have:
/// merge parameters, and a state.
pub open spec fn is_merge_params_with_state(t: SkiTerm) -> bool {
    t matches SkiTerm::MergeParamsWithState(mp, _) && *mp is MergeParams
}

/// Whether the merge parameters with state matched by a rule (`expr`, whose
/// root is its last node) make the merge a plain concatenation: an opaque
/// source-over layer with no effects, no backdrop and no bounds, under the
/// blank state.
pub fn merge_is_src_over_and_paint_is_opaque_and_no_state_and_no_bounds(
    merge_params_with_state_expr: &egg::RecExpr<SkiLang>,
) -> (b: bool)
    requires
        wf_expr(*merge_params_with_state_expr),
        ski_lang_nodes(*merge_params_with_state_expr).len() > 0,
        is_merge_params_with_state(root_term(*merge_params_with_state_expr)),
    ensures
        b == (root_term(*merge_params_with_state_expr) matches SkiTerm::MergeParamsWithState(mp, st)
            && spec_merge_is_noop(mp->MergeParams_0, *st)),
{
    let ghost s = ski_lang_nodes(*merge_params_with_state_expr);
    let nodes = rec_expr_as_ref(merge_params_with_state_expr);
    let n = nodes.len();
    let root_pos = n - 1;
    let root = &nodes[root_pos];
    assert(children_before(s[root_pos as int], root_pos as int));
    let (merge_params_id, state_ops_id) = match root {
        SkiLang::MergeParamsWithState(ids) => {
            assert(crate::ski_lang::children(*root)[0] == ids[0]);
            assert(crate::ski_lang::children(*root)[1] == ids[1]);
            (ids[0], ids[1])
        },
        _ => {
            return false;
        },
    };
    assert(operand_term(s, root_pos as int, merge_params_id) == term_of(s, id_index(merge_params_id) as int));
    assert(operand_term(s, root_pos as int, state_ops_id) == term_of(s, id_index(state_ops_id) as int));
    let merge_params = match get_node(merge_params_with_state_expr, merge_params_id) {
        SkiLang::MergeParams(merge_params) => merge_params,
        _ => {
            return false;
        },
    };
    let is_blank_state = match get_node(merge_params_with_state_expr, state_ops_id) {
        SkiLang::BlankState => true,
        _ => false,
    };
    is_blank_state && merge_params.paint.color.a == 255 && !merge_params.has_bounds
        && is_src_over(merge_params.paint.blend_mode) && !merge_params.paint.has_filters
        && !merge_params.has_backdrop
}

/// The alpha of a layer taken out as a virtual operation: the alpha
/// parameters carry the alpha of the layer's paint, and the layer keeps
/// its parameters with an opaque paint.
pub open spec fn spec_alpha_virtual_op(p: SkiLangMergeParams) -> (SkiLangApplyAlphaParams, SkiLangMergeParams) {
    (
        SkiLangApplyAlphaParams { alpha: p.paint.color.a },
        SkiLangMergeParams {
            paint: crate::ski_lang::SkiLangPaint {
                color: crate::ski_lang::SkiLangColor { a: 255, ..p.paint.color },
                ..p.paint
            },
            ..p
        },
    )
}

/// Takes the alpha of a layer out as a virtual operation (the rule
/// `extract-alpha-virtual-op`).
pub fn alpha_virtual_op(merge_params: &SkiLangMergeParams) -> (r: (SkiLangApplyAlphaParams, SkiLangMergeParams))
    ensures
        r == spec_alpha_virtual_op(*merge_params),
{
    let alpha_params = SkiLangApplyAlphaParams { alpha: merge_params.paint.color.a };
    let mut merge_params_without_alpha = *merge_params;
    merge_params_without_alpha.paint.color.a = 255;
    (alpha_params, merge_params_without_alpha)
}

/// The product of two alphas, each 0-255, as an alpha.
pub open spec fn spec_merged_alpha(a1: i32, a2: i32) -> int {
    div255(a1 * a2)
}

/// Whether two alphas can be multiplied in an `i32`.
pub open spec fn alphas_multiply(a1: i32, a2: i32) -> bool {
    i32::MIN <= a1 * a2 <= i32::MAX
}

fn merged_alpha(a1: i32, a2: i32) -> (r: i32)
    requires
        alphas_multiply(a1, a2),
    ensures
        r == spec_merged_alpha(a1, a2),
{
    let product = a1 * a2;
    if product >= 0 {
        product / 255
    } else {
        let positive = 0i64 - product as i64;
        let q = positive / 255;
        (0i64 - q) as i32
    }
}

/// The layer parameters that take back an alpha virtual operation (the
/// rule `alpha-virtual-op-revert`): the layer's alpha becomes the product
/// of the two alphas.
pub open spec fn spec_alpha_virtual_op_revert(a: SkiLangApplyAlphaParams, p: SkiLangMergeParams) -> SkiLangMergeParams {
    SkiLangMergeParams {
        paint: crate::ski_lang::SkiLangPaint {
            color: crate::ski_lang::SkiLangColor {
                a: spec_merged_alpha(a.alpha, p.paint.color.a) as i32,
                ..p.paint.color
            },
            ..p.paint
        },
        ..p
    }
}

/// Folds an alpha virtual operation back into the layer it applies to.
pub fn alpha_virtual_op_revert(
    alpha_params: &SkiLangApplyAlphaParams,
    merge_params: &SkiLangMergeParams,
) -> (r: SkiLangMergeParams)
    requires
        alphas_multiply(alpha_params.alpha, merge_params.paint.color.a),
    ensures
        r == spec_alpha_virtual_op_revert(*alpha_params, *merge_params),
{
    let mut merge_params_with_alpha = *merge_params;
    let layer_alpha = merge_params_with_alpha.paint.color.a;
    let alpha_value = alpha_params.alpha;
    let merged = merged_alpha(alpha_value, layer_alpha);
    merge_params_with_alpha.paint.color.a = merged;
    merge_params_with_alpha
}

/// A draw command with an alpha folded into its paint (the rule
/// `fold-alpha`).
pub open spec fn spec_fold_alpha(d: SkiLangDrawCommand, a: SkiLangApplyAlphaParams) -> SkiLangDrawCommand {
    SkiLangDrawCommand {
        paint: crate::ski_lang::SkiLangPaint {
            color: crate::ski_lang::SkiLangColor {
                a: spec_merged_alpha(d.paint.color.a, a.alpha) as i32,
                ..d.paint.color
            },
            ..d.paint
        },
        ..d
    }
}

/// Folds the alpha of an alpha operation into the paint of the draw
/// command it applies to.
pub fn fold_alpha(draw_command: &SkiLangDrawCommand, alpha_params: &SkiLangApplyAlphaParams) -> (r: SkiLangDrawCommand)
    requires
        alphas_multiply(draw_command.paint.color.a, alpha_params.alpha),
    ensures
        r == spec_fold_alpha(*draw_command, *alpha_params),
{
    let mut folded_draw_command = *draw_command;
    folded_draw_command.paint.color.a = merged_alpha(draw_command.paint.color.a, alpha_params.alpha);
    folded_draw_command
}

/// The greater of two sides; of two equal ones, the second.
pub open spec fn spec_max(a: u64, b: u64) -> u64 {
    if order_key(a) <= order_key(b) { b } else { a }
}

/// The smaller of two sides; of two equal ones, the first.
pub open spec fn spec_min(a: u64, b: u64) -> u64 {
    if order_key(a) <= order_key(b) { a } else { b }
}

/// The intersection of two rectangles: the greater left and top sides,
/// the smaller right and bottom ones.
pub open spec fn spec_bounds_intersection(b1: SkiLangRect, b2: SkiLangRect) -> SkiLangRect {
    SkiLangRect {
        l: spec_max(b1.l, b2.l),
        t: spec_max(b1.t, b2.t),
        r: spec_min(b1.r, b2.r),
        b: spec_min(b1.b, b2.b),
    }
}

/// The intersection of two rectangles.
pub fn bounds_intersection(bounds1: &SkiLangRect, bounds2: &SkiLangRect) -> (r: SkiLangRect)
    ensures
        r == spec_bounds_intersection(*bounds1, *bounds2),
{
    SkiLangRect {
        l: max(bounds1.l, bounds2.l),
        t: max(bounds1.t, bounds2.t),
        r: min(bounds1.r, bounds2.r),
        b: min(bounds1.b, bounds2.b),
    }
}

/// Two nested clips that can be folded into one: both intersect, and
/// both are anti-aliased or neither is. The folded clip clips to the
/// intersection of their rectangles.
pub open spec fn spec_fold_clip_rect(
    inner: SkiLangClipRectParams,
    outer: SkiLangClipRectParams,
) -> Option<SkiLangClipRectParams> {
    if inner.is_anti_aliased != outer.is_anti_aliased {
        None
    } else if inner.clip_rect_mode != SkiLangClipRectMode::Intersect
        || outer.clip_rect_mode != SkiLangClipRectMode::Intersect {
        None
    } else {
        Some(
            SkiLangClipRectParams {
                clip_rect_mode: inner.clip_rect_mode,
                is_anti_aliased: inner.is_anti_aliased,
                bounds: spec_bounds_intersection(inner.bounds, outer.bounds),
            },
        )
    }
}

/// Folds a clip inside another into one clip (the rule `fold-clipRect`),
/// where they can be folded.
pub fn fold_clip_rect(
    inner_params: &SkiLangClipRectParams,
    outer_params: &SkiLangClipRectParams,
) -> (r: Option<SkiLangClipRectParams>)
    ensures
        r == spec_fold_clip_rect(*inner_params, *outer_params),
{
    if inner_params.is_anti_aliased != outer_params.is_anti_aliased {
        return None;
    }
    let inner_intersects = match inner_params.clip_rect_mode {
        SkiLangClipRectMode::Intersect => true,
        SkiLangClipRectMode::Diff => false,
    };
    let outer_intersects = match outer_params.clip_rect_mode {
        SkiLangClipRectMode::Intersect => true,
        SkiLangClipRectMode::Diff => false,
    };
    if !inner_intersects || !outer_intersects {
        return None;
    }
    Some(
        SkiLangClipRectParams {
            clip_rect_mode: inner_params.clip_rect_mode,
            is_anti_aliased: inner_params.is_anti_aliased,
            bounds: bounds_intersection(&inner_params.bounds, &outer_params.bounds),
        },
    )
}


/// Dividing `a * 255` by 255 gives `a` back.
proof fn lemma_div255_times_255(a: int)
    ensures
        div255(a * 255) == a,
{
    if a >= 0 {
        assert((a * 255) / 255 == a) by (nonlinear_arith)
            requires
                a >= 0,
        ;
    } else {
        assert(-(a * 255) == (-a) * 255) by (nonlinear_arith);
        assert(((-a) * 255) / 255 == -a) by (nonlinear_arith)
            requires
                -a >= 0,
        ;
    }
}

/// The guards of the merge rules refine one another: a layer with no
/// bounds that blends only source-over blends only source-over, which
/// blends source-over; a layer with effects (an image or color filter) or
/// a backdrop passes neither of the two strict guards, and one with bounds
/// fails the no-bounds guard. A layer that changes nothing passes all
/// three.
pub proof fn lemma_merge_guards_refine(p: SkiLangMergeParams, state: SkiTerm)
    ensures
        spec_merge_params_is_only_src_over_and_no_bounds(p) ==> spec_merge_params_is_only_src_over(p),
        spec_merge_params_is_only_src_over(p) ==> spec_merge_params_is_src_over(p),
        spec_merge_params_is_only_src_over_and_no_bounds(p) ==> !p.has_bounds,
        spec_merge_params_is_only_src_over(p) && !p.has_bounds ==> spec_merge_params_is_only_src_over_and_no_bounds(p),
        p.paint.has_filters ==> !spec_merge_params_is_only_src_over(p)
            && !spec_merge_params_is_only_src_over_and_no_bounds(p),
        p.has_backdrop ==> !spec_merge_params_is_only_src_over(p)
            && !spec_merge_params_is_only_src_over_and_no_bounds(p),
        p.paint.blend_mode != SkiLangBlendMode::SrcOver ==> !spec_merge_params_is_src_over(p)
            && !spec_merge_params_is_only_src_over(p) && !spec_merge_params_is_only_src_over_and_no_bounds(p),
        spec_merge_is_noop(p, state) ==> spec_merge_params_is_only_src_over_and_no_bounds(p),
{
}

/// Taking the alpha of a layer out as a virtual operation, then taking it
/// back, gives the layer's parameters back.
pub proof fn lemma_alpha_virtual_op_round_trip(p: SkiLangMergeParams)
    requires
        alphas_multiply(p.paint.color.a, 255),
    ensures
        alphas_multiply(spec_alpha_virtual_op(p).0.alpha, spec_alpha_virtual_op(p).1.paint.color.a),
        spec_alpha_virtual_op_revert(spec_alpha_virtual_op(p).0, spec_alpha_virtual_op(p).1) == p,
{
    lemma_div255_times_255(p.paint.color.a as int);
}

/// Folding an opaque alpha (255) into a draw command changes nothing.
pub proof fn lemma_fold_opaque_alpha(d: SkiLangDrawCommand)
    requires
        alphas_multiply(d.paint.color.a, 255),
    ensures
        spec_fold_alpha(d, SkiLangApplyAlphaParams { alpha: 255 }) == d,
{
    lemma_div255_times_255(d.paint.color.a as int);
}

/// The product of two alphas in 0-255 is an alpha in 0-255, whichever
/// order they come in, and never overflows.
pub proof fn lemma_merged_alpha_range(a1: i32, a2: i32)
    requires
        0 <= a1 <= 255,
        0 <= a2 <= 255,
    ensures
        alphas_multiply(a1, a2),
        0 <= spec_merged_alpha(a1, a2) <= 255,
        spec_merged_alpha(a1, a2) == spec_merged_alpha(a2, a1),
        spec_merged_alpha(a1, a2) <= a1,
        spec_merged_alpha(a1, a2) <= a2,
{
    assert(0 <= a1 * a2 <= 255 * 255) by (nonlinear_arith)
        requires
            0 <= a1 <= 255,
            0 <= a2 <= 255,
    ;
    assert(a1 * a2 == a2 * a1) by (nonlinear_arith);
    assert((a1 * a2) / 255 <= a1) by (nonlinear_arith)
        requires
            0 <= a1 <= 255,
            0 <= a2 <= 255,
    ;
    assert((a1 * a2) / 255 <= a2) by (nonlinear_arith)
        requires
            0 <= a1 <= 255,
            0 <= a2 <= 255,
    ;
    assert((a1 * a2) / 255 <= 255) by (nonlinear_arith)
        requires
            0 <= a1 * a2 <= 255 * 255,
    ;
}

/// The intersection of two rectangles lies inside both: its left and top
/// sides are at or after both, its right and bottom sides at or before
/// both, and each of its sides is a side of one of them.
pub proof fn lemma_bounds_intersection_inside(b1: SkiLangRect, b2: SkiLangRect)
    ensures
        ({
            let i = spec_bounds_intersection(b1, b2);
            &&& order_key(b1.l) <= order_key(i.l) && order_key(b2.l) <= order_key(i.l)
            &&& order_key(b1.t) <= order_key(i.t) && order_key(b2.t) <= order_key(i.t)
            &&& order_key(i.r) <= order_key(b1.r) && order_key(i.r) <= order_key(b2.r)
            &&& order_key(i.b) <= order_key(b1.b) && order_key(i.b) <= order_key(b2.b)
            &&& (i.l == b1.l || i.l == b2.l) && (i.t == b1.t || i.t == b2.t)
            &&& (i.r == b1.r || i.r == b2.r) && (i.b == b1.b || i.b == b2.b)
        }),
{
}

/// A rectangle intersected with itself is itself.
pub proof fn lemma_bounds_intersection_idempotent(b: SkiLangRect)
    ensures
        spec_bounds_intersection(b, b) == b,
{
}

/// Intersection does not depend on the order of the rectangles: the two
/// orders give sides at the same positions (they can differ only in the
/// sign of a zero).
pub proof fn lemma_bounds_intersection_commutes(b1: SkiLangRect, b2: SkiLangRect)
    ensures
        ({
            let i = spec_bounds_intersection(b1, b2);
            let j = spec_bounds_intersection(b2, b1);
            &&& order_key(i.l) == order_key(j.l)
            &&& order_key(i.t) == order_key(j.t)
            &&& order_key(i.r) == order_key(j.r)
            &&& order_key(i.b) == order_key(j.b)
        }),
{
}

/// Intersecting three rectangles does not depend on how they are grouped:
/// the two groupings give sides at the same positions (they can differ
/// only in the sign of a zero).
pub proof fn lemma_bounds_intersection_associative(b1: SkiLangRect, b2: SkiLangRect, b3: SkiLangRect)
    ensures
        ({
            let i = spec_bounds_intersection(spec_bounds_intersection(b1, b2), b3);
            let j = spec_bounds_intersection(b1, spec_bounds_intersection(b2, b3));
            &&& order_key(i.l) == order_key(j.l)
            &&& order_key(i.t) == order_key(j.t)
            &&& order_key(i.r) == order_key(j.r)
            &&& order_key(i.b) == order_key(j.b)
        }),
{
}

/// Two nested clips fold into one exactly when both intersect and agree
/// on anti-aliasing; the folded clip clips to the intersection of their
/// rectangles.
pub proof fn lemma_fold_clip_rect(inner: SkiLangClipRectParams, outer: SkiLangClipRectParams)
    ensures
        spec_fold_clip_rect(inner, outer) is Some <==> (inner.is_anti_aliased == outer.is_anti_aliased
            && inner.clip_rect_mode == SkiLangClipRectMode::Intersect
            && outer.clip_rect_mode == SkiLangClipRectMode::Intersect),
        spec_fold_clip_rect(inner, outer) matches Some(f) ==> {
            &&& f.clip_rect_mode == SkiLangClipRectMode::Intersect
            &&& f.is_anti_aliased == inner.is_anti_aliased
            &&& f.bounds == spec_bounds_intersection(inner.bounds, outer.bounds)
        },
{
}

} // verus!
