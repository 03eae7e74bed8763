use egg::RecExpr;
use ski_pass::ski_lang::{
    SkiLang, SkiLangApplyAlphaParams, SkiLangBlendMode, SkiLangClipRectMode, SkiLangClipRectParams,
    SkiLangColor, SkiLangDrawCommand, SkiLangMergeParams, SkiLangPaint, SkiLangRect,
};
use ski_pass::ski_lang_rules::{
    alpha_virtual_op, alpha_virtual_op_revert, bounds_intersection, fold_alpha, fold_clip_rect,
    merge_is_src_over_and_paint_is_opaque_and_no_state_and_no_bounds, merge_params_is_only_src_over,
    merge_params_is_only_src_over_and_no_bounds, merge_params_is_src_over,
};

fn paint(a: i32, blend_mode: SkiLangBlendMode, has_filters: bool) -> SkiLangPaint {
    SkiLangPaint { color: SkiLangColor { a, r: 1, g: 2, b: 3 }, blend_mode, has_filters }
}

fn params(a: i32, blend_mode: SkiLangBlendMode, has_filters: bool, has_backdrop: bool, has_bounds: bool) -> SkiLangMergeParams {
    SkiLangMergeParams {
        index: 4,
        paint: paint(a, blend_mode, has_filters),
        has_backdrop,
        has_bounds,
        bounds: if has_bounds { rect(0.0, 0.0, 5.0, 5.0) } else { SkiLangRect::empty() },
    }
}

fn rect(l: f64, t: f64, r: f64, b: f64) -> SkiLangRect {
    SkiLangRect { l: l.to_bits(), t: t.to_bits(), r: r.to_bits(), b: b.to_bits() }
}

fn sides(r: &SkiLangRect) -> (f64, f64, f64, f64) {
    (f64::from_bits(r.l), f64::from_bits(r.t), f64::from_bits(r.r), f64::from_bits(r.b))
}

fn clip(mode: SkiLangClipRectMode, bounds: SkiLangRect, aa: bool) -> SkiLangClipRectParams {
    SkiLangClipRectParams { clip_rect_mode: mode, bounds, is_anti_aliased: aa }
}

#[test]
fn only_src_over_layer() {
    let p = SkiLang::MergeParams(params(80, SkiLangBlendMode::SrcOver, false, false, true));
    assert!(merge_params_is_only_src_over(&p));
    assert!(merge_params_is_src_over(&p));
    assert!(!merge_params_is_only_src_over_and_no_bounds(&p));
}

#[test]
fn layer_with_backdrop_is_not_only_src_over() {
    let p = SkiLang::MergeParams(params(255, SkiLangBlendMode::SrcOver, false, true, false));
    assert!(!merge_params_is_only_src_over(&p));
    assert!(merge_params_is_src_over(&p));
    assert!(!merge_params_is_only_src_over_and_no_bounds(&p));
}

#[test]
fn layer_with_effects_is_src_over_but_not_only() {
    let p = SkiLang::MergeParams(params(255, SkiLangBlendMode::SrcOver, true, false, false));
    assert!(!merge_params_is_only_src_over(&p));
    assert!(merge_params_is_src_over(&p));
}

#[test]
fn src_layer_is_not_src_over() {
    for mode in [SkiLangBlendMode::Src, SkiLangBlendMode::Unknown] {
        let p = SkiLang::MergeParams(params(255, mode, false, false, false));
        assert!(!merge_params_is_only_src_over(&p));
        assert!(!merge_params_is_src_over(&p));
        assert!(!merge_params_is_only_src_over_and_no_bounds(&p));
    }
}

#[test]
fn plain_layer_without_bounds() {
    let p = SkiLang::MergeParams(params(10, SkiLangBlendMode::SrcOver, false, false, false));
    assert!(merge_params_is_only_src_over_and_no_bounds(&p));
}

fn with_state(p: SkiLangMergeParams, clipped: bool) -> RecExpr<SkiLang> {
    let mut e = RecExpr::<SkiLang>::default();
    let mp = e.add(SkiLang::MergeParams(p));
    let mut st = e.add(SkiLang::BlankState);
    if clipped {
        let cp = e.add(SkiLang::ClipRectParams(clip(SkiLangClipRectMode::Intersect, rect(0.0, 0.0, 1.0, 1.0), false)));
        st = e.add(SkiLang::ClipRect([st, cp]));
    }
    e.add(SkiLang::MergeParamsWithState([mp, st]));
    e
}

#[test]
fn opaque_plain_layer_under_blank_state_is_a_concat() {
    let e = with_state(params(255, SkiLangBlendMode::SrcOver, false, false, false), false);
    assert!(merge_is_src_over_and_paint_is_opaque_and_no_state_and_no_bounds(&e));
}

#[test]
fn translucent_layer_is_not_a_concat() {
    let e = with_state(params(254, SkiLangBlendMode::SrcOver, false, false, false), false);
    assert!(!merge_is_src_over_and_paint_is_opaque_and_no_state_and_no_bounds(&e));
}

#[test]
fn layer_under_a_clip_is_not_a_concat() {
    let e = with_state(params(255, SkiLangBlendMode::SrcOver, false, false, false), true);
    assert!(!merge_is_src_over_and_paint_is_opaque_and_no_state_and_no_bounds(&e));
}

#[test]
fn layer_with_bounds_or_effects_is_not_a_concat() {
    for p in [
        params(255, SkiLangBlendMode::SrcOver, false, false, true),
        params(255, SkiLangBlendMode::SrcOver, true, false, false),
        params(255, SkiLangBlendMode::SrcOver, false, true, false),
        params(255, SkiLangBlendMode::Src, false, false, false),
    ] {
        let e = with_state(p, false);
        assert!(!merge_is_src_over_and_paint_is_opaque_and_no_state_and_no_bounds(&e));
    }
}

#[test]
fn alpha_is_taken_out_of_the_layer() {
    let p = params(100, SkiLangBlendMode::SrcOver, false, false, true);
    let (a, q) = alpha_virtual_op(&p);
    assert_eq!(a.alpha, 100);
    assert_eq!(q.paint.color.a, 255);
    assert_eq!(q.paint.color.r, 1);
    assert_eq!(q.index, p.index);
    assert_eq!(q.bounds, p.bounds);
    assert!(q.has_bounds);
}

#[test]
fn alpha_is_put_back_into_the_layer() {
    let p = params(100, SkiLangBlendMode::SrcOver, false, false, false);
    let (a, q) = alpha_virtual_op(&p);
    assert_eq!(alpha_virtual_op_revert(&a, &q), p);
}

#[test]
fn reverted_alpha_multiplies_and_rounds_down() {
    let q = params(128, SkiLangBlendMode::SrcOver, false, false, false);
    let r = alpha_virtual_op_revert(&SkiLangApplyAlphaParams { alpha: 128 }, &q);
    assert_eq!(r.paint.color.a, 64);
    let r = alpha_virtual_op_revert(&SkiLangApplyAlphaParams { alpha: 0 }, &q);
    assert_eq!(r.paint.color.a, 0);
}

#[test]
fn folding_an_opaque_alpha_changes_nothing() {
    let d = SkiLangDrawCommand { index: 9, paint: paint(200, SkiLangBlendMode::SrcOver, false) };
    assert_eq!(fold_alpha(&d, &SkiLangApplyAlphaParams { alpha: 255 }), d);
}

#[test]
fn folding_an_alpha_multiplies_it_into_the_paint() {
    let d = SkiLangDrawCommand { index: 9, paint: paint(255, SkiLangBlendMode::SrcOver, false) };
    let f = fold_alpha(&d, &SkiLangApplyAlphaParams { alpha: 51 });
    assert_eq!(f.paint.color.a, 51);
    let d = SkiLangDrawCommand { index: 9, paint: paint(100, SkiLangBlendMode::Src, true) };
    let f = fold_alpha(&d, &SkiLangApplyAlphaParams { alpha: 100 });
    assert_eq!(f.paint.color.a, 39);
    assert_eq!(f.paint.blend_mode, SkiLangBlendMode::Src);
    assert!(f.paint.has_filters);
    assert_eq!(f.index, 9);
}

#[test]
fn intersection_of_two_rectangles() {
    let i = bounds_intersection(&rect(0.0, 0.0, 10.0, 10.0), &rect(5.0, -5.0, 20.0, 8.0));
    assert_eq!(sides(&i), (5.0, 0.0, 10.0, 8.0));
}

#[test]
fn intersection_of_disjoint_rectangles_is_inverted() {
    let i = bounds_intersection(&rect(0.0, 0.0, 1.0, 1.0), &rect(2.0, 2.0, 3.0, 3.0));
    assert_eq!(sides(&i), (2.0, 2.0, 1.0, 1.0));
}

#[test]
fn intersection_of_equal_zeros_keeps_the_order_rule() {
    let pos = rect(0.0, 0.0, 0.0, 0.0);
    let neg = rect(-0.0, -0.0, -0.0, -0.0);
    let i = bounds_intersection(&pos, &neg);
    // The larger of two equal values is the second, the smaller the first.
    assert_eq!(i.l, (-0.0f64).to_bits());
    assert_eq!(i.t, (-0.0f64).to_bits());
    assert_eq!(i.r, 0.0f64.to_bits());
    assert_eq!(i.b, 0.0f64.to_bits());
}

#[test]
fn intersection_with_itself_is_itself() {
    let r = rect(-3.5, 1.25, 7.0, 9.0);
    assert_eq!(bounds_intersection(&r, &r), r);
}

#[test]
fn two_intersecting_clips_fold_into_one() {
    let inner = clip(SkiLangClipRectMode::Intersect, rect(0.0, 0.0, 10.0, 10.0), true);
    let outer = clip(SkiLangClipRectMode::Intersect, rect(2.0, 3.0, 12.0, 6.0), true);
    let f = fold_clip_rect(&inner, &outer).unwrap();
    assert_eq!(f.clip_rect_mode, SkiLangClipRectMode::Intersect);
    assert!(f.is_anti_aliased);
    assert_eq!(sides(&f.bounds), (2.0, 3.0, 10.0, 6.0));
}

#[test]
fn clips_with_different_anti_aliasing_do_not_fold() {
    let inner = clip(SkiLangClipRectMode::Intersect, rect(0.0, 0.0, 10.0, 10.0), true);
    let outer = clip(SkiLangClipRectMode::Intersect, rect(0.0, 0.0, 10.0, 10.0), false);
    assert!(fold_clip_rect(&inner, &outer).is_none());
}

#[test]
fn difference_clips_do_not_fold() {
    let a = clip(SkiLangClipRectMode::Diff, rect(0.0, 0.0, 10.0, 10.0), false);
    let b = clip(SkiLangClipRectMode::Intersect, rect(0.0, 0.0, 10.0, 10.0), false);
    assert!(fold_clip_rect(&a, &b).is_none());
    assert!(fold_clip_rect(&b, &a).is_none());
    assert!(fold_clip_rect(&a, &a).is_none());
}

#[test]
fn intersection_grouping_does_not_matter() {
    let a = rect(0.0, 1.0, 10.0, 12.0);
    let b = rect(-3.0, 2.5, 7.0, 20.0);
    let c = rect(1.5, -4.0, 9.0, 11.0);
    let left = bounds_intersection(&bounds_intersection(&a, &b), &c);
    let right = bounds_intersection(&a, &bounds_intersection(&b, &c));
    assert_eq!(left, right);
    assert_eq!(left, rect(1.5, 2.5, 7.0, 11.0));
}
