use ski_pass::not_nan::{is_nan, le, max, min};
use ski_pass::protos::sk_paint::{Blender, ColorFilter, ImageFilter, MaskFilter, PathEffect, Shader};
use ski_pass::protos::{
    BlendMode, Bounds, ClipOp, RustError, SkColor, SkM44, SkPaint, SkiPassRunInfo, SkiPassRunStatus,
};
use ski_pass::run_info::handle_skipass_run_error;
use egg::Id;
use ski_pass::ski_lang::{
    add_node, arity, expr_len, get_node, new_expr, term_to_expr, SkiLang, SkiLangBlendMode, SkiLangColor, SkiLangCostFn, SkiLangDrawCommand, SkiLangM44,
    SkiLangPaint, SkiLangRect,
};

fn id(n: usize) -> Id {
    Id::from(n)
}

fn bare_paint() -> SkPaint {
    SkPaint {
        color: None,
        blender: None,
        image_filter: None,
        color_filter: None,
        path_effect: None,
        mask_filter: None,
        shader: None,
    }
}

fn numbers(n: usize) -> Vec<u64> {
    (0..n).map(|i| (i as f64 * 0.5 - 2.0).to_bits()).collect()
}

#[test]
fn enum_numbers() {
    assert_eq!(BlendMode::Unknown.value(), 0);
    assert_eq!(BlendMode::Src.value(), 1);
    assert_eq!(BlendMode::SrcOver.value(), 2);
    assert_eq!(ClipOp::Difference.value(), 0);
    assert_eq!(ClipOp::Intersect.value(), 1);
    assert_eq!(SkiPassRunStatus::Unknown.value(), 0);
    assert_eq!(SkiPassRunStatus::Succeeded.value(), 1);
    assert_eq!(SkiPassRunStatus::Failed.value(), 2);
}

#[test]
fn paint_without_color_is_opaque_black_source_over() {
    let p = SkiLangPaint::from_proto(&Some(bare_paint()));
    assert_eq!(p.color, SkiLangColor { a: 255, r: 0, g: 0, b: 0 });
    assert_eq!(p.blend_mode, SkiLangBlendMode::SrcOver);
    assert!(!p.has_filters);
}

#[test]
fn paint_keeps_each_channel() {
    let mut sk = bare_paint();
    sk.color = Some(SkColor { alpha_u8: 10, red_u8: 20, green_u8: 30, blue_u8: 40 });
    let p = SkiLangPaint::from_proto(&Some(sk));
    assert_eq!(p.color, SkiLangColor { a: 10, r: 20, g: 30, b: 40 });
}

#[test]
fn paint_blend_modes() {
    for (n, mode) in [
        (2, SkiLangBlendMode::SrcOver),
        (1, SkiLangBlendMode::Src),
        (0, SkiLangBlendMode::Unknown),
        (17, SkiLangBlendMode::Unknown),
    ] {
        let mut sk = bare_paint();
        sk.blender = Some(Blender { blend_mode: n });
        assert_eq!(SkiLangPaint::from_proto(&Some(sk)).blend_mode, mode);
    }
}

#[test]
fn any_effect_counts_as_filters() {
    let mut variants = vec![];
    let mut p = bare_paint();
    p.image_filter = Some(ImageFilter {});
    variants.push(p);
    let mut p = bare_paint();
    p.color_filter = Some(ColorFilter {});
    variants.push(p);
    let mut p = bare_paint();
    p.path_effect = Some(PathEffect {});
    variants.push(p);
    let mut p = bare_paint();
    p.mask_filter = Some(MaskFilter {});
    variants.push(p);
    let mut p = bare_paint();
    p.shader = Some(Shader {});
    variants.push(p);
    for v in variants {
        assert!(SkiLangPaint::from_proto(&Some(v)).has_filters);
    }
}

#[test]
fn paint_to_proto() {
    let p = SkiLangPaint {
        color: SkiLangColor { a: 1, r: 2, g: 3, b: 4 },
        blend_mode: SkiLangBlendMode::Src,
        has_filters: true,
    };
    let sk = p.to_proto();
    assert_eq!(sk.color, Some(SkColor { alpha_u8: 1, red_u8: 2, green_u8: 3, blue_u8: 4 }));
    assert_eq!(sk.blender, Some(Blender { blend_mode: 1 }));
    assert_eq!(sk.image_filter, Some(ImageFilter {}));
    assert!(sk.color_filter.is_none() && sk.path_effect.is_none() && sk.mask_filter.is_none() && sk.shader.is_none());
}

#[test]
fn paint_round_trip_through_proto() {
    let p = SkiLangPaint {
        color: SkiLangColor { a: 77, r: 12, g: 34, b: 12 },
        blend_mode: SkiLangBlendMode::SrcOver,
        has_filters: false,
    };
    assert_eq!(SkiLangPaint::from_proto(&Some(p.to_proto())), p);
}

#[test]
fn rect_round_trip_through_proto() {
    let b = Bounds { left: 1.5f64.to_bits(), top: (-2.0f64).to_bits(), right: 3.0f64.to_bits(), bottom: 4.0f64.to_bits() };
    let r = SkiLangRect::from_bounds_proto(&b);
    assert_eq!(f64::from_bits(r.l), 1.5);
    assert_eq!(f64::from_bits(r.t), -2.0);
    assert_eq!(r.to_proto(), b);
}

#[test]
fn empty_rect_is_all_zeros() {
    let r = SkiLangRect::empty();
    assert_eq!((r.l, r.t, r.r, r.b), (0, 0, 0, 0));
}

#[test]
fn matrix_keeps_its_first_sixteen_entries() {
    let v = numbers(16);
    assert_eq!(SkiLangM44::from_vec(v.clone()).as_vec(), v);
    let longer = numbers(20);
    assert_eq!(SkiLangM44::from_vec(longer.clone()).as_vec(), longer[..16].to_vec());
}

#[test]
fn matrix_of_a_message() {
    let m = SkM44 { m: numbers(16) };
    assert_eq!(SkiLangM44::from_skm44_proto(&m).as_vec(), m.m);
}

#[test]
fn nan_bits() {
    assert!(is_nan(f64::NAN.to_bits()));
    assert!(!is_nan(f64::INFINITY.to_bits()));
    assert!(!is_nan(f64::NEG_INFINITY.to_bits()));
    assert!(!is_nan(0.0f64.to_bits()));
    assert!(!is_nan(1.0f64.to_bits()));
}

#[test]
fn order_of_doubles() {
    let vals = [f64::NEG_INFINITY, -3.0, -0.5, 0.0, 0.25, 2.0, f64::INFINITY];
    for a in vals {
        for b in vals {
            assert_eq!(le(a.to_bits(), b.to_bits()), a <= b, "{} <= {}", a, b);
        }
    }
    assert!(le((-0.0f64).to_bits(), 0.0f64.to_bits()));
    assert!(le(0.0f64.to_bits(), (-0.0f64).to_bits()));
}

#[test]
fn max_and_min_of_doubles() {
    assert_eq!(max((-1.0f64).to_bits(), 2.0f64.to_bits()), 2.0f64.to_bits());
    assert_eq!(max(2.0f64.to_bits(), (-1.0f64).to_bits()), 2.0f64.to_bits());
    assert_eq!(min((-1.0f64).to_bits(), 2.0f64.to_bits()), (-1.0f64).to_bits());
    assert_eq!(min(2.0f64.to_bits(), (-1.0f64).to_bits()), (-1.0f64).to_bits());
    assert_eq!(max(0.0f64.to_bits(), (-0.0f64).to_bits()), (-0.0f64).to_bits());
    assert_eq!(min(0.0f64.to_bits(), (-0.0f64).to_bits()), 0.0f64.to_bits());
}

fn draw(index: i32) -> SkiLang {
    SkiLang::DrawCommand(SkiLangDrawCommand {
        index,
        paint: SkiLangPaint {
            color: SkiLangColor { a: 255, r: 0, g: 0, b: 0 },
            blend_mode: SkiLangBlendMode::SrcOver,
            has_filters: false,
        },
    })
}

#[test]
fn cost_of_nodes() {
    let f = SkiLangCostFn;
    assert_eq!(f.cost(&draw(0), &vec![]), (0, 0, 1));
    assert_eq!(f.cost(&SkiLang::Concat([id(0), id(1)]), &vec![(0, 0, 1), (0, 2, 5)]), (0, 2, 7));
    assert_eq!(f.cost(&SkiLang::ApplyAlpha([id(0), id(1)]), &vec![(0, 0, 1), (0, 0, 1)]), (1, 0, 3));
    assert_eq!(f.cost(&SkiLang::ApplyState([id(0), id(1)]), &vec![(0, 0, 1), (0, 0, 1)]), (1, 0, 3));
    assert_eq!(f.cost(&SkiLang::SomeFilterAndState([id(0), id(1)]), &vec![(0, 0, 1), (0, 0, 1)]), (1, 0, 3));
    assert_eq!(f.cost(&SkiLang::SrcOver([id(0), id(1)]), &vec![(2, 0, 4), (0, 1, 1)]), (3, 1, 6));
    assert_eq!(f.cost(&SkiLang::Merge([id(0), id(1), id(2)]), &vec![(0, 0, 1), (0, 1, 3), (0, 0, 3)]), (0, 2, 8));
}

#[test]
fn arity_of_nodes() {
    assert_eq!(arity(&draw(0)), 0);
    assert_eq!(arity(&SkiLang::BlankSurface), 0);
    assert_eq!(arity(&SkiLang::Concat([id(0), id(1)])), 2);
    assert_eq!(arity(&SkiLang::Merge([id(0), id(1), id(2)])), 3);
}

#[test]
fn rec_expr_grows_by_one_node() {
    let mut e = new_expr();
    assert_eq!(expr_len(&e), 0);
    let a = add_node(&mut e, SkiLang::BlankSurface);
    let b = add_node(&mut e, draw(3));
    let c = add_node(&mut e, SkiLang::Concat([a, b]));
    assert_eq!((a, b, c), (id(0), id(1), id(2)));
    assert_eq!(expr_len(&e), 3);
    assert!(matches!(get_node(&e, id(1)), SkiLang::DrawCommand(d) if d.index == 3));
}

#[test]
fn sub_expression_is_copied_as_a_tree() {
    let mut e = new_expr();
    let blank = add_node(&mut e, SkiLang::BlankSurface);
    let d = add_node(&mut e, draw(3));
    let c = add_node(&mut e, SkiLang::Concat([blank, d]));
    let cc = add_node(&mut e, SkiLang::Concat([c, c]));
    let _unused = add_node(&mut e, draw(9));
    let t = term_to_expr(&e, cc).unwrap();
    // The shared operand appears once per use.
    assert_eq!(t.as_ref().len(), 7);
    match t.as_ref().last().unwrap() {
        SkiLang::Concat([x, y]) => {
            assert_ne!(x, y);
            assert_eq!((*x, *y), (id(2), id(5)));
            assert!(matches!(t[*x], SkiLang::Concat(_)));
            assert!(matches!(t[*y], SkiLang::Concat(_)));
        }
        other => panic!("unexpected root {:?}", other),
    }
    assert!(matches!(t[id(0)], SkiLang::BlankSurface));
    assert!(matches!(t[id(1)], SkiLang::DrawCommand(dc) if dc.index == 3));
    let single = term_to_expr(&e, d).unwrap();
    assert_eq!(single.as_ref().len(), 1);
    assert!(matches!(single.as_ref()[0], SkiLang::DrawCommand(dc) if dc.index == 3));
}

#[test]
fn failed_run_records_the_error() {
    let info = SkiPassRunInfo {
        input_skp_json_name: "in.json".to_string(),
        optimized_skp_path: "out.skp".to_string(),
        status: SkiPassRunStatus::Succeeded.value(),
        rust_error: None,
    };
    let failed = handle_skipass_run_error(&"no layer to restore".to_string(), &info);
    assert_eq!(failed.input_skp_json_name, "in.json");
    assert_eq!(failed.optimized_skp_path, "out.skp");
    assert_eq!(failed.status, 2);
    assert_eq!(failed.rust_error.map(|e: RustError| e.error_message), Some("no layer to restore".to_string()));
}

#[test]
fn cost_overflow_is_reported() {
    let f = SkiLangCostFn;
    let c = SkiLang::Concat([id(0), id(1)]);
    assert_eq!(f.try_cost(&c, &vec![(0, 0, 1), (0, 2, 5)]), Some((0, 2, 7)));
    assert_eq!(f.try_cost(&c, &vec![(0, 0, i32::MAX), (0, 0, 0)]), None);
    assert_eq!(f.try_cost(&SkiLang::SrcOver([id(0), id(1)]), &vec![(i32::MAX - 1, 0, 0), (0, 0, 0)]), Some((i32::MAX, 0, 1)));
    assert_eq!(f.try_cost(&SkiLang::SrcOver([id(0), id(1)]), &vec![(i32::MAX, 0, 0), (-5, 0, 0)]), None);
}
