use ski_pass::build_ski_lang_expr::{build_expr, records_convertible, try_build_expr};
use egg::{Id, RecExpr};
use ski_pass::expanded_ski_lang::{add_expanded, expanded_len, get_expanded, new_expanded_expr, ExpandedSkiLang};
use ski_pass::protos::sk_paint::{Blender, ImageFilter, MaskFilter, Shader};
use ski_pass::protos::sk_records::{ClipRect, Command, Concat44, DrawCommand, Restore, Save, SaveLayer};
use ski_pass::protos::{Bounds, SkColor, SkM44, SkPaint, SkRecords};
use ski_pass::ski_lang::SkiLangRect;
use ski_pass::ski_lang_converters::{
    bounds_expr_to_proto, bounds_proto_to_expr, bounds_proto_to_rect, bounds_proto_to_rect_expr, color_expr_to_proto,
    color_proto_to_expr, get_blend_mode, get_exists_value, paint_expr_to_proto, paint_proto_to_expr, skm44_to_expr,
    unpack_float, unpack_rect_to_bounds,
};

fn bare_paint() -> SkPaint {
    SkPaint {
        color: None,
        blender: None,
        image_filter: None,
        color_filter: None,
        path_effect: None,
        mask_filter: None,
        shader: None,
    }
}

fn bounds(l: f64, t: f64, r: f64, b: f64) -> Bounds {
    Bounds { left: l.to_bits(), top: t.to_bits(), right: r.to_bits(), bottom: b.to_bits() }
}

/// The term at `id`, written as an s-expression.
fn show(e: &RecExpr<ExpandedSkiLang>, id: Id) -> String {
    let s = |i: Id| show(e, i);
    let list = |name: &str, ids: &[Id]| {
        let parts: Vec<String> = ids.iter().map(|i| show(e, *i)).collect();
        format!("({} {})", name, parts.join(" "))
    };
    match &e[id] {
        ExpandedSkiLang::Num(n) => n.to_string(),
        ExpandedSkiLang::Bool(b) => b.to_string(),
        ExpandedSkiLang::Exists(b) => format!("exists:{}", b),
        ExpandedSkiLang::Float(f) => format!("float:{}", f64::from_bits(*f)),
        ExpandedSkiLang::Rect(r) => format!(
            "[{} {} {} {}]",
            f64::from_bits(r.l),
            f64::from_bits(r.t),
            f64::from_bits(r.r),
            f64::from_bits(r.b)
        ),
        ExpandedSkiLang::M44(_) => "m44".to_string(),
        ExpandedSkiLang::NoOp => "noOp".to_string(),
        ExpandedSkiLang::Blank => "blank".to_string(),
        ExpandedSkiLang::BlankState => "blankState".to_string(),
        ExpandedSkiLang::BlendModeSrc => "src".to_string(),
        ExpandedSkiLang::BlendModeSrcOver => "srcOver".to_string(),
        ExpandedSkiLang::BlendModeUnknown => "unknown".to_string(),
        ExpandedSkiLang::ClipOpDiff => "diff".to_string(),
        ExpandedSkiLang::ClipOpIntersect => "intersect".to_string(),
        ExpandedSkiLang::Color(i) => list("color", i),
        ExpandedSkiLang::Blender(i) => list("blender", i),
        ExpandedSkiLang::ImageFilter(i) => list("imageFilter", i),
        ExpandedSkiLang::ColorFilter(i) => list("colorFilter", i),
        ExpandedSkiLang::PathEffect(i) => list("pathEffect", i),
        ExpandedSkiLang::MaskFilter(i) => list("maskFilter", i),
        ExpandedSkiLang::Shader(i) => list("shader", i),
        ExpandedSkiLang::Paint(i) => list("paint", i),
        ExpandedSkiLang::Bounds(i) => list("bounds", i),
        ExpandedSkiLang::Backdrop(i) => list("backdrop", i),
        ExpandedSkiLang::ClipRectParams(i) => list("clipParams", i),
        ExpandedSkiLang::MatrixOpParams(i) => format!("m{}", s(i[0])),
        ExpandedSkiLang::DrawCommand(i) => format!("d{}", s(i[0])),
        ExpandedSkiLang::MergeParams(i) => format!("(layer{} {})", s(i[0]), s(i[4])),
        ExpandedSkiLang::MatrixOp(i) => list("matrixOp", i),
        ExpandedSkiLang::ClipRect(i) => list("clipRect", i),
        ExpandedSkiLang::Concat(i) => list("concat", i),
        ExpandedSkiLang::Merge(i) => list("merge", i),
    }
}

fn draw(index: i32) -> SkRecords {
    SkRecords {
        index,
        command: Some(Command::DrawCommand(DrawCommand { name: "DrawRect".to_string(), paint: Some(bare_paint()) })),
    }
}

fn named(index: i32, name: &str) -> SkRecords {
    SkRecords { index, command: Some(Command::DrawCommand(DrawCommand { name: name.to_string(), paint: None })) }
}

fn rec(index: i32, c: Command) -> SkRecords {
    SkRecords { index, command: Some(c) }
}

fn clip(index: i32) -> SkRecords {
    rec(index, Command::ClipRect(ClipRect { bounds: Some(bounds(0.0, 0.0, 4.0, 4.0)), clip_op: 1, do_anti_alias: false }))
}

fn layer(index: i32) -> SkRecords {
    rec(index, Command::SaveLayer(SaveLayer { paint: Some(bare_paint()), bounds: None, backdrop: None }))
}

fn restore(index: i32) -> SkRecords {
    rec(index, Command::Restore(Restore {}))
}

fn built(records: &Vec<SkRecords>) -> String {
    let mut e = new_expanded_expr();
    let id = build_expr(records, &mut e);
    show(&e, id)
}

#[test]
fn missing_paint_is_opaque_black_source_over() {
    let mut e = new_expanded_expr();
    let id = paint_proto_to_expr(&mut e, &None);
    assert_eq!(
        show(&e, id),
        "(paint (color 255 0 0 0) (blender srcOver) (imageFilter false) (colorFilter false) (pathEffect false) (maskFilter false) (shader false))"
    );
}

#[test]
fn paint_keeps_all_four_channels() {
    let mut p = bare_paint();
    p.color = Some(SkColor { alpha_u8: 1, red_u8: 2, green_u8: 3, blue_u8: 4 });
    p.blender = Some(Blender { blend_mode: 1 });
    p.image_filter = Some(ImageFilter {});
    p.shader = Some(Shader {});
    let mut e = new_expanded_expr();
    let id = paint_proto_to_expr(&mut e, &Some(p));
    assert_eq!(
        show(&e, id),
        "(paint (color 1 2 3 4) (blender src) (imageFilter true) (colorFilter false) (pathEffect false) (maskFilter false) (shader true))"
    );
    assert_eq!(paint_expr_to_proto(&e, id), p);
}

#[test]
fn paint_read_back_fills_the_defaults() {
    let mut p = bare_paint();
    p.mask_filter = Some(MaskFilter {});
    let mut e = new_expanded_expr();
    let id = paint_proto_to_expr(&mut e, &Some(p));
    let back = paint_expr_to_proto(&e, id);
    assert_eq!(back.color, Some(SkColor { alpha_u8: 255, red_u8: 0, green_u8: 0, blue_u8: 0 }));
    assert_eq!(back.blender, Some(Blender { blend_mode: 2 }));
    assert_eq!(back.mask_filter, Some(MaskFilter {}));
    assert!(back.image_filter.is_none() && back.shader.is_none());
}

#[test]
fn unknown_blend_mode_reads_back_as_zero() {
    let mut p = bare_paint();
    p.blender = Some(Blender { blend_mode: 9 });
    let mut e = new_expanded_expr();
    let id = paint_proto_to_expr(&mut e, &Some(p));
    assert!(show(&e, id).contains("(blender unknown)"));
    assert_eq!(paint_expr_to_proto(&e, id).blender, Some(Blender { blend_mode: 0 }));
}

#[test]
fn color_round_trip() {
    let mut e = new_expanded_expr();
    let id = color_proto_to_expr(&mut e, 9, 8, 7, 6);
    assert_eq!(show(&e, id), "(color 9 8 7 6)");
    assert_eq!(e.as_ref().len(), 5);
    assert_eq!(expanded_len(&e), 5);
    assert!(matches!(get_expanded(&e, id), ExpandedSkiLang::Color(_)));
    assert_eq!(color_expr_to_proto(&e, id), SkColor { alpha_u8: 9, red_u8: 8, green_u8: 7, blue_u8: 6 });
}

#[test]
fn bounds_round_trip() {
    let b = bounds(1.0, 2.0, 3.0, 4.5);
    let mut e = new_expanded_expr();
    let id = bounds_proto_to_expr(&mut e, &Some(b));
    assert_eq!(show(&e, id), "(bounds true [1 2 3 4.5])");
    assert_eq!(e.as_ref().len(), 4);
    assert_eq!(bounds_expr_to_proto(&e, id), Some(b));
    let none = bounds_proto_to_expr(&mut e, &None);
    assert_eq!(show(&e, none), "(bounds false noOp)");
    assert_eq!(bounds_expr_to_proto(&e, none), None);
}

#[test]
fn rect_of_bounds() {
    let b = bounds(-1.0, 0.5, 2.0, 3.0);
    assert_eq!(bounds_proto_to_rect(&Some(b)), SkiLangRect::from_bounds_proto(&b));
    let mut e = new_expanded_expr();
    let id = bounds_proto_to_rect_expr(&mut e, &Some(b));
    assert_eq!(e.as_ref().len(), 2);
    assert!(matches!(e.as_ref()[0], ExpandedSkiLang::Bool(true)));
    assert_eq!(unpack_rect_to_bounds(&e, id), b);
}

#[test]
fn single_nodes_read_back() {
    let mut e = new_expanded_expr();
    let t = add_expanded(&mut e, ExpandedSkiLang::Bool(true));
    let f = add_expanded(&mut e, ExpandedSkiLang::Bool(false));
    let x = add_expanded(&mut e, ExpandedSkiLang::Float(2.5f64.to_bits()));
    let s = add_expanded(&mut e, ExpandedSkiLang::BlendModeSrc);
    let so = add_expanded(&mut e, ExpandedSkiLang::BlendModeSrcOver);
    let u = add_expanded(&mut e, ExpandedSkiLang::BlendModeUnknown);
    assert!(get_exists_value(&e, t));
    assert!(!get_exists_value(&e, f));
    assert_eq!(f64::from_bits(unpack_float(&e, x)), 2.5);
    assert_eq!((get_blend_mode(&e, s), get_blend_mode(&e, so), get_blend_mode(&e, u)), (1, 2, 0));
}

#[test]
fn matrix_message_becomes_a_node() {
    let m: Vec<u64> = (0..16).map(|i| (i as f64).to_bits()).collect();
    let mut e = new_expanded_expr();
    let id = skm44_to_expr(&mut e, &Some(SkM44 { m: m.clone() }));
    match &e[id] {
        ExpandedSkiLang::M44(mat) => assert_eq!(mat.as_vec(), m),
        other => panic!("not a matrix: {:?}", other),
    }
}

#[test]
fn draws_concatenate_before_a_blank_surface() {
    assert_eq!(built(&vec![draw(0), draw(1)]), "(concat d0 (concat d1 blank))");
    assert_eq!(built(&vec![]), "blank");
}

#[test]
fn clip_wraps_what_follows() {
    assert_eq!(
        built(&vec![clip(0), draw(1)]),
        "(clipRect (concat d1 blank) (clipParams [0 0 4 4] intersect exists:false))"
    );
}

#[test]
fn difference_clip_and_anti_aliasing() {
    let c = rec(0, Command::ClipRect(ClipRect { bounds: Some(bounds(0.0, 0.0, 1.0, 1.0)), clip_op: 0, do_anti_alias: true }));
    assert_eq!(built(&vec![c]), "(clipRect blank (clipParams [0 0 1 1] diff exists:true))");
}

#[test]
fn opaque_state_operations_by_name_or_matrix() {
    assert_eq!(built(&vec![named(5, "ClipPath"), draw(6)]), "(matrixOp (concat d6 blank) m5)");
    assert_eq!(built(&vec![named(5, "ClipRRect")]), "(matrixOp blank m5)");
    assert_eq!(built(&vec![named(5, "Concat44")]), "(matrixOp blank m5)");
    let c = rec(3, Command::Concat44(Concat44 { matrix: None }));
    assert_eq!(built(&vec![c, draw(4)]), "(matrixOp (concat d4 blank) m3)");
}

#[test]
fn save_and_restore_group_a_surface() {
    let records = vec![rec(0, Command::Save(Save {})), draw(1), restore(2), draw(3)];
    assert_eq!(built(&records), "(concat (concat d1 blank) (concat d3 blank))");
}

#[test]
fn save_layer_merges_into_what_lies_below() {
    let records = vec![draw(0), layer(1), draw(2), restore(3)];
    assert_eq!(built(&records), "(concat (merge (concat d0 blank) (concat d2 blank) (layer1 blankState)) blank)");
}

#[test]
fn state_at_a_layer_is_kept_for_what_follows() {
    let records = vec![clip(0), layer(1), draw(2), restore(3), draw(4)];
    let c = "(clipParams [0 0 4 4] intersect exists:false)";
    assert_eq!(
        built(&records),
        format!(
            "(concat (merge (clipRect blank {c}) (concat d2 blank) (layer1 (clipRect blankState {c}))) (clipRect (concat d4 blank) {c}))"
        )
    );
}

#[test]
fn state_below_an_earlier_layer_is_not_in_force() {
    let records = vec![clip(0), layer(1), layer(2), draw(3), restore(4), restore(5)];
    let c = "(clipParams [0 0 4 4] intersect exists:false)";
    assert_eq!(
        built(&records),
        format!("(concat (merge (clipRect blank {c}) (concat (merge blank (concat d3 blank) (layer2 blankState)) blank) (layer1 (clipRect blankState {c}))) (clipRect blank {c}))")
    );
}

#[test]
fn unclosed_layer_leaves_the_bottom_entry() {
    assert_eq!(built(&vec![draw(0), layer(1), draw(2)]), "d0");
}

#[test]
fn restore_without_save_reduces_everything() {
    assert_eq!(built(&vec![draw(0), restore(1), draw(2)]), "(concat (concat d0 blank) (concat d2 blank))");
}

#[test]
fn records_without_command_are_skipped() {
    let empty = SkRecords { index: 7, command: None };
    assert_eq!(built(&vec![empty, draw(1)]), "(concat d1 blank)");
}

#[test]
fn layer_parameters_hold_paint_backdrop_and_bounds() {
    let l = rec(
        4,
        Command::SaveLayer(SaveLayer {
            paint: None,
            bounds: Some(bounds(0.0, 0.0, 2.0, 2.0)),
            backdrop: Some(ImageFilter {}),
        }),
    );
    let mut e = new_expanded_expr();
    build_expr(&vec![l, restore(5)], &mut e);
    let params = e
        .as_ref()
        .iter()
        .rev()
        .find_map(|n| match n {
            ExpandedSkiLang::MergeParams(ids) => Some(*ids),
            _ => None,
        })
        .unwrap();
    assert_eq!(show(&e, params[0]), "4");
    assert!(show(&e, params[1]).starts_with("(paint (color 255 0 0 0)"));
    assert_eq!(show(&e, params[2]), "(backdrop exists:true)");
    assert_eq!(show(&e, params[3]), "(bounds true [0 0 2 2])");
    assert_eq!(show(&e, params[4]), "blankState");
}

#[test]
fn records_that_cannot_be_converted_are_refused() {
    let nan_clip = rec(0, Command::ClipRect(ClipRect { bounds: Some(bounds(f64::NAN, 0.0, 1.0, 1.0)), clip_op: 1, do_anti_alias: false }));
    let odd_op = rec(0, Command::ClipRect(ClipRect { bounds: Some(bounds(0.0, 0.0, 1.0, 1.0)), clip_op: 5, do_anti_alias: false }));
    let nan_layer = rec(1, Command::SaveLayer(SaveLayer { paint: None, bounds: Some(bounds(0.0, f64::NAN, 1.0, 1.0)), backdrop: None }));
    assert!(records_convertible(&vec![clip(0), layer(1), draw(2), restore(3)]));
    for bad in [nan_clip, odd_op, nan_layer] {
        let records = vec![draw(0), bad];
        assert!(!records_convertible(&records));
        let mut e = new_expanded_expr();
        add_expanded(&mut e, ExpandedSkiLang::Blank);
        assert!(try_build_expr(&records, &mut e).is_none());
        assert_eq!(expanded_len(&e), 1);
    }
    let mut e = new_expanded_expr();
    let id = try_build_expr(&vec![draw(0), draw(1)], &mut e).unwrap();
    assert_eq!(show(&e, id), "(concat d0 (concat d1 blank))");
}

#[test]
fn missing_paint_reads_back_as_opaque_black_source_over() {
    let mut e = new_expanded_expr();
    let id = paint_proto_to_expr(&mut e, &None);
    let mut expected = bare_paint();
    expected.color = Some(SkColor { alpha_u8: 255, red_u8: 0, green_u8: 0, blue_u8: 0 });
    expected.blender = Some(Blender { blend_mode: 2 });
    assert_eq!(paint_expr_to_proto(&e, id), expected);
}

#[test]
fn fifty_thousand_draws_are_built() {
    let records: Vec<SkRecords> = (0..50000).map(draw).collect();
    let mut e = new_expanded_expr();
    let id = try_build_expr(&records, &mut e).unwrap();
    // twenty nodes for each draw, then a blank surface and a concatenation
    // for each draw
    assert_eq!(expanded_len(&e), 50000 * 20 + 1 + 50000);
    assert!(matches!(get_expanded(&e, id), ExpandedSkiLang::Concat(_)));
}
