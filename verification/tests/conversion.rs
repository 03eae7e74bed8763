use ski_pass::protos::sk_paint::{Blender, ImageFilter};
use ski_pass::protos::sk_records::{ClipRect, Command, Concat44, DrawCommand, Restore, Save, SaveLayer};
use ski_pass::protos::{Bounds, SkColor, SkM44, SkPaint, SkRecords};
use ski_pass::sk_record_to_ski_lang::{convert_sk_record_to_ski_lang_expr, try_convert_sk_record_to_ski_lang_expr};
use egg::{Id, RecExpr};
use ski_pass::ski_lang::SkiLang;

fn paint(a: i32, r: i32, g: i32, b: i32) -> SkPaint {
    SkPaint {
        color: Some(SkColor { alpha_u8: a, red_u8: r, green_u8: g, blue_u8: b }),
        blender: None,
        image_filter: None,
        color_filter: None,
        path_effect: None,
        mask_filter: None,
        shader: None,
    }
}

fn bounds(l: f64, t: f64, r: f64, b: f64) -> Bounds {
    Bounds { left: l.to_bits(), top: t.to_bits(), right: r.to_bits(), bottom: b.to_bits() }
}

fn draw(index: i32, name: &str) -> SkRecords {
    SkRecords {
        index,
        command: Some(Command::DrawCommand(DrawCommand { name: name.to_string(), paint: Some(paint(255, 1, 2, 3)) })),
    }
}

fn rec(index: i32, c: Command) -> SkRecords {
    SkRecords { index, command: Some(c) }
}

/// The expression rooted at `id`, written as an s-expression with the
/// parameter nodes abbreviated.
fn show(e: &RecExpr<SkiLang>, id: Id) -> String {
    let s = |i: Id| show(e, i);
    match &e[id] {
        SkiLang::NoOp => "noOp".to_string(),
        SkiLang::BlankSurface => "blankSurface".to_string(),
        SkiLang::BlankState => "blankState".to_string(),
        SkiLang::M44(_) => "m44".to_string(),
        SkiLang::Rect(_) => "rect".to_string(),
        SkiLang::ClipRectParams(p) => format!("clip{:?}", p.clip_rect_mode),
        SkiLang::MatrixOpParams(p) => format!("op{}", p.index),
        SkiLang::ApplyAlphaParams(p) => format!("alpha{}", p.alpha),
        SkiLang::Paint(_) => "paint".to_string(),
        SkiLang::DrawCommand(d) => format!("draw{}", d.index),
        SkiLang::MergeParams(p) => format!("layer{}", p.index),
        SkiLang::MergeParamsWithState(i) => format!("(merge_params_with_state {} {})", s(i[0]), s(i[1])),
        SkiLang::SomeFilterAndState(i) => format!("(apply_filter_with_state {} {})", s(i[0]), s(i[1])),
        SkiLang::Concat(i) => format!("(concat {} {})", s(i[0]), s(i[1])),
        SkiLang::Merge(i) => format!("(merge {} {} {})", s(i[0]), s(i[1]), s(i[2])),
        SkiLang::MatrixOp(i) => format!("(matrixOp {} {})", s(i[0]), s(i[1])),
        SkiLang::Concat44(i) => format!("(concat44 {} {})", s(i[0]), s(i[1])),
        SkiLang::ClipRect(i) => format!("(clipRect {} {})", s(i[0]), s(i[1])),
        SkiLang::ApplyState(i) => format!("(apply_state {} {})", s(i[0]), s(i[1])),
        SkiLang::ApplyAlpha(i) => format!("(apply_alpha {} {})", s(i[0]), s(i[1])),
        SkiLang::SrcOver(i) => format!("(srcOver {} {})", s(i[0]), s(i[1])),
    }
}

fn root(e: &RecExpr<SkiLang>) -> String {
    show(e, Id::from(e.as_ref().len() - 1))
}

#[test]
fn draws_are_concatenated_in_order() {
    let e = convert_sk_record_to_ski_lang_expr(&vec![draw(0, "DrawRect"), draw(1, "DrawOval"), draw(2, "DrawRect")]);
    assert_eq!(
        root(&e),
        "(concat (concat (concat blankSurface (apply_state draw0 blankState)) (apply_state draw1 blankState)) (apply_state draw2 blankState))"
    );
}

#[test]
fn empty_record_is_blank_surface() {
    let e = convert_sk_record_to_ski_lang_expr(&vec![]);
    assert_eq!(root(&e), "blankSurface");
    assert_eq!(e.as_ref().len(), 1);
}

#[test]
fn clip_wraps_the_state_of_later_draws() {
    let clip = rec(0, Command::ClipRect(ClipRect { bounds: Some(bounds(0.0, 0.0, 10.0, 10.0)), clip_op: 1, do_anti_alias: true }));
    let e = convert_sk_record_to_ski_lang_expr(&vec![draw(1, "DrawRect"), clip, draw(2, "DrawRect")]);
    assert_eq!(
        root(&e),
        "(concat (concat blankSurface (apply_state draw1 blankState)) (apply_state draw2 (clipRect blankState clipIntersect)))"
    );
    let last_clip = e.as_ref().iter().find_map(|n| match n {
        SkiLang::ClipRectParams(p) => Some(*p),
        _ => None,
    });
    let p = last_clip.unwrap();
    assert!(p.is_anti_aliased);
    assert_eq!(f64::from_bits(p.bounds.r), 10.0);
}

#[test]
fn difference_clip_mode() {
    let clip = rec(0, Command::ClipRect(ClipRect { bounds: Some(bounds(0.0, 0.0, 1.0, 1.0)), clip_op: 0, do_anti_alias: false }));
    let e = convert_sk_record_to_ski_lang_expr(&vec![clip, draw(1, "DrawRect")]);
    assert_eq!(root(&e), "(concat blankSurface (apply_state draw1 (clipRect blankState clipDiff)))");
}

#[test]
fn save_restore_scopes_the_state() {
    let clip = rec(1, Command::ClipRect(ClipRect { bounds: Some(bounds(0.0, 0.0, 5.0, 5.0)), clip_op: 1, do_anti_alias: false }));
    let records = vec![
        rec(0, Command::Save(Save {})),
        clip,
        draw(2, "DrawRect"),
        rec(3, Command::Restore(Restore {})),
        draw(4, "DrawRect"),
    ];
    let e = convert_sk_record_to_ski_lang_expr(&records);
    assert_eq!(
        root(&e),
        "(concat (concat blankSurface (apply_state (concat blankSurface (apply_state draw2 (clipRect blankState clipIntersect))) blankState)) (apply_state draw4 blankState))"
    );
}

#[test]
fn save_layer_merges_its_surface() {
    let layer = rec(
        1,
        Command::SaveLayer(SaveLayer { paint: Some(paint(128, 0, 0, 0)), bounds: None, backdrop: None }),
    );
    let records = vec![draw(0, "DrawRect"), layer, draw(2, "DrawRect"), rec(3, Command::Restore(Restore {}))];
    let e = convert_sk_record_to_ski_lang_expr(&records);
    assert_eq!(
        root(&e),
        "(merge (concat blankSurface (apply_state draw0 blankState)) (concat blankSurface (apply_state draw2 blankState)) (merge_params_with_state layer1 blankState))"
    );
    let params = e.as_ref().iter().find_map(|n| match n {
        SkiLang::MergeParams(p) => Some(*p),
        _ => None,
    }).unwrap();
    assert_eq!(params.paint.color.a, 128);
    assert!(!params.has_bounds);
    assert!(!params.has_backdrop);
    assert_eq!(params.bounds.l, 0);
}

#[test]
fn save_layer_with_bounds_and_backdrop() {
    let layer = rec(
        0,
        Command::SaveLayer(SaveLayer {
            paint: Some(paint(255, 0, 0, 0)),
            bounds: Some(bounds(1.0, 2.0, 3.0, 4.0)),
            backdrop: Some(ImageFilter {}),
        }),
    );
    let e = convert_sk_record_to_ski_lang_expr(&vec![layer]);
    let params = e.as_ref().iter().find_map(|n| match n {
        SkiLang::MergeParams(p) => Some(*p),
        _ => None,
    }).unwrap();
    assert!(params.has_bounds);
    assert!(params.has_backdrop);
    assert_eq!(f64::from_bits(params.bounds.t), 2.0);
    assert_eq!(root(&e), "(merge blankSurface blankSurface (merge_params_with_state layer0 blankState))");
}

#[test]
fn clip_path_is_kept_as_an_opaque_state_op() {
    let e = convert_sk_record_to_ski_lang_expr(&vec![draw(0, "ClipPath"), draw(1, "ClipRRect"), draw(2, "DrawRect")]);
    assert_eq!(
        root(&e),
        "(concat blankSurface (apply_state draw2 (concat44 (concat44 blankState op0) op1)))"
    );
}

#[test]
fn concat44_multiplies_the_state() {
    let m: Vec<u64> = (0..16).map(|i| (i as f64).to_bits()).collect();
    let c = rec(0, Command::Concat44(Concat44 { matrix: Some(SkM44 { m }) }));
    let e = convert_sk_record_to_ski_lang_expr(&vec![c, draw(1, "DrawRect")]);
    assert_eq!(root(&e), "(concat blankSurface (apply_state draw1 (concat44 blankState m44)))");
    let m44 = e.as_ref().iter().find_map(|n| match n {
        SkiLang::M44(m) => Some(*m),
        _ => None,
    }).unwrap();
    let v: Vec<f64> = m44.as_vec().into_iter().map(f64::from_bits).collect();
    assert_eq!(v[5], 5.0);
    assert_eq!(v.len(), 16);
}

#[test]
fn top_level_restore_ends_the_conversion() {
    let bad = SkRecords { index: 9, command: None };
    let e = try_convert_sk_record_to_ski_lang_expr(&vec![draw(0, "DrawRect"), rec(1, Command::Restore(Restore {})), bad]);
    assert_eq!(root(&e.unwrap()), "(concat blankSurface (apply_state draw0 blankState))");
}

#[test]
fn record_without_command_cannot_be_converted() {
    let r = try_convert_sk_record_to_ski_lang_expr(&vec![SkRecords { index: 0, command: None }]);
    assert!(r.is_none());
}

#[test]
fn draw_without_paint_cannot_be_converted() {
    let d = rec(0, Command::DrawCommand(DrawCommand { name: "DrawRect".to_string(), paint: None }));
    assert!(try_convert_sk_record_to_ski_lang_expr(&vec![d]).is_none());
}

#[test]
fn nan_bounds_cannot_be_converted() {
    let clip = rec(0, Command::ClipRect(ClipRect { bounds: Some(bounds(f64::NAN, 0.0, 1.0, 1.0)), clip_op: 1, do_anti_alias: false }));
    assert!(try_convert_sk_record_to_ski_lang_expr(&vec![clip]).is_none());
}

#[test]
fn unknown_clip_op_cannot_be_converted() {
    let clip = rec(0, Command::ClipRect(ClipRect { bounds: Some(bounds(0.0, 0.0, 1.0, 1.0)), clip_op: 7, do_anti_alias: false }));
    assert!(try_convert_sk_record_to_ski_lang_expr(&vec![clip]).is_none());
}

#[test]
fn clip_without_bounds_cannot_be_converted() {
    let clip = rec(0, Command::ClipRect(ClipRect { bounds: None, clip_op: 1, do_anti_alias: false }));
    assert!(try_convert_sk_record_to_ski_lang_expr(&vec![clip]).is_none());
}

#[test]
fn short_matrix_cannot_be_converted() {
    let m: Vec<u64> = (0..15).map(|i| (i as f64).to_bits()).collect();
    let c = rec(0, Command::Concat44(Concat44 { matrix: Some(SkM44 { m }) }));
    assert!(try_convert_sk_record_to_ski_lang_expr(&vec![c]).is_none());
    let none = rec(0, Command::Concat44(Concat44 { matrix: None }));
    assert!(try_convert_sk_record_to_ski_lang_expr(&vec![none]).is_none());
}

#[test]
fn save_layer_without_paint_cannot_be_converted() {
    let layer = rec(0, Command::SaveLayer(SaveLayer { paint: None, bounds: None, backdrop: None }));
    assert!(try_convert_sk_record_to_ski_lang_expr(&vec![layer]).is_none());
}

#[test]
fn invalid_record_inside_a_save_cannot_be_converted() {
    let records = vec![rec(0, Command::Save(Save {})), SkRecords { index: 1, command: None }];
    assert!(try_convert_sk_record_to_ski_lang_expr(&records).is_none());
}

#[test]
fn blend_mode_is_read_from_the_blender() {
    let mut p = paint(255, 0, 0, 0);
    p.blender = Some(Blender { blend_mode: 1 });
    let d = rec(0, Command::DrawCommand(DrawCommand { name: "DrawRect".to_string(), paint: Some(p) }));
    let e = convert_sk_record_to_ski_lang_expr(&vec![d]);
    let dc = e.as_ref().iter().find_map(|n| match n {
        SkiLang::DrawCommand(d) => Some(*d),
        _ => None,
    }).unwrap();
    assert_eq!(dc.paint.blend_mode, ski_pass::ski_lang::SkiLangBlendMode::Src);
}
