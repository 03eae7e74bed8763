use ski_pass::protos::ski_pass_instruction::{
    ClipRect, Concat44, Instruction, Restore, Save, SaveLayer, SkiPassCopyRecord,
};
use ski_pass::protos::sk_paint::{Blender, ImageFilter};
use ski_pass::protos::{Bounds, SkColor, SkM44, SkPaint, SkiPassInstruction};
use egg::RecExpr;
use ski_pass::ski_lang::{
    SkiLang, SkiLangBlendMode, SkiLangClipRectMode, SkiLangClipRectParams, SkiLangColor,
    SkiLangDrawCommand, SkiLangM44, SkiLangMatrixOpParams, SkiLangMergeParams, SkiLangPaint, SkiLangRect,
};
use ski_pass::ski_lang_to_program::{expr_to_program, try_expr_to_program};

fn sk_paint(a: i32, r: i32, g: i32, b: i32) -> SkiLangPaint {
    SkiLangPaint { color: SkiLangColor { a, r, g, b }, blend_mode: SkiLangBlendMode::SrcOver, has_filters: false }
}

fn proto_paint(a: i32, r: i32, g: i32, b: i32, blend_mode: i32, filtered: bool) -> SkPaint {
    SkPaint {
        color: Some(SkColor { alpha_u8: a, red_u8: r, green_u8: g, blue_u8: b }),
        blender: Some(Blender { blend_mode }),
        image_filter: if filtered { Some(ImageFilter {}) } else { None },
        color_filter: None,
        path_effect: None,
        mask_filter: None,
        shader: None,
    }
}

fn rect(l: f64, t: f64, r: f64, b: f64) -> SkiLangRect {
    SkiLangRect { l: l.to_bits(), t: t.to_bits(), r: r.to_bits(), b: b.to_bits() }
}

fn identity_bits() -> Vec<u64> {
    let mut m = vec![0.0f64.to_bits(); 16];
    for i in 0..4 {
        m[i * 5] = 1.0f64.to_bits();
    }
    m
}

fn instr(i: Instruction) -> SkiPassInstruction {
    SkiPassInstruction { instruction: Some(i) }
}

fn copy(index: i32, paint: Option<SkPaint>) -> SkiPassInstruction {
    instr(Instruction::CopyRecord(SkiPassCopyRecord { index, paint, alpha: 255 }))
}

fn save() -> SkiPassInstruction {
    instr(Instruction::Save(Save {}))
}

fn restore() -> SkiPassInstruction {
    instr(Instruction::Restore(Restore {}))
}

fn same(a: &[SkiPassInstruction], b: &[SkiPassInstruction]) {
    assert_eq!(format!("{:?}", a), format!("{:?}", b));
}

#[test]
fn blank_surface_is_the_empty_program() {
    let mut e = RecExpr::<SkiLang>::default();
    e.add(SkiLang::BlankSurface);
    assert!(expr_to_program(&e).is_empty());
}

#[test]
fn draw_command_is_copied_with_its_paint() {
    let mut e = RecExpr::<SkiLang>::default();
    e.add(SkiLang::DrawCommand(SkiLangDrawCommand { index: 4, paint: sk_paint(200, 1, 2, 3) }));
    same(&expr_to_program(&e), &[copy(4, Some(proto_paint(200, 1, 2, 3, 2, false)))]);
}

#[test]
fn clipped_draw_next_to_another_is_saved_and_restored() {
    let mut e = RecExpr::<SkiLang>::default();
    let blank = e.add(SkiLang::BlankSurface);
    let d = e.add(SkiLang::DrawCommand(SkiLangDrawCommand { index: 1, paint: sk_paint(255, 9, 9, 9) }));
    let cp = e.add(SkiLang::ClipRectParams(SkiLangClipRectParams {
        clip_rect_mode: SkiLangClipRectMode::Intersect,
        bounds: rect(0.0, 0.0, 10.0, 20.0),
        is_anti_aliased: true,
    }));
    let c = e.add(SkiLang::ClipRect([d, cp]));
    let d2 = e.add(SkiLang::DrawCommand(SkiLangDrawCommand { index: 2, paint: sk_paint(255, 9, 9, 9) }));
    let first = e.add(SkiLang::Concat([blank, c]));
    e.add(SkiLang::Concat([first, d2]));
    let clip = instr(Instruction::ClipRect(ClipRect {
        bounds: Some(Bounds {
            left: 0.0f64.to_bits(),
            top: 0.0f64.to_bits(),
            right: 10.0f64.to_bits(),
            bottom: 20.0f64.to_bits(),
        }),
        clip_op: 1,
        do_anti_alias: true,
    }));
    let p = proto_paint(255, 9, 9, 9, 2, false);
    same(
        &expr_to_program(&e),
        &[save(), clip, copy(1, Some(p)), restore(), copy(2, Some(p))],
    );
}

#[test]
fn difference_clip_has_clip_op_zero() {
    let mut e = RecExpr::<SkiLang>::default();
    let d = e.add(SkiLang::DrawCommand(SkiLangDrawCommand { index: 1, paint: sk_paint(255, 0, 0, 0) }));
    let cp = e.add(SkiLang::ClipRectParams(SkiLangClipRectParams {
        clip_rect_mode: SkiLangClipRectMode::Diff,
        bounds: rect(1.0, 2.0, 3.0, 4.0),
        is_anti_aliased: false,
    }));
    e.add(SkiLang::ClipRect([d, cp]));
    let program = expr_to_program(&e);
    assert_eq!(program.len(), 2);
    match &program[0].instruction {
        Some(Instruction::ClipRect(c)) => {
            assert_eq!(c.clip_op, 0);
            assert!(!c.do_anti_alias);
            assert_eq!(f64::from_bits(c.bounds.unwrap().bottom), 4.0);
        }
        other => panic!("expected a clip, got {:?}", other),
    }
}

#[test]
fn matrix_op_copies_its_record_before_the_target() {
    let mut e = RecExpr::<SkiLang>::default();
    let d = e.add(SkiLang::DrawCommand(SkiLangDrawCommand { index: 3, paint: sk_paint(255, 0, 0, 0) }));
    let op = e.add(SkiLang::MatrixOpParams(SkiLangMatrixOpParams { index: 7 }));
    e.add(SkiLang::MatrixOp([d, op]));
    same(&expr_to_program(&e), &[copy(7, None), copy(3, Some(proto_paint(255, 0, 0, 0, 2, false)))]);
}

#[test]
fn reconstructable_merge_under_a_matrix() {
    let mut e = RecExpr::<SkiLang>::default();
    let blank = e.add(SkiLang::BlankSurface);
    let d = e.add(SkiLang::DrawCommand(SkiLangDrawCommand { index: 3, paint: sk_paint(255, 5, 6, 7) }));
    let layer_paint = sk_paint(128, 10, 20, 30);
    let mp = e.add(SkiLang::MergeParams(SkiLangMergeParams {
        index: 1,
        paint: layer_paint,
        has_backdrop: false,
        has_bounds: false,
        bounds: SkiLangRect::empty(),
    }));
    let m = e.add(SkiLang::M44(SkiLangM44::from_vec(identity_bits())));
    let st = e.add(SkiLang::BlankState);
    let state = e.add(SkiLang::Concat44([st, m]));
    let mps = e.add(SkiLang::MergeParamsWithState([mp, state]));
    e.add(SkiLang::Merge([blank, d, mps]));
    let expected = vec![
        save(),
        instr(Instruction::Concat44(Concat44 { matrix: Some(SkM44 { m: identity_bits() }) })),
        instr(Instruction::SaveLayer(SaveLayer {
            paint: Some(proto_paint(128, 10, 20, 30, 2, false)),
            bounds: None,
            backdrop: None,
        })),
        copy(3, Some(proto_paint(255, 5, 6, 7, 2, false))),
        restore(),
        restore(),
    ];
    same(&expr_to_program(&e), &expected);
}

#[test]
fn merge_with_bounds_passes_them_to_the_layer() {
    let mut e = RecExpr::<SkiLang>::default();
    let blank = e.add(SkiLang::BlankSurface);
    let src = e.add(SkiLang::BlankSurface);
    let mp = e.add(SkiLang::MergeParams(SkiLangMergeParams {
        index: 0,
        paint: sk_paint(255, 0, 0, 0),
        has_backdrop: false,
        has_bounds: true,
        bounds: rect(0.0, 0.0, 8.0, 8.0),
    }));
    let st = e.add(SkiLang::BlankState);
    let mps = e.add(SkiLang::MergeParamsWithState([mp, st]));
    e.add(SkiLang::Merge([blank, src, mps]));
    let expected = vec![
        instr(Instruction::SaveLayer(SaveLayer {
            paint: Some(proto_paint(255, 0, 0, 0, 2, false)),
            bounds: Some(Bounds {
                left: 0.0f64.to_bits(),
                top: 0.0f64.to_bits(),
                right: 8.0f64.to_bits(),
                bottom: 8.0f64.to_bits(),
            }),
            backdrop: None,
        })),
        restore(),
    ];
    same(&expr_to_program(&e), &expected);
}

#[test]
fn merge_with_backdrop_copies_the_recorded_layer() {
    let mut e = RecExpr::<SkiLang>::default();
    let blank = e.add(SkiLang::BlankSurface);
    let d = e.add(SkiLang::DrawCommand(SkiLangDrawCommand { index: 6, paint: sk_paint(255, 1, 1, 1) }));
    let mut layer_paint = sk_paint(90, 0, 0, 0);
    layer_paint.blend_mode = SkiLangBlendMode::Src;
    let mp = e.add(SkiLang::MergeParams(SkiLangMergeParams {
        index: 5,
        paint: layer_paint,
        has_backdrop: true,
        has_bounds: false,
        bounds: SkiLangRect::empty(),
    }));
    let st = e.add(SkiLang::BlankState);
    let mps = e.add(SkiLang::MergeParamsWithState([mp, st]));
    e.add(SkiLang::Merge([blank, d, mps]));
    let expected = vec![
        copy(5, Some(proto_paint(90, 0, 0, 0, 1, false))),
        copy(6, Some(proto_paint(255, 1, 1, 1, 2, false))),
        restore(),
    ];
    same(&expr_to_program(&e), &expected);
}

#[test]
fn merge_with_filtered_paint_copies_the_recorded_layer() {
    let mut e = RecExpr::<SkiLang>::default();
    let blank = e.add(SkiLang::BlankSurface);
    let src = e.add(SkiLang::BlankSurface);
    let mut layer_paint = sk_paint(255, 0, 0, 0);
    layer_paint.has_filters = true;
    let mp = e.add(SkiLang::MergeParams(SkiLangMergeParams {
        index: 2,
        paint: layer_paint,
        has_backdrop: false,
        has_bounds: false,
        bounds: SkiLangRect::empty(),
    }));
    let st = e.add(SkiLang::BlankState);
    let mps = e.add(SkiLang::MergeParamsWithState([mp, st]));
    e.add(SkiLang::Merge([blank, src, mps]));
    same(&expr_to_program(&e), &[copy(2, Some(proto_paint(255, 0, 0, 0, 2, true))), restore()]);
}

#[test]
fn empty_expression_has_no_program() {
    assert!(try_expr_to_program(&RecExpr::<SkiLang>::default()).is_none());
}

#[test]
fn virtual_operation_at_the_root_has_no_program() {
    let mut e = RecExpr::<SkiLang>::default();
    let d = e.add(SkiLang::DrawCommand(SkiLangDrawCommand { index: 0, paint: sk_paint(255, 0, 0, 0) }));
    let st = e.add(SkiLang::BlankState);
    e.add(SkiLang::ApplyState([d, st]));
    assert!(try_expr_to_program(&e).is_none());
}

#[test]
fn parameters_at_the_root_have_no_program() {
    let mut e = RecExpr::<SkiLang>::default();
    e.add(SkiLang::Rect(SkiLangRect::empty()));
    assert!(try_expr_to_program(&e).is_none());
}

#[test]
fn concat_of_merges_is_balanced() {
    let mut e = RecExpr::<SkiLang>::default();
    let blank = e.add(SkiLang::BlankSurface);
    let d = e.add(SkiLang::DrawCommand(SkiLangDrawCommand { index: 1, paint: sk_paint(255, 0, 0, 0) }));
    let mp = e.add(SkiLang::MergeParams(SkiLangMergeParams {
        index: 0,
        paint: sk_paint(100, 0, 0, 0),
        has_backdrop: false,
        has_bounds: false,
        bounds: SkiLangRect::empty(),
    }));
    let st = e.add(SkiLang::BlankState);
    let cp = e.add(SkiLang::ClipRectParams(SkiLangClipRectParams {
        clip_rect_mode: SkiLangClipRectMode::Intersect,
        bounds: rect(0.0, 0.0, 1.0, 1.0),
        is_anti_aliased: false,
    }));
    let clipped_state = e.add(SkiLang::ClipRect([st, cp]));
    let mps = e.add(SkiLang::MergeParamsWithState([mp, clipped_state]));
    let merge = e.add(SkiLang::Merge([blank, d, mps]));
    e.add(SkiLang::Concat([merge, merge]));
    let program = expr_to_program(&e);
    let mut depth: i32 = 0;
    for i in &program {
        match &i.instruction {
            Some(Instruction::Save(_)) | Some(Instruction::SaveLayer(_)) => depth += 1,
            Some(Instruction::Restore(_)) => {
                depth -= 1;
                assert!(depth >= 0);
            }
            _ => {}
        }
    }
    assert_eq!(depth, 0);
    assert_eq!(program.len(), 12);
}

#[test]
fn merge_state_is_replayed_in_recording_order() {
    let mut e = RecExpr::<SkiLang>::default();
    let blank = e.add(SkiLang::BlankSurface);
    let d = e.add(SkiLang::DrawCommand(SkiLangDrawCommand { index: 3, paint: sk_paint(255, 5, 6, 7) }));
    let mp = e.add(SkiLang::MergeParams(SkiLangMergeParams {
        index: 1,
        paint: sk_paint(128, 10, 20, 30),
        has_backdrop: false,
        has_bounds: false,
        bounds: SkiLangRect::empty(),
    }));
    let st = e.add(SkiLang::BlankState);
    let cp = e.add(SkiLang::ClipRectParams(SkiLangClipRectParams {
        clip_rect_mode: SkiLangClipRectMode::Intersect,
        bounds: rect(0.0, 0.0, 8.0, 8.0),
        is_anti_aliased: false,
    }));
    // recorded: a clip, then a matrix
    let clipped = e.add(SkiLang::ClipRect([st, cp]));
    let m = e.add(SkiLang::M44(SkiLangM44::from_vec(identity_bits())));
    let state = e.add(SkiLang::Concat44([clipped, m]));
    let mps = e.add(SkiLang::MergeParamsWithState([mp, state]));
    e.add(SkiLang::Merge([blank, d, mps]));
    let expected = vec![
        save(),
        instr(Instruction::ClipRect(ClipRect {
            bounds: Some(Bounds {
                left: 0.0f64.to_bits(),
                top: 0.0f64.to_bits(),
                right: 8.0f64.to_bits(),
                bottom: 8.0f64.to_bits(),
            }),
            clip_op: 1,
            do_anti_alias: false,
        })),
        instr(Instruction::Concat44(Concat44 { matrix: Some(SkM44 { m: identity_bits() }) })),
        instr(Instruction::SaveLayer(SaveLayer {
            paint: Some(proto_paint(128, 10, 20, 30, 2, false)),
            bounds: None,
            backdrop: None,
        })),
        copy(3, Some(proto_paint(255, 5, 6, 7, 2, false))),
        restore(),
        restore(),
    ];
    same(&expr_to_program(&e), &expected);
}
