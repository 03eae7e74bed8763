//! From an optimized SkiLang expression to the instructions of a SkiPass
//! program.
//!
//! A surface becomes the instructions that draw it. Whether those
//! instructions change the canvas state (a clip, a matrix) is recorded, so
//! that a surface drawn next to another one is wrapped in `save` and
//! `restore` when it would otherwise leak its state. A merge becomes a
//! `saveLayer` (or, when the layer has a backdrop or effects that SkiPass
//! does not rebuild, a copy of the recorded `saveLayer`), the
//! instructions of the merged surface and a `restore`, all under the state
//! of the merge, whose operations are replayed in the order in which they
//! were recorded.
use vstd::prelude::*;

use crate::protos::ski_pass_instruction::{
    ClipRect, Concat44, Instruction, InstructionView, Restore, Save, SaveLayer, SkiPassCopyRecord,
};
use crate::egg_expr::{id_index, usize_to_id};
use crate::protos::{instructions_view, Bounds, ClipOp, SkM44, SkRecords, SkiPassInstruction};
use crate::protos::sk_records::Command;
use crate::sk_record_to_ski_lang::{is_plain_draw, lemma_clip_then_draw, spec_converted_term};
use crate::ski_lang::{
    children, children_before, expr_len, get_node, operand_term, root_term, ski_lang_nodes, term_of, wf_expr,
    SkiLang, SkiLangClipRectMode,
    SkiLangClipRectParams, SkiLangMergeParams, SkiLangRect, SkiTerm, lemma_bounds_proto_round_trip,
};

verus! {

/// The view of a list of instructions.
pub type ProgramView = Seq<Option<InstructionView>>;

pub open spec fn save_view() -> Option<InstructionView> {
    Some(InstructionView::Save)
}

pub open spec fn restore_view() -> Option<InstructionView> {
    Some(InstructionView::Restore)
}

/// The instructions of a surface, wrapped in `save` and `restore` when
/// they change the canvas state.
pub open spec fn wrap_state(p: (ProgramView, bool)) -> ProgramView {
    if p.1 {
        seq![save_view()] + p.0 + seq![restore_view()]
    } else {
        p.0
    }
}

/// The instructions of a parameter node: nothing for no-ops, a matrix
/// multiplication, or a copy of the record as it was recorded.
pub open spec fn spec_to_instructions(t: SkiTerm) -> Option<ProgramView> {
    match t {
        SkiTerm::NoOp => Some(seq![]),
        SkiTerm::BlankState => Some(seq![]),
        SkiTerm::M44(m) => Some(seq![Some(InstructionView::Concat44(Some(m.entries())))]),
        SkiTerm::MatrixOpParams(p) => Some(
            seq![Some(InstructionView::CopyRecord(SkiPassCopyRecord { index: p.index, alpha: 255, paint: None }))],
        ),
        SkiTerm::DrawCommand(d) => Some(
            seq![
                Some(
                    InstructionView::CopyRecord(
                        SkiPassCopyRecord {
                            index: d.index,
                            paint: Some(d.paint.spec_to_proto()),
                            alpha: 255,
                        },
                    ),
                ),
            ],
        ),
        _ => None,
    }
}

/// The clip instruction of clip parameters.
pub open spec fn clip_instruction(p: SkiLangClipRectParams) -> Option<InstructionView> {
    Some(
        InstructionView::ClipRect(
            ClipRect {
                bounds: Some(p.bounds.spec_to_proto()),
                clip_op: match p.clip_rect_mode {
                    SkiLangClipRectMode::Intersect => ClipOp::Intersect.spec_value(),
                    SkiLangClipRectMode::Diff => ClipOp::Difference.spec_value(),
                },
                do_anti_alias: p.is_anti_aliased,
            },
        ),
    )
}

/// Whether SkiPass can rebuild the layer of a merge with a `saveLayer` of
/// its own (else it copies the recorded one).
pub open spec fn can_reconstruct(p: SkiLangMergeParams) -> bool {
    !p.has_backdrop && !p.paint.has_filters
}

/// The instructions that open the layer of a merge.
pub open spec fn open_layer(p: SkiLangMergeParams) -> Option<InstructionView> {
    if can_reconstruct(p) {
        Some(
            InstructionView::SaveLayer(
                SaveLayer {
                    paint: Some(p.paint.spec_to_proto()),
                    bounds: if p.has_bounds {
                        Some(p.bounds.spec_to_proto())
                    } else {
                        None
                    },
                    backdrop: None,
                },
            ),
        )
    } else {
        Some(
            InstructionView::CopyRecord(
                SkiPassCopyRecord { index: p.index, paint: Some(p.paint.spec_to_proto()), alpha: 255 },
            ),
        )
    }
}

/// The instructions of a merge, from those of its destination, of its
/// source and of its state.
pub open spec fn merge_instructions(
    dst: (ProgramView, bool),
    src: ProgramView,
    p: SkiLangMergeParams,
    state: ProgramView,
) -> ProgramView {
    let layer = seq![open_layer(p)] + src + seq![restore_view()];
    if state.len() > 0 {
        wrap_state(dst) + seq![save_view()] + state + layer + seq![restore_view()]
    } else {
        wrap_state(dst) + layer
    }
}

/// The instructions of a term and whether they change the canvas state;
/// `None` for a term that is not a surface or a state that SkiPass can
/// draw.
pub open spec fn spec_program(t: SkiTerm) -> Option<(ProgramView, bool)>
    decreases t, 0int,
{
    match t {
        SkiTerm::BlankSurface => Some((seq![], false)),
        SkiTerm::BlankState => Some((seq![], false)),
        SkiTerm::DrawCommand(_) => match spec_to_instructions(t) {
            Some(i) => Some((i, false)),
            None => None,
        },
        SkiTerm::MatrixOp(target, params) => match (spec_program(*target), spec_to_instructions(*params)) {
            (Some(p), Some(i)) => Some((i + p.0, true)),
            _ => None,
        },
        SkiTerm::Concat44(target, params) => match (spec_program(*target), spec_to_instructions(*params)) {
            (Some(p), Some(i)) => Some((i + p.0, true)),
            _ => None,
        },
        SkiTerm::ClipRect(target, params) => match (spec_program(*target), *params) {
            (Some(p), SkiTerm::ClipRectParams(c)) => Some((seq![clip_instruction(c)] + p.0, true)),
            _ => None,
        },
        SkiTerm::Concat(a, b) => match (spec_program(*a), spec_program(*b)) {
            (Some(pa), Some(pb)) => Some((wrap_state(pa) + wrap_state(pb), false)),
            _ => None,
        },
        SkiTerm::Merge(dst, src, params) => match (spec_program(*dst), spec_program(*src), *params) {
            (Some(pd), Some(ps), SkiTerm::MergeParamsWithState(mp, state)) => match (*mp, spec_state_program(*state)) {
                (SkiTerm::MergeParams(p), Some(pst)) => Some((merge_instructions(pd, ps.0, p, pst), false)),
                _ => None,
            },
            _ => None,
        },
        _ => None,
    }
}

/// The instructions that put in force the state of a merge. A state is
/// built by wrapping the state before it, so its operations come out in
/// the order in which they were recorded: those of the wrapped state
/// first, then the operation of the node. A term that is not a state is
/// drawn as a surface.
pub open spec fn spec_state_program(t: SkiTerm) -> Option<ProgramView>
    decreases t, 1int,
{
    match t {
        SkiTerm::BlankState => Some(seq![]),
        SkiTerm::MatrixOp(target, params) => match (spec_state_program(*target), spec_to_instructions(*params)) {
            (Some(p), Some(i)) => Some(p + i),
            _ => None,
        },
        SkiTerm::Concat44(target, params) => match (spec_state_program(*target), spec_to_instructions(*params)) {
            (Some(p), Some(i)) => Some(p + i),
            _ => None,
        },
        SkiTerm::ClipRect(target, params) => match (spec_state_program(*target), *params) {
            (Some(p), SkiTerm::ClipRectParams(c)) => Some(p + seq![clip_instruction(c)]),
            _ => None,
        },
        _ => match spec_program(t) {
            Some(p) => Some(p.0),
            None => None,
        },
    }
}

/// The instructions of a term that SkiPass can draw.
pub open spec fn spec_program_instructions(t: SkiTerm) -> ProgramView {
    match spec_program(t) {
        Some(p) => p.0,
        None => seq![],
    }
}

/// The instructions of a surface and whether they change the canvas
/// state.
#[derive(Debug)]
pub struct SkiPassSurface {
    instructions: Vec<SkiPassInstruction>,
    modified_state: bool,
}

impl SkiPassSurface {
    pub closed spec fn view_pair(&self) -> (ProgramView, bool) {
        (instructions_view(self.instructions@), self.modified_state)
    }
}

/// The program of an optimized expression, read from its root (its last
/// node).
pub fn expr_to_program(expr: &egg::RecExpr<SkiLang>) -> (instructions: Vec<SkiPassInstruction>)
    requires
        wf_expr(*expr),
        ski_lang_nodes(*expr).len() > 0,
        ski_lang_nodes(*expr).len() <= u32::MAX,
        spec_program(root_term(*expr)) is Some,
    ensures
        instructions_view(instructions@) == spec_program_instructions(root_term(*expr)),
{
    match try_expr_to_program(expr) {
        Some(i) => i,
        None => {
            assert(false);
            Vec::new()
        },
    }
}

/// The program of an expression, or `None` where the expression is empty
/// or its root is not a surface that SkiPass can draw.
pub fn try_expr_to_program(expr: &egg::RecExpr<SkiLang>) -> (r: Option<Vec<SkiPassInstruction>>)
    requires
        wf_expr(*expr),
        ski_lang_nodes(*expr).len() <= u32::MAX,
    ensures
        r is Some <==> (ski_lang_nodes(*expr).len() > 0 && spec_program(root_term(*expr)) is Some),
        r matches Some(instructions) ==> instructions_view(instructions@) == spec_program_instructions(root_term(*expr)),
{
    let n = expr_len(expr);
    if n == 0 {
        return None;
    }
    let id = usize_to_id(n - 1);
    match build_program(expr, id) {
        Some(surface) => Some(surface.instructions),
        None => None,
    }
}

fn push_instruction(v: &mut Vec<SkiPassInstruction>, i: SkiPassInstruction)
    ensures
        instructions_view(final(v)@) == instructions_view(old(v)@).push(i@),
{
    v.push(i);
    assert(instructions_view(v@) =~= instructions_view(old(v)@).push(i@));
}

fn append_instructions(v: &mut Vec<SkiPassInstruction>, other: &mut Vec<SkiPassInstruction>)
    ensures
        instructions_view(final(v)@) == instructions_view(old(v)@) + instructions_view(old(other)@),
{
    let ghost o = other@;
    v.append(other);
    assert(instructions_view(v@) =~= instructions_view(old(v)@) + instructions_view(o));
}

fn save() -> (i: SkiPassInstruction)
    ensures
        i@ == save_view(),
{
    SkiPassInstruction { instruction: Some(Instruction::Save(Save {  })) }
}

fn restore() -> (i: SkiPassInstruction)
    ensures
        i@ == restore_view(),
{
    SkiPassInstruction { instruction: Some(Instruction::Restore(Restore {  })) }
}

/// Appends the instructions of a surface, wrapped in `save` and `restore`
/// when they change the canvas state.
fn append_wrapped(v: &mut Vec<SkiPassInstruction>, s: SkiPassSurface)
    ensures
        instructions_view(final(v)@) == instructions_view(old(v)@) + wrap_state(s.view_pair()),
{
    let mut s = s;
    let ghost sv = s.view_pair();
    if s.modified_state {
        push_instruction(v, save());
        append_instructions(v, &mut s.instructions);
        push_instruction(v, restore());
        assert(instructions_view(v@) =~= instructions_view(old(v)@) + wrap_state(sv));
    } else {
        append_instructions(v, &mut s.instructions);
    }
}

/// The instructions of the surface or state at `id`, or `None` where it is
/// not one that SkiPass can draw.
fn build_program(expr: &egg::RecExpr<SkiLang>, id: egg::Id) -> (r: Option<SkiPassSurface>)
    requires
        wf_expr(*expr),
        id_index(id) < ski_lang_nodes(*expr).len(),
    ensures
        r is Some <==> spec_program(term_of(ski_lang_nodes(*expr), id_index(id) as int)) is Some,
        r matches Some(s) ==> s.view_pair() == spec_program(term_of(ski_lang_nodes(*expr), id_index(id) as int))->0,
    decreases id_index(id), 1int,
{
    let ghost s = ski_lang_nodes(*expr);
    let node = get_node(expr, id);
    assert(children_before(s[id_index(id) as int], id_index(id) as int));
    match node {
        SkiLang::BlankSurface => Some(SkiPassSurface { instructions: Vec::new(), modified_state: false }),
        SkiLang::BlankState => Some(SkiPassSurface { instructions: Vec::new(), modified_state: false }),
        SkiLang::DrawCommand(_) => {
            match to_instructions(expr, id) {
                Some(instructions) => Some(SkiPassSurface { instructions, modified_state: false }),
                None => None,
            }
        },
        SkiLang::MatrixOp(ids) | SkiLang::Concat44(ids) => {
            assert(children(*node)[0] == ids[0] && children(*node)[1] == ids[1]);
            let target_surface = build_program(expr, ids[0]);
            let matrix_op_instructions = to_instructions(expr, ids[1]);
            match (target_surface, matrix_op_instructions) {
                (Some(mut target_surface), Some(mut instructions)) => {
                    append_instructions(&mut instructions, &mut target_surface.instructions);
                    Some(SkiPassSurface { instructions, modified_state: true })
                },
                _ => None,
            }
        },
        SkiLang::ClipRect(ids) => {
            assert(children(*node)[0] == ids[0] && children(*node)[1] == ids[1]);
            let target_surface = match build_program(expr, ids[0]) {
                Some(t) => t,
                None => {
                    return None;
                },
            };
            assert(operand_term(s, id_index(id) as int, ids[1]) == term_of(s, id_index(ids[1]) as int));
            let clip_rect_params = match get_node(expr, ids[1]) {
                SkiLang::ClipRectParams(value) => value,
                _ => {
                    return None;
                },
            };
            let mut target_surface = target_surface;
            let mut instructions: Vec<SkiPassInstruction> = Vec::new();
            push_instruction(&mut instructions, clip_rect_instruction(clip_rect_params));
            append_instructions(&mut instructions, &mut target_surface.instructions);
            Some(SkiPassSurface { instructions, modified_state: true })
        },
        SkiLang::Concat(ids) => {
            assert(children(*node)[0] == ids[0] && children(*node)[1] == ids[1]);
            let p1 = build_program(expr, ids[0]);
            let p2 = build_program(expr, ids[1]);
            match (p1, p2) {
                (Some(p1), Some(p2)) => {
                    let mut instructions: Vec<SkiPassInstruction> = Vec::new();
                    append_wrapped(&mut instructions, p1);
                    append_wrapped(&mut instructions, p2);
                    Some(SkiPassSurface { instructions, modified_state: false })
                },
                _ => None,
            }
        },
        SkiLang::Merge(ids) => {
            assert(children(*node)[0] == ids[0] && children(*node)[1] == ids[1] && children(*node)[2] == ids[2]);
            build_merge(expr, id, *ids)
        },
        _ => None,
    }
}

/// The instructions that put in force the state at `id`, its operations in
/// the order in which they were recorded, or `None` where it is not one
/// that SkiPass can draw.
fn build_state_program(expr: &egg::RecExpr<SkiLang>, id: egg::Id) -> (r: Option<Vec<SkiPassInstruction>>)
    requires
        wf_expr(*expr),
        id_index(id) < ski_lang_nodes(*expr).len(),
    ensures
        r is Some <==> spec_state_program(term_of(ski_lang_nodes(*expr), id_index(id) as int)) is Some,
        r matches Some(v) ==> instructions_view(v@) == spec_state_program(
            term_of(ski_lang_nodes(*expr), id_index(id) as int),
        )->0,
    decreases id_index(id), 2int,
{
    let ghost s = ski_lang_nodes(*expr);
    let node = get_node(expr, id);
    assert(children_before(s[id_index(id) as int], id_index(id) as int));
    match node {
        SkiLang::BlankState => {
            let v: Vec<SkiPassInstruction> = Vec::new();
            assert(instructions_view(v@) =~= Seq::<Option<InstructionView>>::empty());
            Some(v)
        },
        SkiLang::MatrixOp(ids) | SkiLang::Concat44(ids) => {
            assert(children(*node)[0] == ids[0] && children(*node)[1] == ids[1]);
            let target = build_state_program(expr, ids[0]);
            let op_instructions = to_instructions(expr, ids[1]);
            match (target, op_instructions) {
                (Some(mut target), Some(mut instructions)) => {
                    append_instructions(&mut target, &mut instructions);
                    Some(target)
                },
                _ => None,
            }
        },
        SkiLang::ClipRect(ids) => {
            assert(children(*node)[0] == ids[0] && children(*node)[1] == ids[1]);
            let mut target = match build_state_program(expr, ids[0]) {
                Some(t) => t,
                None => {
                    return None;
                },
            };
            assert(operand_term(s, id_index(id) as int, ids[1]) == term_of(s, id_index(ids[1]) as int));
            let clip_rect_params = match get_node(expr, ids[1]) {
                SkiLang::ClipRectParams(value) => value,
                _ => {
                    return None;
                },
            };
            push_instruction(&mut target, clip_rect_instruction(clip_rect_params));
            Some(target)
        },
        _ => {
            match build_program(expr, id) {
                Some(surface) => Some(surface.instructions),
                None => None,
            }
        },
    }
}

/// The clip instruction of clip parameters.
fn clip_rect_instruction(clip_rect_params: &SkiLangClipRectParams) -> (i: SkiPassInstruction)
    ensures
        i@ == clip_instruction(*clip_rect_params),
{
    let bounds: Option<Bounds> = Some(clip_rect_params.bounds.to_proto());
    let clip_op: i32 = match clip_rect_params.clip_rect_mode {
        SkiLangClipRectMode::Intersect => ClipOp::Intersect.value(),
        SkiLangClipRectMode::Diff => ClipOp::Difference.value(),
    };
    let do_anti_alias: bool = clip_rect_params.is_anti_aliased;
    SkiPassInstruction {
        instruction: Some(Instruction::ClipRect(ClipRect { bounds, clip_op, do_anti_alias })),
    }
}

/// The instructions of the merge at `id` of `dst_id`, `src_id` and the
/// merge parameters with state at `params_id`.
fn build_merge(expr: &egg::RecExpr<SkiLang>, id: egg::Id, ids: [egg::Id; 3]) -> (r: Option<SkiPassSurface>)
    requires
        wf_expr(*expr),
        id_index(id) < ski_lang_nodes(*expr).len(),
        ski_lang_nodes(*expr)[id_index(id) as int] == SkiLang::Merge(ids),
        id_index(ids[0]) < id_index(id),
        id_index(ids[1]) < id_index(id),
        id_index(ids[2]) < id_index(id),
    ensures
        r is Some <==> spec_program(term_of(ski_lang_nodes(*expr), id_index(id) as int)) is Some,
        r matches Some(s) ==> s.view_pair() == spec_program(term_of(ski_lang_nodes(*expr), id_index(id) as int))->0,
    decreases id_index(id), 0int,
{
    let ghost s = ski_lang_nodes(*expr);
    let dst_id = ids[0];
    let src_id = ids[1];
    let params_id = ids[2];
    assert(operand_term(s, id_index(id) as int, params_id) == term_of(s, id_index(params_id) as int));
    assert(operand_term(s, id_index(id) as int, dst_id) == term_of(s, id_index(dst_id) as int));
    assert(operand_term(s, id_index(id) as int, src_id) == term_of(s, id_index(src_id) as int));
    let dst = build_program(expr, dst_id);
    let src = build_program(expr, src_id);
    let (mut dst, mut src) = match (dst, src) {
        (Some(d), Some(s)) => (d, s),
        _ => {
            return None;
        },
    };
    let (merge_params_id, state_expr_id) = match get_node(expr, params_id) {
        SkiLang::MergeParamsWithState(ids) => (ids[0], ids[1]),
        _ => {
            return None;
        },
    };
    assert(children_before(s[id_index(params_id) as int], id_index(params_id) as int));
    assert(children(s[id_index(params_id) as int])[0] == merge_params_id);
    assert(children(s[id_index(params_id) as int])[1] == state_expr_id);
    assert(operand_term(s, id_index(params_id) as int, merge_params_id) == term_of(s, id_index(merge_params_id) as int));
    assert(operand_term(s, id_index(params_id) as int, state_expr_id) == term_of(s, id_index(state_expr_id) as int));
    let merge_params = match get_node(expr, merge_params_id) {
        SkiLang::MergeParams(merge_params) => merge_params,
        _ => {
            return None;
        },
    };
    let state = build_state_program(expr, state_expr_id);
    let mut state_construction_instructions = match state {
        Some(st) => st,
        None => {
            return None;
        },
    };
    let ghost dst_v = dst.view_pair();
    let ghost src_v = src.view_pair();
    let ghost state_v = instructions_view(state_construction_instructions@);
    let mut instructions: Vec<SkiPassInstruction> = Vec::new();
    append_wrapped(&mut instructions, dst);
    let mut src_instructions: Vec<SkiPassInstruction> = Vec::new();
    let can_reconstruct = !merge_params.has_backdrop && !merge_params.paint.has_filters;
    if can_reconstruct {
        push_instruction(
            &mut src_instructions,
            SkiPassInstruction {
                instruction: Some(
                    Instruction::SaveLayer(
                        SaveLayer {
                            paint: Some(merge_params.paint.to_proto()),
                            bounds: if merge_params.has_bounds {
                                Some(merge_params.bounds.to_proto())
                            } else {
                                None
                            },
                            backdrop: None,
                        },
                    ),
                ),
            },
        );
    } else {
        push_instruction(
            &mut src_instructions,
            SkiPassInstruction {
                instruction: Some(
                    Instruction::CopyRecord(
                        SkiPassCopyRecord {
                            index: merge_params.index,
                            paint: Some(merge_params.paint.to_proto()),
                            alpha: 255,
                        },
                    ),
                ),
            },
        );
    }
    append_instructions(&mut src_instructions, &mut src.instructions);
    push_instruction(&mut src_instructions, restore());
    assert(instructions_view(src_instructions@) =~= seq![open_layer(*merge_params)] + src_v.0 + seq![restore_view()]);
    if state_construction_instructions.len() > 0 {
        push_instruction(&mut instructions, save());
        append_instructions(&mut instructions, &mut state_construction_instructions);
        append_instructions(&mut instructions, &mut src_instructions);
        push_instruction(&mut instructions, restore());
    } else {
        append_instructions(&mut instructions, &mut src_instructions);
    }
    proof {
        let t = term_of(s, id_index(id) as int);
        assert(instructions_view(instructions@) =~= merge_instructions(dst_v, src_v.0, *merge_params, state_v));
    }
    Some(SkiPassSurface { instructions, modified_state: false })
}

/// The instructions of a parameter node, or `None` where the node is not
/// one.
fn to_instructions(expr: &egg::RecExpr<SkiLang>, id: egg::Id) -> (r: Option<Vec<SkiPassInstruction>>)
    requires
        wf_expr(*expr),
        id_index(id) < ski_lang_nodes(*expr).len(),
    ensures
        r is Some <==> spec_to_instructions(term_of(ski_lang_nodes(*expr), id_index(id) as int)) is Some,
        r matches Some(v) ==> instructions_view(v@) == spec_to_instructions(term_of(ski_lang_nodes(*expr), id_index(id) as int))->0,
{
    let mut v: Vec<SkiPassInstruction> = Vec::new();
    match get_node(expr, id) {
        SkiLang::NoOp => {},
        SkiLang::BlankState => {},
        SkiLang::M44(m44) => {
            let m = m44.as_vec();
            push_instruction(
                &mut v,
                SkiPassInstruction {
                    instruction: Some(Instruction::Concat44(Concat44 { matrix: Some(SkM44 { m }) })),
                },
            );
        },
        SkiLang::MatrixOpParams(matrix_op_params) => {
            push_instruction(
                &mut v,
                SkiPassInstruction {
                    instruction: Some(
                        Instruction::CopyRecord(
                            SkiPassCopyRecord { index: matrix_op_params.index, alpha: 255, paint: None },
                        ),
                    ),
                },
            );
        },
        SkiLang::DrawCommand(draw_command) => {
            push_instruction(
                &mut v,
                SkiPassInstruction {
                    instruction: Some(
                        Instruction::CopyRecord(
                            SkiPassCopyRecord {
                                index: draw_command.index,
                                paint: Some(draw_command.paint.to_proto()),
                                alpha: 255,
                            },
                        ),
                    ),
                },
            );
        },
        _ => {
            return None;
        },
    }
    assert(instructions_view(v@) =~= spec_to_instructions(term_of(ski_lang_nodes(*expr), id_index(id) as int))->0);
    Some(v)
}


/// How an instruction changes the number of saved canvas states: a `save`
/// or a `saveLayer` saves one, a `restore` restores one.
pub open spec fn nesting_step(i: Option<InstructionView>) -> int {
    match i {
        Some(InstructionView::Save) => 1,
        Some(InstructionView::SaveLayer(_)) => 1,
        Some(InstructionView::Restore) => -1,
        _ => 0,
    }
}

/// The number of canvas states that a list of instructions leaves saved.
pub open spec fn nesting(s: ProgramView) -> int
    decreases s.len(),
{
    if s.len() == 0 {
        0
    } else {
        nesting(s.drop_last()) + nesting_step(s.last())
    }
}

/// A list of instructions that never restores a state it did not save,
/// and restores every state it saves.
pub open spec fn balanced(s: ProgramView) -> bool {
    &&& nesting(s) == 0
    &&& forall|k: int| 0 <= k <= s.len() ==> nesting(#[trigger] s.take(k)) >= 0
}

/// A list of instructions without `save`, `saveLayer` or `restore`.
pub open spec fn neutral(s: ProgramView) -> bool {
    forall|k: int| 0 <= k < s.len() ==> nesting_step(#[trigger] s[k]) == 0
}

/// Every merge of the term opens its layer with a `saveLayer` of its own
/// (no merge has a backdrop or effects).
pub open spec fn merges_reconstructable(t: SkiTerm) -> bool
    decreases t,
{
    match t {
        SkiTerm::Merge(d, s, p) => merges_reconstructable(*d) && merges_reconstructable(*s) && match *p {
            SkiTerm::MergeParamsWithState(mp, st) => merges_reconstructable(*st) && match *mp {
                SkiTerm::MergeParams(params) => can_reconstruct(params),
                _ => true,
            },
            _ => true,
        },
        SkiTerm::MatrixOp(a, _) => merges_reconstructable(*a),
        SkiTerm::Concat44(a, _) => merges_reconstructable(*a),
        SkiTerm::ClipRect(a, _) => merges_reconstructable(*a),
        SkiTerm::Concat(a, b) => merges_reconstructable(*a) && merges_reconstructable(*b),
        _ => true,
    }
}

proof fn lemma_nesting_concat(a: ProgramView, b: ProgramView)
    ensures
        nesting(a + b) == nesting(a) + nesting(b),
    decreases b.len(),
{
    if b.len() == 0 {
        assert(a + b =~= a);
    } else {
        assert((a + b).drop_last() =~= a + b.drop_last());
        lemma_nesting_concat(a, b.drop_last());
    }
}

proof fn lemma_neutral_nesting(s: ProgramView)
    requires
        neutral(s),
    ensures
        nesting(s) == 0,
    decreases s.len(),
{
    if s.len() > 0 {
        assert(nesting_step(s[s.len() - 1]) == 0);
        assert(neutral(s.drop_last()));
        lemma_neutral_nesting(s.drop_last());
    }
}

proof fn lemma_neutral_balanced(s: ProgramView)
    requires
        neutral(s),
    ensures
        balanced(s),
{
    lemma_neutral_nesting(s);
    assert forall|k: int| 0 <= k <= s.len() implies nesting(#[trigger] s.take(k)) >= 0 by {
        assert(neutral(s.take(k)));
        lemma_neutral_nesting(s.take(k));
    }
}

proof fn lemma_balanced_concat(a: ProgramView, b: ProgramView)
    requires
        balanced(a),
        balanced(b),
    ensures
        balanced(a + b),
{
    lemma_nesting_concat(a, b);
    assert forall|k: int| 0 <= k <= (a + b).len() implies nesting(#[trigger] (a + b).take(k)) >= 0 by {
        if k <= a.len() {
            assert((a + b).take(k) =~= a.take(k));
        } else {
            assert((a + b).take(k) =~= a + b.take(k - a.len()));
            lemma_nesting_concat(a, b.take(k - a.len()));
            assert(nesting(b.take(k - a.len())) >= 0);
        }
    }
}

/// Balanced instructions between an instruction that saves a state and a
/// `restore` are balanced.
proof fn lemma_balanced_wrap(open: Option<InstructionView>, x: ProgramView)
    requires
        nesting_step(open) == 1,
        balanced(x),
    ensures
        balanced(seq![open] + x + seq![restore_view()]),
{
    let w = seq![open] + x + seq![restore_view()];
    assert(nesting(seq![open]) == 1) by {
        reveal_with_fuel(nesting, 2);
        assert(seq![open].drop_last() =~= Seq::<Option<InstructionView>>::empty());
    }
    assert(nesting(seq![restore_view()]) == -1) by {
        reveal_with_fuel(nesting, 2);
        assert(seq![restore_view()].drop_last() =~= Seq::<Option<InstructionView>>::empty());
    }
    lemma_nesting_concat(seq![open], x);
    lemma_nesting_concat(seq![open] + x, seq![restore_view()]);
    assert forall|k: int| 0 <= k <= w.len() implies nesting(#[trigger] w.take(k)) >= 0 by {
        if k == 0 {
            assert(w.take(k) =~= Seq::<Option<InstructionView>>::empty());
        } else if k <= x.len() + 1 {
            assert(w.take(k) =~= seq![open] + x.take(k - 1));
            lemma_nesting_concat(seq![open], x.take(k - 1));
            assert(nesting(x.take(k - 1)) >= 0);
        } else {
            assert(w.take(k) =~= w);
        }
    }
}

proof fn lemma_instructions_neutral(t: SkiTerm)
    requires
        spec_to_instructions(t) is Some,
    ensures
        neutral(spec_to_instructions(t)->0),
{
}

/// The instructions that put a state in force, whose merges all rebuild
/// their layers, are balanced.
proof fn lemma_state_program_balanced(t: SkiTerm)
    requires
        spec_state_program(t) is Some,
        merges_reconstructable(t),
    ensures
        balanced(spec_state_program(t)->0),
    decreases t, 1int,
{
    let p = spec_state_program(t)->0;
    match t {
        SkiTerm::BlankState => {
            lemma_neutral_balanced(p);
        },
        SkiTerm::MatrixOp(a, params) | SkiTerm::Concat44(a, params) => {
            lemma_state_program_balanced(*a);
            lemma_instructions_neutral(*params);
            lemma_neutral_balanced(spec_to_instructions(*params)->0);
            lemma_balanced_concat(spec_state_program(*a)->0, spec_to_instructions(*params)->0);
        },
        SkiTerm::ClipRect(a, _) => {
            lemma_state_program_balanced(*a);
            let c = seq![p[p.len() - 1]];
            assert(neutral(c));
            lemma_neutral_balanced(c);
            lemma_balanced_concat(spec_state_program(*a)->0, c);
            assert(p =~= spec_state_program(*a)->0 + c);
        },
        _ => {
            lemma_program_balanced(t);
        },
    }
}

/// A drawable term whose merges all rebuild their layers compiles to a
/// balanced program: it never restores a canvas state it did not save,
/// and restores every state it saves.
pub proof fn lemma_program_balanced(t: SkiTerm)
    requires
        spec_program(t) is Some,
        merges_reconstructable(t),
    ensures
        balanced(spec_program_instructions(t)),
        balanced(wrap_state(spec_program(t)->0)),
    decreases t, 0int,
{
    let p = spec_program(t)->0;
    match t {
        SkiTerm::BlankSurface | SkiTerm::BlankState => {
            lemma_neutral_balanced(p.0);
        },
        SkiTerm::DrawCommand(_) => {
            lemma_instructions_neutral(t);
            lemma_neutral_balanced(p.0);
        },
        SkiTerm::MatrixOp(a, params) | SkiTerm::Concat44(a, params) => {
            lemma_program_balanced(*a);
            lemma_instructions_neutral(*params);
            lemma_neutral_balanced(spec_to_instructions(*params)->0);
            lemma_balanced_concat(spec_to_instructions(*params)->0, spec_program_instructions(*a));
        },
        SkiTerm::ClipRect(a, _) => {
            lemma_program_balanced(*a);
            let c = seq![p.0[0]];
            assert(neutral(c));
            lemma_neutral_balanced(c);
            lemma_balanced_concat(c, spec_program_instructions(*a));
            assert(p.0 =~= c + spec_program_instructions(*a));
        },
        SkiTerm::Concat(a, b) => {
            lemma_program_balanced(*a);
            lemma_program_balanced(*b);
            lemma_balanced_concat(wrap_state(spec_program(*a)->0), wrap_state(spec_program(*b)->0));
        },
        SkiTerm::Merge(d, src, params) => {
            lemma_program_balanced(*d);
            lemma_program_balanced(*src);
            match *params {
                SkiTerm::MergeParamsWithState(mp, st) => {
                    lemma_state_program_balanced(*st);
                    match *mp {
                        SkiTerm::MergeParams(mparams) => {
                            let dst_w = wrap_state(spec_program(*d)->0);
                            let state = spec_state_program(*st)->0;
                            let srcs = spec_program_instructions(*src);
                            let layer = seq![open_layer(mparams)] + srcs + seq![restore_view()];
                            lemma_balanced_wrap(open_layer(mparams), srcs);
                            if state.len() > 0 {
                                lemma_balanced_concat(state, layer);
                                lemma_balanced_wrap(save_view(), state + layer);
                                lemma_balanced_concat(dst_w, seq![save_view()] + (state + layer) + seq![restore_view()]);
                                assert(merge_instructions(spec_program(*d)->0, srcs, mparams, state)
                                    =~= dst_w + (seq![save_view()] + (state + layer) + seq![restore_view()]));
                            } else {
                                lemma_balanced_concat(dst_w, layer);
                            }
                        },
                        _ => {},
                    }
                },
                _ => {},
            }
        },
        _ => {},
    }
    if p.1 {
        lemma_balanced_wrap(save_view(), p.0);
    }
}

/// An instruction that changes the canvas state: a clip, a matrix, or a
/// copy of a recorded state operation (a copy without a paint).
pub open spec fn is_state_instruction(i: Option<InstructionView>) -> bool {
    match i {
        Some(InstructionView::ClipRect(_)) => true,
        Some(InstructionView::Concat44(_)) => true,
        Some(InstructionView::CopyRecord(r)) => r.paint is None,
        _ => false,
    }
}

/// Every instruction of the list that changes the canvas state stands
/// inside a saved state, so that its `restore` takes the change back.
pub open spec fn state_confined(s: ProgramView) -> bool {
    forall|k: int| 0 <= k < s.len() && is_state_instruction(#[trigger] s[k]) ==> nesting(s.take(k)) >= 1
}

proof fn lemma_confined_concat(a: ProgramView, b: ProgramView)
    requires
        state_confined(a),
        state_confined(b),
        balanced(a),
    ensures
        state_confined(a + b),
{
    assert forall|k: int| 0 <= k < (a + b).len() && is_state_instruction(#[trigger] (a + b)[k]) implies nesting(
        (a + b).take(k),
    ) >= 1 by {
        if k < a.len() {
            assert((a + b).take(k) =~= a.take(k));
            assert((a + b)[k] == a[k]);
        } else {
            let j = k - a.len();
            assert((a + b)[k] == b[j]);
            assert((a + b).take(k) =~= a + b.take(j));
            lemma_nesting_concat(a, b.take(j));
        }
    }
}

/// Between an instruction that saves a state and a `restore`, every
/// instruction of a balanced list stands inside a saved state.
proof fn lemma_confined_wrap(open: Option<InstructionView>, x: ProgramView)
    requires
        nesting_step(open) == 1,
        balanced(x),
    ensures
        state_confined(seq![open] + x + seq![restore_view()]),
{
    let w = seq![open] + x + seq![restore_view()];
    assert(nesting(seq![open]) == 1) by {
        reveal_with_fuel(nesting, 2);
        assert(seq![open].drop_last() =~= Seq::<Option<InstructionView>>::empty());
    }
    assert forall|k: int| 0 <= k < w.len() && is_state_instruction(#[trigger] w[k]) implies nesting(w.take(k)) >= 1 by {
        if k == 0 {
            assert(w[0] == open);
        } else if k <= x.len() {
            assert(w.take(k) =~= seq![open] + x.take(k - 1));
            lemma_nesting_concat(seq![open], x.take(k - 1));
            assert(nesting(x.take(k - 1)) >= 0);
        } else {
            assert(w[k] == restore_view());
        }
    }
}

/// A drawable surface whose merges all rebuild their layers never leaves a
/// clip or a matrix in force outside a saved state: drawn next to another
/// surface (wrapped in `save` and `restore` where it changes the state),
/// every one of its state instructions is taken back by a `restore`; and
/// where it reports that it leaves the state unchanged, that holds of its
/// own instructions. So the state of a merge's destination never reaches
/// the layer drawn after it.
pub proof fn lemma_program_state_confined(t: SkiTerm)
    requires
        spec_program(t) is Some,
        merges_reconstructable(t),
    ensures
        state_confined(wrap_state(spec_program(t)->0)),
        !(spec_program(t)->0).1 ==> state_confined(spec_program_instructions(t)),
    decreases t,
{
    let p = spec_program(t)->0;
    lemma_program_balanced(t);
    if p.1 {
        lemma_confined_wrap(save_view(), p.0);
    } else {
        match t {
            SkiTerm::DrawCommand(_) => {
                assert(!is_state_instruction(p.0[0]));
            },
            SkiTerm::Concat(a, b) => {
                lemma_program_state_confined(*a);
                lemma_program_state_confined(*b);
                lemma_program_balanced(*a);
                lemma_confined_concat(wrap_state(spec_program(*a)->0), wrap_state(spec_program(*b)->0));
            },
            SkiTerm::Merge(d, src, params) => {
                lemma_program_state_confined(*d);
                lemma_program_balanced(*d);
                lemma_program_balanced(*src);
                match *params {
                    SkiTerm::MergeParamsWithState(mp, st) => {
                        lemma_state_program_balanced(*st);
                        match *mp {
                            SkiTerm::MergeParams(mparams) => {
                                let dst_w = wrap_state(spec_program(*d)->0);
                                let state = spec_state_program(*st)->0;
                                let srcs = spec_program_instructions(*src);
                                let layer = seq![open_layer(mparams)] + srcs + seq![restore_view()];
                                lemma_balanced_wrap(open_layer(mparams), srcs);
                                lemma_confined_wrap(open_layer(mparams), srcs);
                                if state.len() > 0 {
                                    lemma_balanced_concat(state, layer);
                                    lemma_confined_wrap(save_view(), state + layer);
                                    lemma_confined_concat(dst_w, seq![save_view()] + (state + layer) + seq![restore_view()]);
                                    assert(merge_instructions(spec_program(*d)->0, srcs, mparams, state)
                                        =~= dst_w + (seq![save_view()] + (state + layer) + seq![restore_view()]));
                                } else {
                                    lemma_confined_concat(dst_w, layer);
                                }
                            },
                            _ => {},
                        }
                    },
                    _ => {},
                }
            },
            _ => {},
        }
    }
}

/// A clip recorded before a draw and converted to SkiLang is written back
/// as the same clip: its bounds, its operation and its anti-aliasing flag
/// are those of the record.
pub proof fn lemma_clip_written_back(clip: SkRecords, draw: SkRecords)
    requires
        clip.command matches Some(Command::ClipRect(c)) && c.bounds is Some && (c.clip_op == 0 || c.clip_op == 1)
            && SkiLangRect::bounds_are_numbers(c.bounds->0),
        is_plain_draw(draw),
    ensures
        ({
            let recorded = clip.command->Some_0->ClipRect_0;
            let applied: SkiTerm = *spec_converted_term(seq![clip, draw])->Concat_1;
            let clipped: SkiTerm = *applied->ApplyState_1;
            let params: SkiTerm = *clipped->ClipRect_1;
            &&& clipped is ClipRect
            &&& params is ClipRectParams
            &&& clip_instruction(params->ClipRectParams_0) == Some(
                InstructionView::ClipRect(
                    ClipRect {
                        bounds: recorded.bounds,
                        clip_op: recorded.clip_op,
                        do_anti_alias: recorded.do_anti_alias,
                    },
                ),
            )
        }),
{
    let recorded = clip.command->Some_0->ClipRect_0;
    lemma_clip_then_draw(clip, draw);
    lemma_bounds_proto_round_trip(recorded.bounds->0);
}

} // verus!
