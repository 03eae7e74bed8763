//! From the records of an `SkRecord` to a SkiLang expression.
//!
//! The conversion walks the records as a canvas does. It keeps the surface
//! drawn so far and the state in force (the matrices and clips). A state
//! command wraps the state; a draw command adds itself, under the state, to
//! the surface; a `save` converts what follows up to its `restore` as a
//! surface of its own, put under the state of the save; a `saveLayer` does
//! the same, but merges the inner surface into the outer one with its own
//! parameters. A `restore` ends the surface being converted.
//!
//! The nodes are appended to one `egg::RecExpr`, in which the state in force
//! is written once and named by every draw under it. The result is the
//! tree of the surface, written out by `term_to_expr` with each operand
//! copied once per use, so that its root is its last node. No rewrite
//! runs during the conversion, so an e-graph would hold the same terms:
//! the plain expression lets the contract state them exactly.
use vstd::prelude::*;

use crate::protos::sk_records::{Command, SaveLayer};
use crate::egg_expr::id_index;
use crate::protos::{ClipOp, SkRecords};
use crate::ski_lang::{
    add_node, expr_len, new_expr, root_term, term_size, term_to_expr, ski_lang_nodes, sixteen_numbers, wf_expr, SkiLang,
    SkiLangClipRectMode, SkiLangClipRectParams,
    SkiLangDrawCommand, SkiLangM44, SkiLangMatrixOpParams, SkiLangMergeParams, SkiLangPaint,
    SkiLangRect, SkiTerm, term_of, operand_term, extends, lemma_extends_refl, lemma_extends_terms, lemma_extends_trans,
};

verus! {

/// Where a draw command stands for a state operation that SkiPass keeps
/// as it is (a clip by a path or by a rounded rectangle).
pub open spec fn is_opaque_state_op(name: Seq<char>) -> bool {
    name == "ClipPath"@ || name == "ClipRRect"@
}

/// The clip mode of a clip operation number, if it is one.
pub open spec fn clip_mode_of(clip_op: i32) -> Option<SkiLangClipRectMode> {
    if clip_op == ClipOp::Difference.spec_value() {
        Some(SkiLangClipRectMode::Diff)
    } else if clip_op == ClipOp::Intersect.spec_value() {
        Some(SkiLangClipRectMode::Intersect)
    } else {
        None
    }
}

/// A `saveLayer` can be converted: it carries a paint, and its bounds, if
/// any, are numbers.
pub open spec fn save_layer_convertible(save_layer: SaveLayer) -> bool {
    &&& save_layer.paint is Some
    &&& (save_layer.bounds matches Some(b) ==> SkiLangRect::bounds_are_numbers(b))
}

/// The merge parameters of the `saveLayer` at record `index`.
pub open spec fn spec_merge_params(index: i32, save_layer: SaveLayer) -> SkiLangMergeParams {
    SkiLangMergeParams {
        index,
        paint: SkiLangPaint::spec_from_proto(save_layer.paint->0),
        has_backdrop: save_layer.backdrop is Some,
        has_bounds: save_layer.bounds is Some,
        bounds: match save_layer.bounds {
            Some(b) => SkiLangRect::spec_from_bounds_proto(b),
            None => SkiLangRect::spec_empty(),
        },
    }
}

pub open spec fn box2(x: SkiTerm) -> Box<SkiTerm> {
    Box::new(x)
}

/// The surface and the state after a command other than `save`,
/// `saveLayer` and `restore`, at record `index`; `None` where the command
/// cannot be converted.
pub open spec fn draw_step(index: i32, command: Command, surface: SkiTerm, state: SkiTerm) -> Option<
    (SkiTerm, SkiTerm),
> {
    match command {
        Command::Concat44(c) => match c.matrix {
            Some(m) => if sixteen_numbers(m.m@) {
                Some(
                    (
                        surface,
                        SkiTerm::Concat44(
                            box2(state),
                            box2(SkiTerm::M44(SkiLangM44::spec_from_vec(m.m@))),
                        ),
                    ),
                )
            } else {
                None
            },
            None => None,
        },
        Command::ClipRect(c) => match c.bounds {
            Some(b) => match clip_mode_of(c.clip_op) {
                Some(mode) => if SkiLangRect::bounds_are_numbers(b) {
                    Some(
                        (
                            surface,
                            SkiTerm::ClipRect(
                                box2(state),
                                box2(
                                    SkiTerm::ClipRectParams(
                                        SkiLangClipRectParams {
                                            clip_rect_mode: mode,
                                            bounds: SkiLangRect::spec_from_bounds_proto(b),
                                            is_anti_aliased: c.do_anti_alias,
                                        },
                                    ),
                                ),
                            ),
                        ),
                    )
                } else {
                    None
                },
                None => None,
            },
            None => None,
        },
        Command::DrawCommand(d) => if is_opaque_state_op(d.name@) {
            Some(
                (
                    surface,
                    SkiTerm::Concat44(
                        box2(state),
                        box2(SkiTerm::MatrixOpParams(SkiLangMatrixOpParams { index })),
                    ),
                ),
            )
        } else if d.paint is Some {
            Some(
                (
                    SkiTerm::Concat(
                        box2(surface),
                        box2(
                            SkiTerm::ApplyState(
                                box2(
                                    SkiTerm::DrawCommand(
                                        SkiLangDrawCommand {
                                            index,
                                            paint: SkiLangPaint::spec_from_proto(d.paint->0),
                                        },
                                    ),
                                ),
                                box2(state),
                            ),
                        ),
                    ),
                    state,
                ),
            )
        } else {
            None
        },
        _ => None,
    }
}

/// The surface that the records from `pos` on add to `surface`, under
/// `state`, up to the first `restore` that is not matched or to the end,
/// with the position after the last record read; `None` where a record on
/// the way cannot be converted.
pub open spec fn build_spec(recs: Seq<SkRecords>, pos: int, surface: SkiTerm, state: SkiTerm) -> Option<
    (SkiTerm, int),
>
    decreases recs.len() - pos,
{
    if !(0 <= pos < recs.len()) {
        Some((surface, pos))
    } else {
        let rec = recs[pos];
        match rec.command {
            None => None,
            Some(Command::Restore(_)) => Some((surface, pos + 1)),
            Some(Command::Save(_)) => match build_spec(
                recs,
                pos + 1,
                SkiTerm::BlankSurface,
                SkiTerm::BlankState,
            ) {
                Some((inner, next)) => if pos < next <= recs.len() {
                    build_spec(
                        recs,
                        next,
                        SkiTerm::Concat(
                            box2(surface),
                            box2(SkiTerm::ApplyState(box2(inner), box2(state))),
                        ),
                        state,
                    )
                } else {
                    None
                },
                None => None,
            },
            Some(Command::SaveLayer(save_layer)) => if save_layer_convertible(save_layer) {
                match build_spec(recs, pos + 1, SkiTerm::BlankSurface, SkiTerm::BlankState) {
                    Some((inner, next)) => if pos < next <= recs.len() {
                        build_spec(
                            recs,
                            next,
                            SkiTerm::Merge(
                                box2(surface),
                                box2(inner),
                                box2(
                                    SkiTerm::MergeParamsWithState(
                                        box2(
                                            SkiTerm::MergeParams(
                                                spec_merge_params(rec.index, save_layer),
                                            ),
                                        ),
                                        box2(state),
                                    ),
                                ),
                            ),
                            state,
                        )
                    } else {
                        None
                    },
                    None => None,
                }
            } else {
                None
            },
            Some(command) => match draw_step(rec.index, command, surface, state) {
                Some((next_surface, next_state)) => build_spec(
                    recs,
                    pos + 1,
                    next_surface,
                    next_state,
                ),
                None => None,
            },
        }
    }
}

/// The conversion of a whole record list, if it is defined.
pub open spec fn convert_spec(recs: Seq<SkRecords>) -> Option<(SkiTerm, int)> {
    build_spec(recs, 0, SkiTerm::BlankSurface, SkiTerm::BlankState)
}

/// Every record that the conversion reads can be converted.
pub open spec fn is_convertible(recs: Seq<SkRecords>) -> bool {
    convert_spec(recs) is Some
}

/// The SkiLang term of a record list.
pub open spec fn spec_converted_term(recs: Seq<SkRecords>) -> SkiTerm {
    match convert_spec(recs) {
        Some((t, _)) => t,
        None => SkiTerm::BlankSurface,
    }
}

/// The number of nodes that the conversion of a command other than
/// `save`, `saveLayer` and `restore` adds: a draw adds itself, its state
/// and its concatenation; a state command adds its parameters and itself.
pub open spec fn draw_step_nodes(command: Command) -> nat {
    match command {
        Command::DrawCommand(d) => if is_opaque_state_op(d.name@) {
            2
        } else {
            3
        },
        _ => 2,
    }
}

/// The position after the record at `pos` and, for a `save` or a
/// `saveLayer`, the records of its group.
pub open spec fn record_next(recs: Seq<SkRecords>, pos: int) -> int {
    match recs[pos].command {
        Some(Command::Save(_)) | Some(Command::SaveLayer(_)) => match build_spec(
            recs,
            pos + 1,
            SkiTerm::BlankSurface,
            SkiTerm::BlankState,
        ) {
            Some((_, next)) => next,
            None => pos + 1,
        },
        _ => pos + 1,
    }
}

/// The number of nodes that converting the records from `pos` on adds:
/// a blank state and a blank surface, then those of each record read.
pub open spec fn build_nodes(recs: Seq<SkRecords>, pos: int) -> nat
    decreases recs.len() - pos, 2int,
{
    2 + loop_nodes(recs, pos)
}

/// The number of nodes that the records from `pos` on add, up to the first
/// `restore` that is not matched or to the end.
pub open spec fn loop_nodes(recs: Seq<SkRecords>, pos: int) -> nat
    decreases recs.len() - pos, 1int,
{
    if !(0 <= pos < recs.len()) {
        0
    } else if recs[pos].command is None || recs[pos].command matches Some(Command::Restore(_)) {
        0
    } else {
        let next = record_next(recs, pos);
        if pos < next <= recs.len() {
            record_nodes(recs, pos) + loop_nodes(recs, next)
        } else {
            record_nodes(recs, pos)
        }
    }
}

/// The number of nodes that the record at `pos` adds, with those of its
/// group for a `save` or a `saveLayer`.
pub open spec fn record_nodes(recs: Seq<SkRecords>, pos: int) -> nat
    decreases recs.len() - pos, 0int,
{
    if !(0 <= pos < recs.len()) {
        0
    } else {
        match recs[pos].command {
            Some(Command::Save(_)) => build_nodes(recs, pos + 1) + 2,
            Some(Command::SaveLayer(_)) => build_nodes(recs, pos + 1) + 3,
            Some(Command::Restore(_)) => 0,
            None => 0,
            Some(c) => draw_step_nodes(c),
        }
    }
}

/// The number of nodes that the conversion of a record list builds before
/// its surface is written out as a tree.
pub open spec fn conversion_nodes(recs: Seq<SkRecords>) -> nat {
    build_nodes(recs, 0)
}

/// The surface and the state while converting, by their positions.
struct SkCanvasState {
    surface_id: egg::Id,
    state_id: egg::Id,
}

/// The SkiLang expression of the records of an `SkRecord`: the tree of the
/// surface that they draw, its root last.
pub fn convert_sk_record_to_ski_lang_expr(sk_records: &Vec<SkRecords>) -> (e: egg::RecExpr<SkiLang>)
    requires
        is_convertible(sk_records@),
        conversion_nodes(sk_records@) <= u32::MAX,
        term_size(spec_converted_term(sk_records@)) <= u32::MAX,
    ensures
        wf_expr(e),
        ski_lang_nodes(e).len() == term_size(spec_converted_term(sk_records@)),
        root_term(e) == spec_converted_term(sk_records@),
{
    match try_convert_sk_record_to_ski_lang_expr(sk_records) {
        Some(e) => e,
        None => {
            assert(false);
            new_expr()
        },
    }
}

/// The SkiLang expression of the records, or `None` where a record that
/// the conversion reads cannot be converted, or the nodes that it builds,
/// or the tree of the surface, are more than 32-bit ids can name.
pub fn try_convert_sk_record_to_ski_lang_expr(sk_records: &Vec<SkRecords>) -> (r: Option<egg::RecExpr<SkiLang>>)
    ensures
        r is Some <==> (is_convertible(sk_records@) && conversion_nodes(sk_records@) <= u32::MAX && term_size(
            spec_converted_term(sk_records@),
        ) <= u32::MAX),
        r matches Some(e) ==> {
            &&& wf_expr(e)
            &&& ski_lang_nodes(e).len() == term_size(spec_converted_term(sk_records@))
            &&& root_term(e) == spec_converted_term(sk_records@)
        },
{
    let mut egraph = new_expr();
    match build_expr(sk_records, 0, &mut egraph) {
        Some((surface, _next)) => term_to_expr(&egraph, surface),
        None => None,
    }
}

/// Converts the records from `start` on, up to the first unmatched
/// `restore` or the end, into nodes appended to `egraph`; returns the
/// position of the surface and of the record after the last one read.
fn build_expr(sk_records: &Vec<SkRecords>, start: usize, egraph: &mut egg::RecExpr<SkiLang>) -> (r: Option<(egg::Id, usize)>)
    requires
        wf_expr(*old(egraph)),
        start <= sk_records@.len(),
    ensures
        wf_expr(*final(egraph)),
        extends(ski_lang_nodes(*old(egraph)), ski_lang_nodes(*final(egraph))),
        r is Some <==> (build_spec(sk_records@, start as int, SkiTerm::BlankSurface, SkiTerm::BlankState) is Some
            && ski_lang_nodes(*old(egraph)).len() + build_nodes(sk_records@, start as int) <= u32::MAX),
        r matches Some((surface, next)) ==> {
            &&& ski_lang_nodes(*final(egraph)).len() == ski_lang_nodes(*old(egraph)).len() + build_nodes(
                sk_records@,
                start as int,
            )
            &&& id_index(surface) < ski_lang_nodes(*final(egraph)).len()
            &&& start < next <= sk_records@.len() || (start == next && next == sk_records@.len())
            &&& build_spec(sk_records@, start as int, SkiTerm::BlankSurface, SkiTerm::BlankState)
                == Some((term_of(ski_lang_nodes(*final(egraph)), id_index(surface) as int), next as int))
        },
    decreases sk_records@.len() - start, 1int,
{
    let ghost recs = sk_records@;
    let ghost e0 = ski_lang_nodes(*egraph);
    if expr_len(egraph) > 4294967293 {
        proof {
            lemma_extends_refl(e0);
        }
        return None;
    }
    let state_op = add_node(egraph, SkiLang::BlankState);
    let surface = add_node(egraph, SkiLang::BlankSurface);
    proof {
        lemma_extends_trans(e0, e0.push(SkiLang::BlankState), ski_lang_nodes(*egraph));
        lemma_extends_terms(e0.push(SkiLang::BlankState), ski_lang_nodes(*egraph));
    }
    let mut canvas_state = SkCanvasState { state_id: state_op, surface_id: surface };
    let mut pos = start;
    while pos < sk_records.len()
        invariant
            wf_expr(*egraph),
            e0 == ski_lang_nodes(*old(egraph)),
            extends(e0, ski_lang_nodes(*egraph)),
            start <= pos <= recs.len(),
            recs == sk_records@,
            ski_lang_nodes(*egraph).len() <= u32::MAX,
            build_spec(recs, start as int, SkiTerm::BlankSurface, SkiTerm::BlankState) is Some ==> e0.len()
                + build_nodes(recs, start as int) == ski_lang_nodes(*egraph).len() + loop_nodes(recs, pos as int),
            id_index(canvas_state.surface_id) < ski_lang_nodes(*egraph).len(),
            id_index(canvas_state.state_id) < ski_lang_nodes(*egraph).len(),
            build_spec(
                recs,
                pos as int,
                term_of(ski_lang_nodes(*egraph), id_index(canvas_state.surface_id) as int),
                term_of(ski_lang_nodes(*egraph), id_index(canvas_state.state_id) as int),
            ) == build_spec(recs, start as int, SkiTerm::BlankSurface, SkiTerm::BlankState),
        decreases recs.len() - pos,
    {
        let ghost e_before = ski_lang_nodes(*egraph);
        let sk_record = &sk_records[pos];
        if let Some(Command::Restore(_)) = &sk_record.command {
            return Some((canvas_state.surface_id, pos + 1));
        }
        match convert_record(sk_records, pos, egraph, &canvas_state) {
            None => {
                proof {
                    lemma_extends_trans(e0, e_before, ski_lang_nodes(*egraph));
                }
                return None;
            },
            Some((next_state, next)) => {
                proof {
                    lemma_extends_trans(e0, e_before, ski_lang_nodes(*egraph));
                }
                canvas_state = next_state;
                pos = next;
            },
        }
    }
    Some((canvas_state.surface_id, pos))
}

/// Converts the record at `pos`, which is not a `restore`: returns the
/// canvas state after it and the position of the next record to read.
#[verifier::rlimit(60)]
fn convert_record(
    sk_records: &Vec<SkRecords>,
    pos: usize,
    egraph: &mut egg::RecExpr<SkiLang>,
    canvas_state: &SkCanvasState,
) -> (r: Option<(SkCanvasState, usize)>)
    requires
        wf_expr(*old(egraph)),
        pos < sk_records@.len(),
        !(sk_records@[pos as int].command matches Some(Command::Restore(_))),
        id_index(canvas_state.surface_id) < ski_lang_nodes(*old(egraph)).len(),
        id_index(canvas_state.state_id) < ski_lang_nodes(*old(egraph)).len(),
        ski_lang_nodes(*old(egraph)).len() <= u32::MAX,
    ensures
        wf_expr(*final(egraph)),
        extends(ski_lang_nodes(*old(egraph)), ski_lang_nodes(*final(egraph))),
        r is None ==> (build_spec(
            sk_records@,
            pos as int,
            term_of(ski_lang_nodes(*old(egraph)), id_index(canvas_state.surface_id) as int),
            term_of(ski_lang_nodes(*old(egraph)), id_index(canvas_state.state_id) as int),
        ) is None || ski_lang_nodes(*old(egraph)).len() + record_nodes(sk_records@, pos as int) > u32::MAX),
        r matches Some((c, next)) ==> {
            &&& pos < next <= sk_records@.len()
            &&& next == record_next(sk_records@, pos as int)
            &&& ski_lang_nodes(*final(egraph)).len() <= u32::MAX
            &&& ski_lang_nodes(*final(egraph)).len() == ski_lang_nodes(*old(egraph)).len() + record_nodes(
                sk_records@,
                pos as int,
            )
            &&& id_index(c.surface_id) < ski_lang_nodes(*final(egraph)).len()
            &&& id_index(c.state_id) < ski_lang_nodes(*final(egraph)).len()
            &&& build_spec(
                sk_records@,
                pos as int,
                term_of(ski_lang_nodes(*old(egraph)), id_index(canvas_state.surface_id) as int),
                term_of(ski_lang_nodes(*old(egraph)), id_index(canvas_state.state_id) as int),
            ) == build_spec(
                sk_records@,
                next as int,
                term_of(ski_lang_nodes(*final(egraph)), id_index(c.surface_id) as int),
                term_of(ski_lang_nodes(*final(egraph)), id_index(c.state_id) as int),
            )
        },
    decreases sk_records@.len() - pos, 0int,
{
    let ghost e_before = ski_lang_nodes(*egraph);
    let ghost surface_t = term_of(ski_lang_nodes(*egraph), id_index(canvas_state.surface_id) as int);
    let ghost state_t = term_of(ski_lang_nodes(*egraph), id_index(canvas_state.state_id) as int);
    proof {
        lemma_extends_refl(e_before);
    }
    let _n = sk_records.len();
    let sk_record = &sk_records[pos];
    match &sk_record.command {
        None => None,
        Some(Command::Restore(_restore)) => None,
        Some(Command::Save(_)) => {
            match build_expr(sk_records, pos + 1, egraph) {
                None => None,
                Some((inner_surface, next)) => {
                    let ghost e1 = ski_lang_nodes(*egraph);
                    if expr_len(egraph) > 4294967293 {
                        return None;
                    }
                    let inner_surface_with_curr_state = add_node(egraph, 
                        SkiLang::ApplyState([inner_surface, canvas_state.state_id]),
                    );
                    let ghost e2 = ski_lang_nodes(*egraph);
                    let next_surface = add_node(egraph, 
                        SkiLang::Concat([canvas_state.surface_id, inner_surface_with_curr_state]),
                    );
                    proof {
                        lemma_extends_trans(e_before, e1, e2);
                        lemma_extends_trans(e_before, e2, ski_lang_nodes(*egraph));
                        lemma_extends_trans(e1, e2, ski_lang_nodes(*egraph));
                        lemma_extends_terms(e_before, ski_lang_nodes(*egraph));
                        lemma_extends_terms(e1, ski_lang_nodes(*egraph));
                        lemma_extends_terms(e2, ski_lang_nodes(*egraph));
                        let t = ski_lang_nodes(*egraph);
                        let iws = inner_surface_with_curr_state;
                        assert(t[id_index(iws) as int] == SkiLang::ApplyState([inner_surface, canvas_state.state_id]));
                        assert(t[id_index(next_surface) as int] == SkiLang::Concat([canvas_state.surface_id, iws]));
                        assert(term_of(t, id_index(canvas_state.state_id) as int) == state_t);
                        assert(term_of(t, id_index(canvas_state.surface_id) as int) == surface_t);
                        assert(operand_term(t, id_index(iws) as int, inner_surface) == term_of(t, id_index(inner_surface) as int));
                        assert(operand_term(t, id_index(iws) as int, canvas_state.state_id) == state_t);
                        assert(operand_term(t, id_index(next_surface) as int, canvas_state.surface_id) == surface_t);
                        assert(operand_term(t, id_index(next_surface) as int, iws) == term_of(t, id_index(iws) as int));
                    }
                    Some((SkCanvasState { surface_id: next_surface, state_id: canvas_state.state_id }, next))
                },
            }
        },
        Some(Command::SaveLayer(save_layer)) => {
            if save_layer.paint.is_none() {
                return None;
            }
            let bounds = match &save_layer.bounds {
                Some(bounds) => {
                    if !rect_is_numbers(bounds) {
                        return None;
                    }
                    SkiLangRect::from_bounds_proto(&bounds)
                },
                None => SkiLangRect::empty(),
            };
            if expr_len(egraph) > 4294967293 {
                return None;
            }
            let merge_params = add_node(egraph, 
                SkiLang::MergeParams(
                    SkiLangMergeParams {
                        index: sk_record.index,
                        paint: SkiLangPaint::from_proto(&save_layer.paint),
                        has_backdrop: save_layer.backdrop.is_some(),
                        has_bounds: save_layer.bounds.is_some(),
                        bounds,
                    },
                ),
            );
            let ghost e1 = ski_lang_nodes(*egraph);
            let merge_params_with_state = add_node(egraph, 
                SkiLang::MergeParamsWithState([merge_params, canvas_state.state_id]),
            );
            let ghost e2 = ski_lang_nodes(*egraph);
            proof {
                lemma_extends_trans(e_before, e1, e2);
                lemma_extends_terms(e_before, e2);
                lemma_extends_terms(e1, e2);
            }
            match build_expr(sk_records, pos + 1, egraph) {
                None => {
                    proof {
                        lemma_extends_trans(e_before, e2, ski_lang_nodes(*egraph));
                    }
                    None
                },
                Some((inner_surface, next)) => {
                    let ghost e3 = ski_lang_nodes(*egraph);
                    if expr_len(egraph) >= 4294967295 {
                        proof {
                            lemma_extends_trans(e_before, e2, e3);
                        }
                        return None;
                    }
                    let merged = add_node(egraph, 
                        SkiLang::Merge([canvas_state.surface_id, inner_surface, merge_params_with_state]),
                    );
                    proof {
                        lemma_extends_trans(e_before, e2, e3);
                        lemma_extends_trans(e_before, e3, ski_lang_nodes(*egraph));
                        lemma_extends_trans(e2, e3, ski_lang_nodes(*egraph));
                        lemma_extends_terms(e_before, ski_lang_nodes(*egraph));
                        lemma_extends_terms(e2, ski_lang_nodes(*egraph));
                        lemma_extends_terms(e3, ski_lang_nodes(*egraph));
                        let t = ski_lang_nodes(*egraph);
                        let mpws = merge_params_with_state;
                        assert(e2[id_index(mpws) as int] == SkiLang::MergeParamsWithState([merge_params, canvas_state.state_id]));
                        assert(operand_term(e2, id_index(mpws) as int, merge_params) == term_of(e2, id_index(merge_params) as int));
                        assert(term_of(e2, id_index(canvas_state.state_id) as int) == state_t);
                        assert(operand_term(e2, id_index(mpws) as int, canvas_state.state_id) == state_t);
                        assert(term_of(t, id_index(mpws) as int) == term_of(e2, id_index(mpws) as int));
                        assert(term_of(t, id_index(mpws) as int) == SkiTerm::MergeParamsWithState(
                            box2(SkiTerm::MergeParams(spec_merge_params(sk_record.index, *save_layer))),
                            box2(state_t),
                        ));
                        assert(t[id_index(merged) as int] == SkiLang::Merge([canvas_state.surface_id, inner_surface, mpws]));
                        assert(term_of(t, id_index(canvas_state.surface_id) as int) == surface_t);
                        assert(operand_term(t, id_index(merged) as int, canvas_state.surface_id) == surface_t);
                        assert(operand_term(t, id_index(merged) as int, inner_surface) == term_of(t, id_index(inner_surface) as int));
                        assert(operand_term(t, id_index(merged) as int, mpws) == term_of(t, id_index(mpws) as int));
                    }
                    Some((SkCanvasState { surface_id: merged, state_id: canvas_state.state_id }, next))
                },
            }
        },
        Some(command) => {
            match handle_draw_command(sk_record.index, command, egraph, canvas_state) {
                None => None,
                Some(next_state) => Some((next_state, pos + 1)),
            }
        },
    }
}

/// Whether the matrix holds at least sixteen values, none of them NaN.
fn matrix_is_numbers(matrix: &crate::protos::SkM44) -> (b: bool)
    ensures
        b == sixteen_numbers(matrix.m@),
{
    if matrix.m.len() < 16 {
        return false;
    }
    let mut i: usize = 0;
    while i < 16
        invariant
            i <= 16,
            matrix.m@.len() >= 16,
            forall|j: int| 0 <= j < i ==> !crate::not_nan::is_nan_bits(#[trigger] matrix.m@[j]),
        decreases 16 - i,
    {
        if crate::not_nan::is_nan(matrix.m[i]) {
            assert(crate::not_nan::is_nan_bits(matrix.m@[i as int]));
            return false;
        }
        i = i + 1;
    }
    true
}

/// Whether no side of the bounds is a NaN.
pub(crate) fn rect_is_numbers(bounds: &crate::protos::Bounds) -> (b: bool)
    ensures
        b == SkiLangRect::bounds_are_numbers(*bounds),
{
    !crate::not_nan::is_nan(bounds.left) && !crate::not_nan::is_nan(bounds.top)
        && !crate::not_nan::is_nan(bounds.right) && !crate::not_nan::is_nan(bounds.bottom)
}

/// Converts a command other than `save`, `saveLayer` and `restore` at
/// record `index`: a state command wraps the state, a draw command is
/// added to the surface under the state.
fn handle_draw_command(
    index: i32,
    sk_command: &Command,
    egraph: &mut egg::RecExpr<SkiLang>,
    current_canvas_state: &SkCanvasState,
) -> (r: Option<SkCanvasState>)
    requires
        wf_expr(*old(egraph)),
        id_index(current_canvas_state.surface_id) < ski_lang_nodes(*old(egraph)).len(),
        id_index(current_canvas_state.state_id) < ski_lang_nodes(*old(egraph)).len(),
    ensures
        wf_expr(*final(egraph)),
        extends(ski_lang_nodes(*old(egraph)), ski_lang_nodes(*final(egraph))),
        r is Some <==> (draw_step(
            index,
            *sk_command,
            term_of(ski_lang_nodes(*old(egraph)), id_index(current_canvas_state.surface_id) as int),
            term_of(ski_lang_nodes(*old(egraph)), id_index(current_canvas_state.state_id) as int),
        ) is Some && ski_lang_nodes(*old(egraph)).len() + draw_step_nodes(*sk_command) <= u32::MAX),
        r is Some ==> ski_lang_nodes(*final(egraph)).len() == ski_lang_nodes(*old(egraph)).len() + draw_step_nodes(
            *sk_command,
        ),
        r matches Some(next) ==> {
            &&& id_index(next.surface_id) < ski_lang_nodes(*final(egraph)).len()
            &&& id_index(next.state_id) < ski_lang_nodes(*final(egraph)).len()
            &&& draw_step(
                index,
                *sk_command,
                term_of(ski_lang_nodes(*old(egraph)), id_index(current_canvas_state.surface_id) as int),
                term_of(ski_lang_nodes(*old(egraph)), id_index(current_canvas_state.state_id) as int),
            ) == Some(
                (
                    term_of(ski_lang_nodes(*final(egraph)), id_index(next.surface_id) as int),
                    term_of(ski_lang_nodes(*final(egraph)), id_index(next.state_id) as int),
                ),
            )
        },
{
    let ghost e0 = ski_lang_nodes(*egraph);
    let state_op = current_canvas_state.state_id;
    let surface = current_canvas_state.surface_id;
    let ghost surface_t = term_of(e0, id_index(surface) as int);
    let ghost state_t = term_of(e0, id_index(state_op) as int);
    proof {
        lemma_extends_refl(e0);
    }
    match sk_command {
        Command::Concat44(concat44) => {
            let matrix = match &concat44.matrix {
                Some(m) => m,
                None => {
                    return None;
                },
            };
            if !matrix_is_numbers(matrix) {
                return None;
            }
            if expr_len(egraph) > 4294967293 {
                return None;
            }
            let concat44_params = add_node(egraph, SkiLang::M44(SkiLangM44::from_skm44_proto(matrix)));
            let ghost e1 = ski_lang_nodes(*egraph);
            let next_state_op = add_node(egraph, SkiLang::Concat44([state_op, concat44_params]));
            proof {
                lemma_extends_trans(e0, e1, ski_lang_nodes(*egraph));
                lemma_extends_terms(e0, ski_lang_nodes(*egraph));
                lemma_extends_terms(e1, ski_lang_nodes(*egraph));
            }
            Some(SkCanvasState { state_id: next_state_op, surface_id: surface })
        },
        Command::ClipRect(clip_rect) => {
            let b = match &clip_rect.bounds {
                Some(b) => b,
                None => {
                    return None;
                },
            };
            let clip_rect_mode = if clip_rect.clip_op == ClipOp::Difference.value() {
                SkiLangClipRectMode::Diff
            } else if clip_rect.clip_op == ClipOp::Intersect.value() {
                SkiLangClipRectMode::Intersect
            } else {
                return None;
            };
            if !rect_is_numbers(b) {
                return None;
            }
            if expr_len(egraph) > 4294967293 {
                return None;
            }
            let bounds = SkiLangRect::from_bounds_proto(b);
            let is_anti_aliased = clip_rect.do_anti_alias;
            let clip_rect_params = add_node(egraph, 
                SkiLang::ClipRectParams(
                    SkiLangClipRectParams { clip_rect_mode, bounds, is_anti_aliased },
                ),
            );
            let ghost e1 = ski_lang_nodes(*egraph);
            let next_state_op = add_node(egraph, SkiLang::ClipRect([state_op, clip_rect_params]));
            proof {
                lemma_extends_trans(e0, e1, ski_lang_nodes(*egraph));
                lemma_extends_terms(e0, ski_lang_nodes(*egraph));
                lemma_extends_terms(e1, ski_lang_nodes(*egraph));
            }
            Some(SkCanvasState { state_id: next_state_op, surface_id: surface })
        },
        Command::DrawCommand(draw_command) => {
            let clip_path = "ClipPath".to_string();
            let clip_rrect = "ClipRRect".to_string();
            if draw_command.name == clip_path || draw_command.name == clip_rrect {
                if expr_len(egraph) > 4294967293 {
                    return None;
                }
                let matrix_op_params = add_node(egraph, 
                    SkiLang::MatrixOpParams(SkiLangMatrixOpParams { index }),
                );
                let ghost e1 = ski_lang_nodes(*egraph);
                let next_state_op = add_node(egraph, SkiLang::Concat44([state_op, matrix_op_params]));
                proof {
                    lemma_extends_trans(e0, e1, ski_lang_nodes(*egraph));
                    lemma_extends_terms(e0, ski_lang_nodes(*egraph));
                    lemma_extends_terms(e1, ski_lang_nodes(*egraph));
                }
                Some(SkCanvasState { state_id: next_state_op, surface_id: surface })
            } else {
                if draw_command.paint.is_none() {
                    return None;
                }
                if expr_len(egraph) > 4294967292 {
                    return None;
                }
                let draw = add_node(egraph, 
                    SkiLang::DrawCommand(
                        SkiLangDrawCommand {
                            index,
                            paint: SkiLangPaint::from_proto(&draw_command.paint),
                        },
                    ),
                );
                let ghost e1 = ski_lang_nodes(*egraph);
                let draw_command_with_state = add_node(egraph, SkiLang::ApplyState([draw, state_op]));
                let ghost e2 = ski_lang_nodes(*egraph);
                let next_surface = add_node(egraph, SkiLang::Concat([surface, draw_command_with_state]));
                proof {
                    lemma_extends_trans(e0, e1, e2);
                    lemma_extends_trans(e0, e2, ski_lang_nodes(*egraph));
                    lemma_extends_trans(e1, e2, ski_lang_nodes(*egraph));
                    lemma_extends_terms(e0, ski_lang_nodes(*egraph));
                    lemma_extends_terms(e1, ski_lang_nodes(*egraph));
                    lemma_extends_terms(e2, ski_lang_nodes(*egraph));
                }
                Some(SkCanvasState { state_id: state_op, surface_id: next_surface })
            }
        },
        _ => None,
    }
}

/// A record that draws with a paint (not a clip kept as it is).
pub open spec fn is_plain_draw(r: SkRecords) -> bool {
    r.command matches Some(Command::DrawCommand(d)) && !is_opaque_state_op(d.name@) && d.paint is Some
}

/// The term of a record that draws: its draw command under the blank
/// state.
pub open spec fn plain_draw_term(r: SkRecords) -> SkiTerm {
    let d = r.command->Some_0->DrawCommand_0;
    SkiTerm::ApplyState(
        box2(
            SkiTerm::DrawCommand(SkiLangDrawCommand { index: r.index, paint: SkiLangPaint::spec_from_proto(d.paint->0) }),
        ),
        box2(SkiTerm::BlankState),
    )
}

/// The concatenation of the surfaces `ts` onto a blank surface, nested to
/// the left: `ts[0]`, then `ts[1]`, and so on.
pub open spec fn left_concat(ts: Seq<SkiTerm>) -> SkiTerm
    decreases ts.len(),
{
    if ts.len() == 0 {
        SkiTerm::BlankSurface
    } else {
        SkiTerm::Concat(box2(left_concat(ts.drop_last())), box2(ts.last()))
    }
}

proof fn lemma_draws_from(recs: Seq<SkRecords>, pos: int)
    requires
        0 <= pos <= recs.len(),
        forall|i: int| 0 <= i < recs.len() ==> is_plain_draw(#[trigger] recs[i]),
    ensures
        build_spec(recs, pos, left_concat(Seq::new(pos as nat, |k: int| plain_draw_term(recs[k]))), SkiTerm::BlankState)
            == Some((left_concat(Seq::new(recs.len(), |k: int| plain_draw_term(recs[k]))), recs.len() as int)),
    decreases recs.len() - pos,
{
    let f = |k: int| plain_draw_term(recs[k]);
    if pos < recs.len() {
        assert(is_plain_draw(recs[pos]));
        let next = Seq::new((pos + 1) as nat, f);
        assert(next.drop_last() =~= Seq::new(pos as nat, f));
        lemma_draws_from(recs, pos + 1);
    } else {
        assert(Seq::new(pos as nat, f) =~= Seq::new(recs.len(), f));
    }
}

/// A list of records that only draw converts to the concatenation of its
/// draws, in order, each under the blank state, nested to the left onto a
/// blank surface.
pub proof fn lemma_draws_concatenate(recs: Seq<SkRecords>)
    requires
        forall|i: int| 0 <= i < recs.len() ==> is_plain_draw(#[trigger] recs[i]),
    ensures
        is_convertible(recs),
        spec_converted_term(recs) == left_concat(Seq::new(recs.len(), |k: int| plain_draw_term(recs[k]))),
{
    lemma_draws_from(recs, 0);
    assert(Seq::new(0, |k: int| plain_draw_term(recs[k])) =~= Seq::<SkiTerm>::empty());
}

/// A clip by a rectangle followed by a draw converts to the draw under
/// that clip on a blank surface: the clip keeps the record's operation
/// (0 takes the difference, 1 intersects), its bounds and its
/// anti-aliasing flag as they were recorded.
pub proof fn lemma_clip_then_draw(clip: SkRecords, draw: SkRecords)
    requires
        clip.command matches Some(Command::ClipRect(c)) && c.bounds is Some && (c.clip_op == 0 || c.clip_op == 1)
            && SkiLangRect::bounds_are_numbers(c.bounds->0),
        is_plain_draw(draw),
    ensures
        is_convertible(seq![clip, draw]),
        ({
            let recorded = clip.command->Some_0->ClipRect_0;
            let d = draw.command->Some_0->DrawCommand_0;
            let params = SkiLangClipRectParams {
                clip_rect_mode: if recorded.clip_op == 0 {
                    SkiLangClipRectMode::Diff
                } else {
                    SkiLangClipRectMode::Intersect
                },
                bounds: SkiLangRect::spec_from_bounds_proto(recorded.bounds->0),
                is_anti_aliased: recorded.do_anti_alias,
            };
            let clipped = SkiTerm::ClipRect(box2(SkiTerm::BlankState), box2(SkiTerm::ClipRectParams(params)));
            let drawn = SkiTerm::DrawCommand(
                SkiLangDrawCommand { index: draw.index, paint: SkiLangPaint::spec_from_proto(d.paint->0) },
            );
            spec_converted_term(seq![clip, draw]) == SkiTerm::Concat(
                box2(SkiTerm::BlankSurface),
                box2(SkiTerm::ApplyState(box2(drawn), box2(clipped))),
            )
        }),
{
    let recs = seq![clip, draw];
    assert(recs[0] == clip && recs[1] == draw);
    reveal_with_fuel(build_spec, 4);
}

/// A draw between a `saveLayer` and its `restore` converts to a merge of
/// the draw, as a layer of its own, onto a blank surface. The layer keeps
/// the record's position and paint; it has a backdrop or bounds exactly
/// where the record has one, and its bounds are the record's.
pub proof fn lemma_layer_of_draw(layer: SkRecords, draw: SkRecords, close: SkRecords)
    requires
        layer.command matches Some(Command::SaveLayer(sl)) && save_layer_convertible(sl),
        is_plain_draw(draw),
        close.command matches Some(Command::Restore(_)),
    ensures
        is_convertible(seq![layer, draw, close]),
        ({
            let recorded = layer.command->Some_0->SaveLayer_0;
            let params = SkiLangMergeParams {
                index: layer.index,
                paint: SkiLangPaint::spec_from_proto(recorded.paint->0),
                has_backdrop: recorded.backdrop is Some,
                has_bounds: recorded.bounds is Some,
                bounds: if recorded.bounds is Some {
                    SkiLangRect::spec_from_bounds_proto(recorded.bounds->0)
                } else {
                    SkiLangRect::spec_empty()
                },
            };
            let inner = SkiTerm::Concat(box2(SkiTerm::BlankSurface), box2(plain_draw_term(draw)));
            spec_converted_term(seq![layer, draw, close]) == SkiTerm::Merge(
                box2(SkiTerm::BlankSurface),
                box2(inner),
                box2(
                    SkiTerm::MergeParamsWithState(
                        box2(SkiTerm::MergeParams(params)),
                        box2(SkiTerm::BlankState),
                    ),
                ),
            )
        }),
{
    let recs = seq![layer, draw, close];
    assert(recs[0] == layer && recs[1] == draw && recs[2] == close);
    reveal_with_fuel(build_spec, 4);
}

/// A `save` scopes the state changed after it: a clip between a `save` and
/// its `restore` does not reach a draw after the `restore`, which is drawn
/// under the state in force before the `save`.
pub proof fn lemma_save_scopes_clip(open: SkRecords, clip: SkRecords, close: SkRecords, draw: SkRecords)
    requires
        open.command matches Some(Command::Save(_)),
        clip.command matches Some(Command::ClipRect(c)) && c.bounds is Some && (c.clip_op == 0 || c.clip_op == 1)
            && SkiLangRect::bounds_are_numbers(c.bounds->0),
        close.command matches Some(Command::Restore(_)),
        is_plain_draw(draw),
    ensures
        is_convertible(seq![open, clip, close, draw]),
        spec_converted_term(seq![open, clip, close, draw]) == SkiTerm::Concat(
            box2(
                SkiTerm::Concat(
                    box2(SkiTerm::BlankSurface),
                    box2(SkiTerm::ApplyState(box2(SkiTerm::BlankSurface), box2(SkiTerm::BlankState))),
                ),
            ),
            box2(plain_draw_term(draw)),
        ),
{
    let recs = seq![open, clip, close, draw];
    assert(recs[0] == open && recs[1] == clip && recs[2] == close && recs[3] == draw);
    reveal_with_fuel(build_spec, 5);
}

/// A matrix record followed by a draw converts to the draw under that
/// matrix, whose entries are the first sixteen of the record's, on a blank
/// surface.
pub proof fn lemma_matrix_then_draw(matrix: SkRecords, draw: SkRecords)
    requires
        matrix.command matches Some(Command::Concat44(c)) && c.matrix is Some && sixteen_numbers(c.matrix->0.m@),
        is_plain_draw(draw),
    ensures
        is_convertible(seq![matrix, draw]),
        ({
            let entries = matrix.command->Some_0->Concat44_0.matrix->0.m@;
            let drawn = plain_draw_term(draw)->ApplyState_0;
            let moved = SkiTerm::Concat44(box2(SkiTerm::BlankState), box2(SkiTerm::M44(SkiLangM44::spec_from_vec(entries))));
            spec_converted_term(seq![matrix, draw]) == SkiTerm::Concat(
                box2(SkiTerm::BlankSurface),
                box2(SkiTerm::ApplyState(drawn, box2(moved))),
            )
        }),
        SkiLangM44::spec_from_vec(matrix.command->Some_0->Concat44_0.matrix->0.m@).entries()
            == matrix.command->Some_0->Concat44_0.matrix->0.m@.take(16),
{
    let recs = seq![matrix, draw];
    assert(recs[0] == matrix && recs[1] == draw);
    reveal_with_fuel(build_spec, 4);
    SkiLangM44::lemma_spec_from_vec(matrix.command->Some_0->Concat44_0.matrix->0.m@);
}

} // verus!
