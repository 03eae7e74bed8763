//! From the records of an `SkRecord` to an expanded SkiLang expression,
//! with a stack.
//!
//! Each record pushes an entry: a draw is a surface, a clip or an opaque
//! state operation is a state operation, a `save` and a `saveLayer` mark
//! where a group opens. A `restore` reduces the stack down to the last
//! opened group: from the top down, the surfaces are concatenated and the
//! state operations wrap what lies above them. A `save` leaves the reduced
//! surface in its place; a `saveLayer` merges it into what lies below,
//! under the state in force at the layer, and puts that state back on the
//! stack for the records that follow. At the end the whole stack is
//! reduced, stopping at any layer that was not restored.
use vstd::prelude::*;

use crate::egg_expr::id_index;
use crate::expanded_ski_lang::{
    args, children, children_before, expanded_nodes, expanded_wf, extends, get_expanded, lemma_extends_refl,
    lemma_extends_terms, lemma_extends_trans, lemma_term_of_node, leaf, op_of, term_of, ExpandedOp, ExpandedSkiLang,
    ExpandedTerm,
};
use crate::protos::sk_records::{ClipRect, Command, SaveLayer};
use crate::protos::{ClipOp, SkPaint, SkRecords};
use crate::ski_lang::SkiLangRect;
use crate::sk_record_to_ski_lang::rect_is_numbers;
use crate::expanded_ski_lang::expanded_len;
use crate::ski_lang_converters::{
    add_leaf, add_with, added, bounds_convertible, bounds_nodes, bounds_proto_to_expr, bounds_proto_to_rect_expr,
    lemma_added_then, num_term, paint_proto_to_expr, rect_term, spec_bounds_term, spec_paint_term,
};

verus! {

/// An expression and the position of its root.
pub struct SkiLangExpr {
    pub expr: egg::RecExpr<ExpandedSkiLang>,
    pub id: egg::Id,
}

/// What an entry of the stack stands for.
#[derive(Clone, Copy, Debug, PartialEq, Eq, Structural)]
pub enum StackOp {
    State,
    Surface,
    MatrixOp,
    ClipRect,
    Save,
    SaveLayer,
}

/// A stack of entries, each with the term it stands for; the top is last.
pub type TermStack = Seq<(StackOp, ExpandedTerm)>;

pub open spec fn node2(o: ExpandedOp, a: ExpandedTerm, b: ExpandedTerm) -> ExpandedTerm {
    ExpandedTerm::Node(o, seq![a, b])
}

pub open spec fn blank() -> ExpandedTerm {
    leaf(ExpandedOp::Blank)
}

pub open spec fn blank_state() -> ExpandedTerm {
    leaf(ExpandedOp::BlankState)
}

/// The state that the state operations `ops` put in force over `acc`:
/// from the last down, each matrix or clip operation wraps the state of
/// those above it; saves are skipped.
pub open spec fn spec_reduce_state(ops: TermStack, acc: ExpandedTerm) -> ExpandedTerm
    decreases ops.len(),
{
    if ops.len() == 0 {
        acc
    } else {
        let (o, t) = ops.last();
        let rest = ops.drop_last();
        match o {
            StackOp::MatrixOp => spec_reduce_state(rest, node2(ExpandedOp::MatrixOp, acc, t)),
            StackOp::ClipRect => spec_reduce_state(rest, node2(ExpandedOp::ClipRect, acc, t)),
            _ => spec_reduce_state(rest, acc),
        }
    }
}

/// The state operations in force at the top of a stack: the matrices,
/// clips and saves above its last `saveLayer`, in order.
pub open spec fn spec_state_ops(st: TermStack) -> TermStack
    decreases st.len(),
{
    if st.len() == 0 {
        seq![]
    } else {
        let prev = spec_state_ops(st.drop_last());
        match st.last().0 {
            StackOp::MatrixOp => prev.push(st.last()),
            StackOp::ClipRect => prev.push(st.last()),
            StackOp::Save => prev.push(st.last()),
            StackOp::SaveLayer => seq![],
            _ => prev,
        }
    }
}

/// The merge parameters `mp` with the state `state` in place of their
/// last operand.
pub open spec fn with_state(mp: ExpandedTerm, state: ExpandedTerm) -> ExpandedTerm {
    ExpandedTerm::Node(ExpandedOp::MergeParams, args(mp).take(4).push(state))
}

/// The stack after reducing `st` onto the surface `acc`, from the top
/// down. A surface is concatenated before `acc`; a matrix or clip
/// operation wraps `acc`. Without `from_restore` a `save` is skipped and a
/// `saveLayer` stops the reduction. With it, a `save` is replaced by the
/// reduced surface and the reduction stops; a `saveLayer` merges `acc`
/// into the reduction of the entries below it, under the state in force
/// at the layer, which is pushed back on top.
pub open spec fn spec_reduce(st: TermStack, acc: ExpandedTerm, from_restore: bool) -> TermStack
    decreases st.len(),
{
    if st.len() == 0 {
        seq![(StackOp::Surface, acc)]
    } else {
        let (o, t) = st.last();
        let rest = st.drop_last();
        match o {
            StackOp::SaveLayer => if from_restore {
                let states = spec_state_ops(rest);
                let reduced = spec_reduce(rest, blank(), false);
                let dst = reduced.last().1;
                let merge_params = with_state(t, spec_reduce_state(states, blank_state()));
                reduced.drop_last().push(
                    (StackOp::Surface, ExpandedTerm::Node(ExpandedOp::Merge, seq![dst, acc, merge_params])),
                ) + states
            } else {
                st.push((StackOp::Surface, acc))
            },
            StackOp::Save => if from_restore {
                rest.push((StackOp::Surface, acc))
            } else {
                spec_reduce(rest, acc, false)
            },
            StackOp::MatrixOp => spec_reduce(rest, node2(ExpandedOp::MatrixOp, acc, t), from_restore),
            StackOp::ClipRect => spec_reduce(rest, node2(ExpandedOp::ClipRect, acc, t), from_restore),
            _ => spec_reduce(rest, node2(ExpandedOp::Concat, t, acc), from_restore),
        }
    }
}

/// The names of the draw commands that stand for a state operation that
/// is kept as it is.
pub open spec fn is_matrix_op_name(name: Seq<char>) -> bool {
    name == "ClipPath"@ || name == "ClipRRect"@ || name == "Concat44"@
}

/// The parameters of a state operation kept as it is: its record.
pub open spec fn matrix_op_params_term(index: i32) -> ExpandedTerm {
    ExpandedTerm::Node(ExpandedOp::MatrixOpParams, seq![num_term(index)])
}

/// A draw command: its record and its paint.
pub open spec fn draw_command_term(index: i32, paint: Option<SkPaint>) -> ExpandedTerm {
    ExpandedTerm::Node(ExpandedOp::DrawCommand, seq![num_term(index), spec_paint_term(paint)])
}

/// The parameters of a clip by a rectangle.
pub open spec fn clip_rect_params_term(c: ClipRect) -> ExpandedTerm {
    ExpandedTerm::Node(
        ExpandedOp::ClipRectParams,
        seq![
            rect_term(c.bounds->0),
            if c.clip_op == ClipOp::Difference.spec_value() {
                leaf(ExpandedOp::ClipOpDiff)
            } else {
                leaf(ExpandedOp::ClipOpIntersect)
            },
            leaf(ExpandedOp::Exists(c.do_anti_alias)),
        ],
    )
}

/// The parameters of a layer, under the blank state until it is merged.
pub open spec fn merge_params_term(index: i32, s: SaveLayer) -> ExpandedTerm {
    ExpandedTerm::Node(
        ExpandedOp::MergeParams,
        seq![
            num_term(index),
            spec_paint_term(s.paint),
            ExpandedTerm::Node(ExpandedOp::Backdrop, seq![leaf(ExpandedOp::Exists(s.backdrop is Some))]),
            spec_bounds_term(s.bounds),
            blank_state(),
        ],
    )
}

/// The stack after one record.
pub open spec fn spec_step(st: TermStack, r: SkRecords) -> TermStack {
    match r.command {
        Some(Command::DrawCommand(d)) => if is_matrix_op_name(d.name@) {
            st.push((StackOp::MatrixOp, matrix_op_params_term(r.index)))
        } else {
            st.push((StackOp::Surface, draw_command_term(r.index, d.paint)))
        },
        Some(Command::Concat44(_)) => st.push((StackOp::MatrixOp, matrix_op_params_term(r.index))),
        Some(Command::ClipRect(c)) => st.push((StackOp::ClipRect, clip_rect_params_term(c))),
        Some(Command::Save(_)) => st.push((StackOp::Save, leaf(ExpandedOp::NoOp))),
        Some(Command::SaveLayer(s)) => st.push((StackOp::SaveLayer, merge_params_term(r.index, s))),
        Some(Command::Restore(_)) => spec_reduce(st, blank(), true),
        None => st,
    }
}

/// The stack after the first `n` records.
pub open spec fn spec_stack_after(records: Seq<SkRecords>, n: int) -> TermStack
    decreases n,
{
    if n <= 0 {
        seq![]
    } else {
        spec_step(spec_stack_after(records, n - 1), records[n - 1])
    }
}

/// The term of a list of records: the bottom entry of the stack, once
/// every record has been read and the stack reduced.
pub open spec fn spec_build_expr(records: Seq<SkRecords>) -> ExpandedTerm {
    spec_reduce(spec_stack_after(records, records.len() as int), blank(), false)[0].1
}

/// A record that can be converted: a clip by a rectangle has bounds that
/// are numbers and a known clip operation, and the bounds of a layer, if
/// any, are numbers.
pub open spec fn record_convertible(r: SkRecords) -> bool {
    match r.command {
        Some(Command::ClipRect(c)) => {
            &&& c.bounds is Some
            &&& SkiLangRect::bounds_are_numbers(c.bounds->0)
            &&& (c.clip_op == ClipOp::Difference.spec_value() || c.clip_op == ClipOp::Intersect.spec_value())
        },
        Some(Command::SaveLayer(s)) => bounds_convertible(s.bounds),
        _ => true,
    }
}

/// An entry that can stand on the stack of draws: not a state, and a
/// layer carries merge parameters with their five operands.
pub open spec fn entry_ok(e: (StackOp, ExpandedTerm)) -> bool {
    &&& e.0 != StackOp::State
    &&& (e.0 == StackOp::SaveLayer ==> op_of(e.1) == ExpandedOp::MergeParams && args(e.1).len() == 5)
}

pub open spec fn stack_ok(st: TermStack) -> bool {
    forall|i: int| 0 <= i < st.len() ==> entry_ok(#[trigger] st[i])
}

/// An entry of a stack of state operations.
pub open spec fn is_state_op(o: StackOp) -> bool {
    o == StackOp::MatrixOp || o == StackOp::ClipRect || o == StackOp::Save
}

pub open spec fn state_ops_ok(st: TermStack) -> bool {
    forall|i: int| 0 <= i < st.len() ==> is_state_op(#[trigger] st[i].0)
}

proof fn lemma_state_ops_ok(st: TermStack)
    ensures
        state_ops_ok(spec_state_ops(st)),
    decreases st.len(),
{
    if st.len() > 0 {
        lemma_state_ops_ok(st.drop_last());
    }
}

/// Reducing keeps the entries fit for the stack of draws, and leaves at
/// least one.
proof fn lemma_reduce_ok(st: TermStack, acc: ExpandedTerm, from_restore: bool)
    requires
        stack_ok(st),
    ensures
        stack_ok(spec_reduce(st, acc, from_restore)),
        spec_reduce(st, acc, from_restore).len() >= 1,
    decreases st.len(),
{
    if st.len() > 0 {
        let (o, t) = st.last();
        let rest = st.drop_last();
        assert(stack_ok(rest));
        assert(entry_ok(st[st.len() - 1]));
        match o {
            StackOp::SaveLayer => {
                if from_restore {
                    let states = spec_state_ops(rest);
                    lemma_state_ops_ok(rest);
                    lemma_reduce_ok(rest, blank(), false);
                    let reduced = spec_reduce(rest, blank(), false);
                    let dst = reduced.last().1;
                    let merge_params = with_state(t, spec_reduce_state(states, blank_state()));
                    let r = reduced.drop_last().push(
                        (StackOp::Surface, ExpandedTerm::Node(ExpandedOp::Merge, seq![dst, acc, merge_params])),
                    ) + states;
                    assert forall|i: int| 0 <= i < r.len() implies entry_ok(#[trigger] r[i]) by {
                        if i >= reduced.len() {
                            assert(r[i] == states[i - reduced.len()]);
                            assert(is_state_op(states[i - reduced.len()].0));
                        } else if i < reduced.len() - 1 {
                            assert(r[i] == reduced[i]);
                        }
                    }
                } else {
                    assert(forall|i: int| 0 <= i < st.len() ==> st.push((StackOp::Surface, acc))[i] == st[i]);
                }
            },
            StackOp::Save => {
                if !from_restore {
                    lemma_reduce_ok(rest, acc, false);
                }
            },
            StackOp::MatrixOp => {
                lemma_reduce_ok(rest, node2(ExpandedOp::MatrixOp, acc, t), from_restore);
            },
            StackOp::ClipRect => {
                lemma_reduce_ok(rest, node2(ExpandedOp::ClipRect, acc, t), from_restore);
            },
            _ => {
                lemma_reduce_ok(rest, node2(ExpandedOp::Concat, t, acc), from_restore);
            },
        }
    }
}

/// Reading a record keeps the entries fit for the stack of draws.
proof fn lemma_step_ok(st: TermStack, r: SkRecords)
    requires
        stack_ok(st),
    ensures
        stack_ok(spec_step(st, r)),
{
    match r.command {
        Some(Command::Restore(_)) => {
            lemma_reduce_ok(st, blank(), true);
        },
        _ => {
            let n = spec_step(st, r);
            assert forall|i: int| 0 <= i < n.len() implies entry_ok(#[trigger] n[i]) by {
                if i < st.len() {
                    assert(n[i] == st[i]);
                }
            }
        },
    }
}

proof fn lemma_stack_after_ok(records: Seq<SkRecords>, n: int)
    ensures
        stack_ok(spec_stack_after(records, n)),
    decreases n,
{
    if n > 0 {
        lemma_stack_after_ok(records, n - 1);
        lemma_step_ok(spec_stack_after(records, n - 1), records[n - 1]);
    }
}

/// The number of matrices and clips among the state operations `ops`.
pub open spec fn state_op_count(ops: TermStack) -> nat
    decreases ops.len(),
{
    if ops.len() == 0 {
        0
    } else {
        state_op_count(ops.drop_last()) + if ops.last().0 == StackOp::MatrixOp || ops.last().0 == StackOp::ClipRect {
            1nat
        } else {
            0nat
        }
    }
}

/// The number of nodes that putting the state operations `ops` in force
/// appends: a blank state, and one node for each matrix or clip.
pub open spec fn state_nodes(ops: TermStack) -> nat {
    1 + state_op_count(ops)
}

/// The number of nodes that reducing `st` appends after its blank surface,
/// taking the entries from the top as `spec_reduce` does: one for each
/// surface, matrix or clip; for a layer merged at a `restore`, its blank
/// surface, the reduction below it, its state, its merge parameters and
/// its merge.
pub open spec fn walk_nodes(st: TermStack, from_restore: bool) -> nat
    decreases st.len(), 0int,
{
    if st.len() == 0 {
        0
    } else {
        let rest = st.drop_last();
        match st.last().0 {
            StackOp::SaveLayer => if from_restore {
                reduce_nodes(rest, false) + state_nodes(spec_state_ops(rest)) + 3
            } else {
                0
            },
            StackOp::Save => if from_restore {
                0
            } else {
                walk_nodes(rest, false)
            },
            _ => 1 + walk_nodes(rest, from_restore),
        }
    }
}

/// The number of nodes that reducing `st` appends.
pub open spec fn reduce_nodes(st: TermStack, from_restore: bool) -> nat
    decreases st.len(), 1int,
{
    1 + walk_nodes(st, from_restore)
}

/// The number of nodes that reading the record `r` appends, on the stack
/// `st`.
pub open spec fn step_nodes(st: TermStack, r: SkRecords) -> nat {
    match r.command {
        Some(Command::DrawCommand(d)) => if is_matrix_op_name(d.name@) {
            2
        } else {
            20
        },
        Some(Command::Concat44(_)) => 2,
        Some(Command::ClipRect(_)) => 5,
        Some(Command::Save(_)) => 1,
        Some(Command::SaveLayer(s)) => (23 + bounds_nodes(s.bounds)) as nat,
        Some(Command::Restore(_)) => reduce_nodes(st, true),
        None => 0,
    }
}

/// The number of nodes that reading the first `i` records appends.
pub open spec fn steps_nodes(records: Seq<SkRecords>, i: int) -> nat
    decreases i,
{
    if i <= 0 {
        0
    } else {
        steps_nodes(records, i - 1) + step_nodes(spec_stack_after(records, i - 1), records[i - 1])
    }
}

/// The number of nodes that `build_expr` appends for the records: those
/// of each record, then those of the final reduction.
pub open spec fn build_expr_nodes(records: Seq<SkRecords>) -> nat {
    steps_nodes(records, records.len() as int) + reduce_nodes(spec_stack_after(records, records.len() as int), false)
}

proof fn lemma_steps_nodes_mono(records: Seq<SkRecords>, i: int, j: int)
    requires
        0 <= i <= j,
    ensures
        steps_nodes(records, i) <= steps_nodes(records, j),
    decreases j - i,
{
    if i < j {
        lemma_steps_nodes_mono(records, i, j - 1);
    }
}

/// The entries `es` of an expression `s` stand for the entries `ts`.
pub open spec fn stack_rel(s: Seq<ExpandedSkiLang>, es: Seq<(StackOp, egg::Id)>, ts: TermStack) -> bool {
    &&& es.len() == ts.len()
    &&& forall|i: int|
        0 <= i < es.len() ==> (#[trigger] es[i]).0 == ts[i].0 && id_index(es[i].1) < s.len() && term_of(s, id_index(es[i].1) as int)
            == ts[i].1
}

proof fn lemma_stack_rel_extends(s: Seq<ExpandedSkiLang>, s2: Seq<ExpandedSkiLang>, es: Seq<(StackOp, egg::Id)>, ts: TermStack)
    requires
        stack_rel(s, es, ts),
        extends(s, s2),
    ensures
        stack_rel(s2, es, ts),
{
    lemma_extends_terms(s, s2);
    assert forall|i: int| 0 <= i < es.len() implies term_of(s2, id_index((#[trigger] es[i]).1) as int) == ts[i].1 by {
        assert(id_index(es[i].1) < s.len());
    }
}

proof fn lemma_stack_rel_append(
    s: Seq<ExpandedSkiLang>,
    a: Seq<(StackOp, egg::Id)>,
    x: TermStack,
    b: Seq<(StackOp, egg::Id)>,
    y: TermStack,
)
    requires
        stack_rel(s, a, x),
        stack_rel(s, b, y),
    ensures
        stack_rel(s, a + b, x + y),
{
    assert forall|i: int| 0 <= i < a.len() + b.len() implies (#[trigger] (a + b)[i]).0 == (x + y)[i].0
        && id_index((a + b)[i].1) < s.len() && term_of(s, id_index((a + b)[i].1) as int) == (x + y)[i].1 by {
        if i >= a.len() {
            assert((a + b)[i] == b[i - a.len()]);
            assert(b[i - a.len()].0 == y[i - a.len()].0);
        } else {
            assert((a + b)[i] == a[i]);
            assert(a[i].0 == x[i].0);
        }
    }
}

proof fn lemma_stack_rel_push(s: Seq<ExpandedSkiLang>, es: Seq<(StackOp, egg::Id)>, ts: TermStack, e: (StackOp, egg::Id), t: ExpandedTerm)
    requires
        stack_rel(s, es, ts),
        id_index(e.1) < s.len(),
        term_of(s, id_index(e.1) as int) == t,
    ensures
        stack_rel(s, es.push(e), ts.push((e.0, t))),
{
    assert forall|i: int| 0 <= i < es.len() + 1 implies (#[trigger] es.push(e)[i]).0 == ts.push((e.0, t))[i].0
        && id_index(es.push(e)[i].1) < s.len() && term_of(s, id_index(es.push(e)[i].1) as int) == ts.push((e.0, t))[i].1 by {
        if i < es.len() {
            assert(es.push(e)[i] == es[i]);
            assert(es[i].0 == ts[i].0);
        }
    }
}

proof fn lemma_stack_rel_pop(s: Seq<ExpandedSkiLang>, es: Seq<(StackOp, egg::Id)>, ts: TermStack)
    requires
        stack_rel(s, es, ts),
        es.len() > 0,
    ensures
        stack_rel(s, es.drop_last(), ts.drop_last()),
        es.last().0 == ts.last().0,
        id_index(es.last().1) < s.len(),
        term_of(s, id_index(es.last().1) as int) == ts.last().1,
{
    assert(es.drop_last().len() == ts.drop_last().len());
    assert forall|i: int| 0 <= i < es.len() - 1 implies (#[trigger] es.drop_last()[i]).0 == ts.drop_last()[i].0
        && id_index(es.drop_last()[i].1) < s.len() && term_of(s, id_index(es.drop_last()[i].1) as int) == ts.drop_last()[i].1 by {
        assert(es.drop_last()[i] == es[i]);
        assert(es[i].0 == ts[i].0);
    }
    assert(es[es.len() - 1].0 == ts[es.len() - 1].0);
}

/// The state put in force by the state operations of `state_stack`, which
/// stand for `ops`, appended to the expression; `None` where its nodes do
/// not fit in 32-bit ids.
fn reduce_state_stack(expr: &mut egg::RecExpr<ExpandedSkiLang>, state_stack: &Vec<(StackOp, egg::Id)>, Ghost(ops): Ghost<TermStack>) -> (r: Option<egg::Id>)
    requires
        expanded_wf(*old(expr)),
        stack_rel(expanded_nodes(*old(expr)), state_stack@, ops),
        state_ops_ok(ops),
    ensures
        expanded_wf(*final(expr)),
        extends(expanded_nodes(*old(expr)), expanded_nodes(*final(expr))),
        r is Some <==> expanded_nodes(*old(expr)).len() + state_nodes(ops) <= u32::MAX,
        r matches Some(id) ==> {
            &&& expanded_nodes(*final(expr)).len() == expanded_nodes(*old(expr)).len() + state_nodes(ops)
            &&& id_index(id) < expanded_nodes(*final(expr)).len()
            &&& term_of(expanded_nodes(*final(expr)), id_index(id) as int) == spec_reduce_state(ops, blank_state())
        },
{
    let ghost e0 = expanded_nodes(*expr);
    if expanded_len(expr) >= 4294967295 {
        proof {
            lemma_extends_refl(e0);
        }
        return None;
    }
    let mut acc = add_leaf(expr, ExpandedSkiLang::BlankState);
    let ghost mut acc_t = blank_state();
    proof {
        lemma_stack_rel_extends(e0, expanded_nodes(*expr), state_stack@, ops);
        assert(ops.take(ops.len() as int) =~= ops);
    }
    let mut i = state_stack.len();
    while i > 0
        invariant
            i <= state_stack@.len(),
            expanded_wf(*expr),
            extends(e0, expanded_nodes(*expr)),
            stack_rel(expanded_nodes(*expr), state_stack@, ops),
            state_ops_ok(ops),
            e0 == expanded_nodes(*old(expr)),
            expanded_nodes(*expr).len() + state_nodes(ops.take(i as int)) == e0.len() + 1 + state_nodes(ops),
            expanded_nodes(*expr).len() <= u32::MAX,
            id_index(acc) < expanded_nodes(*expr).len(),
            term_of(expanded_nodes(*expr), id_index(acc) as int) == acc_t,
            spec_reduce_state(ops.take(i as int), acc_t) == spec_reduce_state(ops, blank_state()),
        decreases i,
    {
        i = i - 1;
        let (o, e2) = state_stack[i];
        let ghost t = ops[i as int];
        proof {
            assert(ops.take(i + 1).drop_last() =~= ops.take(i as int));
            assert(ops.take(i + 1).last() == ops[i as int]);
            assert(state_stack@[i as int].0 == ops[i as int].0);
            assert(is_state_op(ops[i as int].0));
        }
        let ghost s1 = expanded_nodes(*expr);
        proof {
            lemma_extends_refl(s1);
        }
        match o {
            StackOp::MatrixOp => {
                if expanded_len(expr) >= 4294967295 {
                    return None;
                }
                let ghost ts = seq![acc_t, t.1];
                acc = add_with(expr, ExpandedSkiLang::MatrixOp([acc, e2]), Ghost(ts));
                proof {
                    acc_t = node2(ExpandedOp::MatrixOp, acc_t, t.1);
                }
            },
            StackOp::ClipRect => {
                if expanded_len(expr) >= 4294967295 {
                    return None;
                }
                let ghost ts = seq![acc_t, t.1];
                acc = add_with(expr, ExpandedSkiLang::ClipRect([acc, e2]), Ghost(ts));
                proof {
                    acc_t = node2(ExpandedOp::ClipRect, acc_t, t.1);
                }
            },
            _ => {},
        }
        proof {
            lemma_extends_trans(e0, s1, expanded_nodes(*expr));
            lemma_stack_rel_extends(s1, expanded_nodes(*expr), state_stack@, ops);
        }
    }
    proof {
        assert(ops.take(0) =~= Seq::<(StackOp, ExpandedTerm)>::empty());
    }
    Some(acc)
}

/// The state operations of the stack (entries `ts`) above its last
/// `saveLayer`.
fn collect_state_ops(draw_stack: &Vec<(StackOp, egg::Id)>, Ghost(s): Ghost<Seq<ExpandedSkiLang>>, Ghost(ts): Ghost<TermStack>) -> (state_stack: Vec<(StackOp, egg::Id)>)
    requires
        stack_rel(s, draw_stack@, ts),
    ensures
        stack_rel(s, state_stack@, spec_state_ops(ts)),
{
    let mut state_stack: Vec<(StackOp, egg::Id)> = Vec::new();
    let mut i: usize = 0;
    proof {
        assert(ts.take(0) =~= Seq::<(StackOp, ExpandedTerm)>::empty());
    }
    while i < draw_stack.len()
        invariant
            i <= draw_stack@.len(),
            stack_rel(s, draw_stack@, ts),
            stack_rel(s, state_stack@, spec_state_ops(ts.take(i as int))),
        decreases draw_stack@.len() - i,
    {
        let entry = draw_stack[i];
        proof {
            assert(ts.take(i + 1).drop_last() =~= ts.take(i as int));
            assert(ts.take(i + 1).last() == ts[i as int]);
            assert(draw_stack@[i as int].0 == ts[i as int].0);
        }
        match entry.0 {
            StackOp::MatrixOp | StackOp::ClipRect | StackOp::Save => {
                proof {
                    lemma_stack_rel_push(s, state_stack@, spec_state_ops(ts.take(i as int)), entry, ts[i as int].1);
                }
                state_stack.push(entry);
            },
            StackOp::SaveLayer => {
                state_stack.clear();
            },
            _ => {},
        }
        i = i + 1;
    }
    proof {
        assert(ts.take(ts.len() as int) =~= ts);
    }
    state_stack
}

/// Merges the surface `acc` (standing for `acc_t`) of the layer whose
/// merge parameters are at `e2` (standing for `t`) into the reduction of
/// the stack below it (entries `rest`), under the state in force at the
/// layer, and pushes that state back.
fn merge_layer(
    expr: &mut egg::RecExpr<ExpandedSkiLang>,
    draw_stack: &mut Vec<(StackOp, egg::Id)>,
    acc: egg::Id,
    e2: egg::Id,
    Ghost(rest): Ghost<TermStack>,
    Ghost(t): Ghost<ExpandedTerm>,
    Ghost(acc_t): Ghost<ExpandedTerm>,
) -> (ok: bool)
    requires
        expanded_wf(*old(expr)),
        stack_rel(expanded_nodes(*old(expr)), old(draw_stack)@, rest),
        stack_ok(rest),
        id_index(acc) < expanded_nodes(*old(expr)).len(),
        term_of(expanded_nodes(*old(expr)), id_index(acc) as int) == acc_t,
        id_index(e2) < expanded_nodes(*old(expr)).len(),
        term_of(expanded_nodes(*old(expr)), id_index(e2) as int) == t,
        entry_ok((StackOp::SaveLayer, t)),
    ensures
        expanded_wf(*final(expr)),
        extends(expanded_nodes(*old(expr)), expanded_nodes(*final(expr))),
        ok <==> expanded_nodes(*old(expr)).len() + reduce_nodes(rest, false) + state_nodes(spec_state_ops(rest)) + 3
            <= u32::MAX,
        ok ==> expanded_nodes(*final(expr)).len() == expanded_nodes(*old(expr)).len() + reduce_nodes(rest, false)
            + state_nodes(spec_state_ops(rest)) + 3,
        ok ==> stack_rel(expanded_nodes(*final(expr)), final(draw_stack)@, spec_reduce(rest.push((StackOp::SaveLayer, t)), acc_t, true)),
    decreases 1int,
{
    let ghost s1 = expanded_nodes(*expr);
    proof {
        assert(rest.push((StackOp::SaveLayer, t)).drop_last() =~= rest);
    }
        let state_stack = collect_state_ops(draw_stack, Ghost(s1), Ghost(rest));
        let ghost states = spec_state_ops(rest);
        if expanded_len(expr) >= 4294967295 {
            proof {
                lemma_extends_refl(s1);
            }
            return false;
        }
        let _blank = add_leaf(expr, ExpandedSkiLang::Blank);
        let ghost s2 = expanded_nodes(*expr);
        proof {
            lemma_stack_rel_extends(s1, s2, draw_stack@, rest);
        }
        if !reduce_stack(expr, draw_stack, false, Ghost(rest)) {
            proof {
                lemma_extends_trans(s1, s2, expanded_nodes(*expr));
            }
            return false;
        }
        let ghost s3 = expanded_nodes(*expr);
        let ghost reduced = spec_reduce(rest, blank(), false);
        proof {
            lemma_reduce_ok(rest, blank(), false);
            lemma_extends_trans(s1, s2, s3);
        }
        let ghost before_pop2 = draw_stack@;
        let (_, dst) = draw_stack.pop().unwrap();
        proof {
            lemma_stack_rel_pop(s3, before_pop2, reduced);
            assert(before_pop2.drop_last() =~= draw_stack@);
            lemma_stack_rel_extends(s1, s3, state_stack@, states);
            lemma_state_ops_ok(rest);
        }
        let merge_state = match reduce_state_stack(expr, &state_stack, Ghost(states)) {
            Some(m) => m,
            None => {
                proof {
                    lemma_extends_trans(s1, s3, expanded_nodes(*expr));
                }
                return false;
            },
        };
        let ghost s4 = expanded_nodes(*expr);
        let ghost state_t = spec_reduce_state(states, blank_state());
        proof {
            lemma_extends_trans(s1, s3, s4);
            lemma_extends_terms(s1, s4);
            lemma_extends_terms(s3, s4);
            lemma_term_of_node(s4, id_index(e2) as int);
            assert(children_before(s4[id_index(e2) as int], id_index(e2) as int));
        }
        let ids = match get_expanded(expr, e2) {
            ExpandedSkiLang::MergeParams(ids) => *ids,
            _ => {
                assert(false);
                return false;
            },
        };
        if expanded_len(expr) >= 4294967294 {
            return false;
        }
        let ghost mts = args(t).take(4).push(state_t);
        assert(forall|k: int| 0 <= k < 5 ==> ids[k] == #[trigger] children(s4[id_index(e2) as int])[k]);
        let corrected_merge_params = add_with(
            expr,
            ExpandedSkiLang::MergeParams([ids[0], ids[1], ids[2], ids[3], merge_state]),
            Ghost(mts),
        );
        let ghost s5 = expanded_nodes(*expr);
        let ghost merged_t = ExpandedTerm::Node(ExpandedOp::Merge, seq![reduced.last().1, acc_t, with_state(t, state_t)]);
        let ghost mts2 = seq![reduced.last().1, acc_t, with_state(t, state_t)];
        proof {
            lemma_extends_terms(s4, s5);
        }
        let merged = add_with(expr, ExpandedSkiLang::Merge([dst, acc, corrected_merge_params]), Ghost(mts2));
        let ghost s6 = expanded_nodes(*expr);
        proof {
            lemma_extends_trans(s1, s4, s5);
            lemma_extends_trans(s1, s5, s6);
            lemma_extends_trans(s4, s5, s6);
            lemma_extends_trans(s3, s4, s5);
            lemma_extends_trans(s3, s5, s6);
            lemma_stack_rel_extends(s3, s6, draw_stack@, reduced.drop_last());
            lemma_stack_rel_extends(s4, s6, state_stack@, states);
            lemma_stack_rel_push(s6, draw_stack@, reduced.drop_last(), (StackOp::Surface, merged), merged_t);
            lemma_stack_rel_append(
                s6,
                draw_stack@.push((StackOp::Surface, merged)),
                reduced.drop_last().push((StackOp::Surface, merged_t)),
                state_stack@,
                states,
            );
        }
        let mut state_stack = state_stack;
        draw_stack.push((StackOp::Surface, merged));
        draw_stack.append(&mut state_stack);
        true
}

/// Reduces the stack (entries `ts`) as `spec_reduce` does onto a blank
/// surface, appending the nodes it builds to the expression; `false` where
/// those nodes do not fit in 32-bit ids.
fn reduce_stack(expr: &mut egg::RecExpr<ExpandedSkiLang>, draw_stack: &mut Vec<(StackOp, egg::Id)>, from_restore: bool, Ghost(ts): Ghost<TermStack>) -> (ok: bool)
    requires
        expanded_wf(*old(expr)),
        stack_rel(expanded_nodes(*old(expr)), old(draw_stack)@, ts),
        stack_ok(ts),
    ensures
        expanded_wf(*final(expr)),
        extends(expanded_nodes(*old(expr)), expanded_nodes(*final(expr))),
        ok <==> expanded_nodes(*old(expr)).len() + reduce_nodes(ts, from_restore) <= u32::MAX,
        ok ==> expanded_nodes(*final(expr)).len() == expanded_nodes(*old(expr)).len() + reduce_nodes(ts, from_restore),
        ok ==> stack_rel(expanded_nodes(*final(expr)), final(draw_stack)@, spec_reduce(ts, blank(), from_restore)),
    decreases if from_restore { 2int } else { 0int },
{
    let ghost e0 = expanded_nodes(*expr);
    if expanded_len(expr) >= 4294967295 {
        proof {
            lemma_extends_refl(e0);
        }
        return false;
    }
    let mut acc = add_leaf(expr, ExpandedSkiLang::Blank);
    let ghost mut acc_t = blank();
    let ghost mut cur = ts;
    proof {
        lemma_stack_rel_extends(e0, expanded_nodes(*expr), draw_stack@, ts);
    }
    loop
        invariant_except_break
            expanded_wf(*expr),
            extends(e0, expanded_nodes(*expr)),
            stack_rel(expanded_nodes(*expr), draw_stack@, cur),
            stack_ok(cur),
            e0 == expanded_nodes(*old(expr)),
            e0.len() + reduce_nodes(ts, from_restore) == expanded_nodes(*expr).len() + walk_nodes(cur, from_restore),
            expanded_nodes(*expr).len() <= u32::MAX,
            id_index(acc) < expanded_nodes(*expr).len(),
            term_of(expanded_nodes(*expr), id_index(acc) as int) == acc_t,
            spec_reduce(cur, acc_t, from_restore) == spec_reduce(ts, blank(), from_restore),
        ensures
            expanded_wf(*expr),
            extends(e0, expanded_nodes(*expr)),
            expanded_nodes(*expr).len() == e0.len() + reduce_nodes(ts, from_restore),
            expanded_nodes(*expr).len() <= u32::MAX,
            stack_rel(expanded_nodes(*expr), draw_stack@, spec_reduce(ts, blank(), from_restore)),
        decreases draw_stack@.len(),
    {
        let ghost s1 = expanded_nodes(*expr);
        if draw_stack.len() == 0 {
            proof {
                lemma_stack_rel_push(s1, draw_stack@, cur, (StackOp::Surface, acc), acc_t);
            }
            draw_stack.push((StackOp::Surface, acc));
            break;
        }
        let ghost before_pop = draw_stack@;
        let (e2_type, e2) = draw_stack.pop().unwrap();
        let ghost t = cur.last().1;
        let ghost rest = cur.drop_last();
        proof {
            lemma_stack_rel_pop(s1, before_pop, cur);
            assert(before_pop.drop_last() =~= draw_stack@);
            assert(entry_ok(cur[cur.len() - 1]));
            assert(stack_ok(rest));
            lemma_extends_refl(s1);
        }
        match e2_type {
            StackOp::SaveLayer => {
                if !from_restore {
                    proof {
                        lemma_stack_rel_push(s1, draw_stack@, rest, (e2_type, e2), t);
                        assert(rest.push((e2_type, t)) =~= cur);
                        lemma_stack_rel_push(s1, before_pop, cur, (StackOp::Surface, acc), acc_t);
                    }
                    draw_stack.push((e2_type, e2));
                    draw_stack.push((StackOp::Surface, acc));
                    break;
                }
                proof {
                    assert(rest.push((StackOp::SaveLayer, t)) =~= cur);
                }
                let merged = merge_layer(expr, draw_stack, acc, e2, Ghost(rest), Ghost(t), Ghost(acc_t));
                proof {
                    lemma_extends_trans(e0, s1, expanded_nodes(*expr));
                }
                if !merged {
                    return false;
                }
                break;
            },
            StackOp::Save => {
                if from_restore {
                    proof {
                        lemma_stack_rel_push(s1, draw_stack@, rest, (StackOp::Surface, acc), acc_t);
                    }
                    draw_stack.push((StackOp::Surface, acc));
                    break;
                }
                proof {
                    cur = rest;
                }
            },
            StackOp::MatrixOp => {
                let ghost args2 = seq![acc_t, t];
                if expanded_len(expr) >= 4294967295 {
                    return false;
                }
                acc = add_with(expr, ExpandedSkiLang::MatrixOp([acc, e2]), Ghost(args2));
                proof {
                    acc_t = node2(ExpandedOp::MatrixOp, acc_t, t);
                    cur = rest;
                }
            },
            StackOp::ClipRect => {
                let ghost args2 = seq![acc_t, t];
                if expanded_len(expr) >= 4294967295 {
                    return false;
                }
                acc = add_with(expr, ExpandedSkiLang::ClipRect([acc, e2]), Ghost(args2));
                proof {
                    acc_t = node2(ExpandedOp::ClipRect, acc_t, t);
                    cur = rest;
                }
            },
            StackOp::Surface => {
                let ghost args2 = seq![t, acc_t];
                if expanded_len(expr) >= 4294967295 {
                    return false;
                }
                acc = add_with(expr, ExpandedSkiLang::Concat([e2, acc]), Ghost(args2));
                proof {
                    acc_t = node2(ExpandedOp::Concat, t, acc_t);
                    cur = rest;
                }
            },
            StackOp::State => {
                assert(false);
            },
        }
        proof {
            lemma_extends_trans(e0, s1, expanded_nodes(*expr));
            lemma_stack_rel_extends(s1, expanded_nodes(*expr), draw_stack@, cur);
        }
    }
    true
}

/// Appends the parameters of a state operation kept as it is.
fn matrix_op_to_expr(expr: &mut egg::RecExpr<ExpandedSkiLang>, index: i32) -> (id: egg::Id)
    requires
        expanded_wf(*old(expr)),
        expanded_nodes(*old(expr)).len() + 2 <= u32::MAX,
    ensures
        added(expanded_nodes(*old(expr)), expanded_nodes(*final(expr)), id, matrix_op_params_term(index)),
        expanded_nodes(*final(expr)).len() == expanded_nodes(*old(expr)).len() + 2,
{
    let ghost s0 = expanded_nodes(*expr);
    let matrix_op_index = add_leaf(expr, ExpandedSkiLang::Num(index));
    let ghost s1 = expanded_nodes(*expr);
    let ghost ts = seq![num_term(index)];
    let id = add_with(expr, ExpandedSkiLang::MatrixOpParams([matrix_op_index]), Ghost(ts));
    proof {
        lemma_added_then(s0, s1, expanded_nodes(*expr), matrix_op_index, num_term(index), id, matrix_op_params_term(index));
    }
    id
}

/// Appends a draw command with its paint.
fn draw_command_to_expr(expr: &mut egg::RecExpr<ExpandedSkiLang>, index: i32, paint: &Option<SkPaint>) -> (id: egg::Id)
    requires
        expanded_wf(*old(expr)),
        expanded_nodes(*old(expr)).len() + 20 <= u32::MAX,
    ensures
        added(expanded_nodes(*old(expr)), expanded_nodes(*final(expr)), id, draw_command_term(index, *paint)),
        expanded_nodes(*final(expr)).len() == expanded_nodes(*old(expr)).len() + 20,
{
    let ghost s0 = expanded_nodes(*expr);
    let draw_command_index = add_leaf(expr, ExpandedSkiLang::Num(index));
    let ghost s1 = expanded_nodes(*expr);
    let draw_command_paint = paint_proto_to_expr(expr, paint);
    let ghost s2 = expanded_nodes(*expr);
    proof {
        lemma_added_then(s0, s1, s2, draw_command_index, num_term(index), draw_command_paint, spec_paint_term(*paint));
    }
    let ghost ts = seq![num_term(index), spec_paint_term(*paint)];
    let id = add_with(expr, ExpandedSkiLang::DrawCommand([draw_command_index, draw_command_paint]), Ghost(ts));
    proof {
        lemma_added_then(s0, s2, expanded_nodes(*expr), draw_command_paint, spec_paint_term(*paint), id, draw_command_term(index, *paint));
    }
    id
}

/// Appends the parameters of a clip by a rectangle.
fn clip_rect_to_expr(expr: &mut egg::RecExpr<ExpandedSkiLang>, clip_rect: &ClipRect) -> (id: egg::Id)
    requires
        expanded_wf(*old(expr)),
        clip_rect.bounds is Some,
        SkiLangRect::bounds_are_numbers(clip_rect.bounds->0),
        clip_rect.clip_op == ClipOp::Difference.spec_value() || clip_rect.clip_op == ClipOp::Intersect.spec_value(),
        expanded_nodes(*old(expr)).len() + 5 <= u32::MAX,
    ensures
        added(expanded_nodes(*old(expr)), expanded_nodes(*final(expr)), id, clip_rect_params_term(*clip_rect)),
        expanded_nodes(*final(expr)).len() == expanded_nodes(*old(expr)).len() + 5,
{
    let ghost t = clip_rect_params_term(*clip_rect);
    let ghost s0 = expanded_nodes(*expr);
    let clip_op_rect = bounds_proto_to_rect_expr(expr, &clip_rect.bounds);
    let ghost s1 = expanded_nodes(*expr);
    let clip_op = if clip_rect.clip_op == ClipOp::Difference.value() {
        add_leaf(expr, ExpandedSkiLang::ClipOpDiff)
    } else {
        add_leaf(expr, ExpandedSkiLang::ClipOpIntersect)
    };
    let ghost s2 = expanded_nodes(*expr);
    proof {
        lemma_added_then(s0, s1, s2, clip_op_rect, args(t)[0], clip_op, args(t)[1]);
    }
    let is_anti_alias = add_leaf(expr, ExpandedSkiLang::Exists(clip_rect.do_anti_alias));
    let ghost s3 = expanded_nodes(*expr);
    proof {
        lemma_added_then(s0, s2, s3, clip_op, args(t)[1], is_anti_alias, args(t)[2]);
    }
    let id = add_with(expr, ExpandedSkiLang::ClipRectParams([clip_op_rect, clip_op, is_anti_alias]), Ghost(args(t)));
    proof {
        lemma_added_then(s0, s3, expanded_nodes(*expr), is_anti_alias, args(t)[2], id, t);
    }
    id
}

/// Appends the parameters of a layer, under the blank state.
fn save_layer_to_expr(expr: &mut egg::RecExpr<ExpandedSkiLang>, index: i32, save_layer: &SaveLayer) -> (id: egg::Id)
    requires
        expanded_wf(*old(expr)),
        bounds_convertible(save_layer.bounds),
        expanded_nodes(*old(expr)).len() + 23 + bounds_nodes(save_layer.bounds) <= u32::MAX,
    ensures
        added(expanded_nodes(*old(expr)), expanded_nodes(*final(expr)), id, merge_params_term(index, *save_layer)),
        expanded_nodes(*final(expr)).len() == expanded_nodes(*old(expr)).len() + 23 + bounds_nodes(save_layer.bounds),
{
    let ghost t = merge_params_term(index, *save_layer);
    let ghost s0 = expanded_nodes(*expr);
    let layer_index = add_leaf(expr, ExpandedSkiLang::Num(index));
    let ghost s1 = expanded_nodes(*expr);
    let paint = paint_proto_to_expr(expr, &save_layer.paint);
    let ghost s2 = expanded_nodes(*expr);
    proof {
        lemma_added_then(s0, s1, s2, layer_index, args(t)[0], paint, args(t)[1]);
    }
    let backdrop_exists = add_leaf(expr, ExpandedSkiLang::Exists(save_layer.backdrop.is_some()));
    let ghost s3 = expanded_nodes(*expr);
    proof {
        lemma_added_then(s0, s2, s3, paint, args(t)[1], backdrop_exists, args(args(t)[2])[0]);
    }
    let ghost ts = seq![args(args(t)[2])[0]];
    let backdrop = add_with(expr, ExpandedSkiLang::Backdrop([backdrop_exists]), Ghost(ts));
    let ghost s4 = expanded_nodes(*expr);
    proof {
        lemma_added_then(s0, s3, s4, backdrop_exists, args(args(t)[2])[0], backdrop, args(t)[2]);
    }
    let save_layer_bounds = bounds_proto_to_expr(expr, &save_layer.bounds);
    let ghost s5 = expanded_nodes(*expr);
    proof {
        lemma_added_then(s0, s4, s5, backdrop, args(t)[2], save_layer_bounds, args(t)[3]);
    }
    let state_at_merge = add_leaf(expr, ExpandedSkiLang::BlankState);
    let ghost s6 = expanded_nodes(*expr);
    proof {
        lemma_added_then(s0, s5, s6, save_layer_bounds, args(t)[3], state_at_merge, args(t)[4]);
    }
    let id = add_with(
        expr,
        ExpandedSkiLang::MergeParams([layer_index, paint, backdrop, save_layer_bounds, state_at_merge]),
        Ghost(args(t)),
    );
    proof {
        lemma_added_then(s0, s6, expanded_nodes(*expr), state_at_merge, args(t)[4], id, t);
    }
    id
}

/// Reading record `i` appends no more nodes than the whole build does after
/// the records before it.
proof fn lemma_step_within(records: Seq<SkRecords>, i: int)
    requires
        0 <= i < records.len(),
    ensures
        steps_nodes(records, i) + step_nodes(spec_stack_after(records, i), records[i]) <= build_expr_nodes(records),
{
    lemma_steps_nodes_mono(records, i + 1, records.len() as int);
}

/// Appends the expression of a list of records, and returns the position
/// of its root; `None` where the nodes that it appends do not fit in 32-bit
/// ids.
fn build_expr_checked(sk_records: &Vec<SkRecords>, expr: &mut egg::RecExpr<ExpandedSkiLang>) -> (r: Option<egg::Id>)
    requires
        expanded_wf(*old(expr)),
        forall|i: int| 0 <= i < sk_records@.len() ==> record_convertible(#[trigger] sk_records@[i]),
    ensures
        expanded_wf(*final(expr)),
        extends(expanded_nodes(*old(expr)), expanded_nodes(*final(expr))),
        r is Some <==> expanded_nodes(*old(expr)).len() + build_expr_nodes(sk_records@) <= u32::MAX,
        r matches Some(id) ==> {
            &&& expanded_nodes(*final(expr)).len() == expanded_nodes(*old(expr)).len() + build_expr_nodes(sk_records@)
            &&& id_index(id) < expanded_nodes(*final(expr)).len()
            &&& term_of(expanded_nodes(*final(expr)), id_index(id) as int) == spec_build_expr(sk_records@)
        },
{
    let ghost e0 = expanded_nodes(*expr);
    let ghost records = sk_records@;
    let mut draw_stack: Vec<(StackOp, egg::Id)> = Vec::new();
    let mut i: usize = 0;
    proof {
        lemma_extends_refl(e0);
    }
    if expanded_len(expr) > 4294967295 {
        return None;
    }
    while i < sk_records.len()
        invariant
            i <= records.len(),
            records == sk_records@,
            forall|k: int| 0 <= k < records.len() ==> record_convertible(#[trigger] records[k]),
            expanded_wf(*expr),
            extends(e0, expanded_nodes(*expr)),
            stack_rel(expanded_nodes(*expr), draw_stack@, spec_stack_after(records, i as int)),
            stack_ok(spec_stack_after(records, i as int)),
            e0 == expanded_nodes(*old(expr)),
            expanded_nodes(*expr).len() == e0.len() + steps_nodes(records, i as int),
            expanded_nodes(*expr).len() <= u32::MAX,
        decreases records.len() - i,
    {
        let sk_record = &sk_records[i];
        let ghost st = spec_stack_after(records, i as int);
        let ghost s1 = expanded_nodes(*expr);
        proof {
            assert(spec_stack_after(records, i + 1) == spec_step(st, records[i as int]));
            lemma_step_ok(st, records[i as int]);
            assert(record_convertible(records[i as int]));
            lemma_step_within(records, i as int);
        }
        match &sk_record.command {
            Some(Command::DrawCommand(draw_command)) => {
                let clip_path = "ClipPath".to_string();
                let clip_rrect = "ClipRRect".to_string();
                let concat44 = "Concat44".to_string();
                if draw_command.name == clip_path || draw_command.name == clip_rrect || draw_command.name == concat44 {
                    if expanded_len(expr) > 4294967293 {
                        return None;
                    }
                    let matrix_op_params = matrix_op_to_expr(expr, sk_record.index);
                    proof {
                        lemma_stack_rel_extends(s1, expanded_nodes(*expr), draw_stack@, st);
                        lemma_stack_rel_push(expanded_nodes(*expr), draw_stack@, st, (StackOp::MatrixOp, matrix_op_params), matrix_op_params_term(sk_record.index));
                    }
                    draw_stack.push((StackOp::MatrixOp, matrix_op_params));
                } else {
                    if expanded_len(expr) > 4294967275 {
                        return None;
                    }
                    let draw_op_command = draw_command_to_expr(expr, sk_record.index, &draw_command.paint);
                    proof {
                        lemma_stack_rel_extends(s1, expanded_nodes(*expr), draw_stack@, st);
                        lemma_stack_rel_push(expanded_nodes(*expr), draw_stack@, st, (StackOp::Surface, draw_op_command), draw_command_term(sk_record.index, draw_command.paint));
                    }
                    draw_stack.push((StackOp::Surface, draw_op_command));
                }
            },
            Some(Command::Concat44(_)) => {
                if expanded_len(expr) > 4294967293 {
                    return None;
                }
                let matrix_op_params = matrix_op_to_expr(expr, sk_record.index);
                proof {
                    lemma_stack_rel_extends(s1, expanded_nodes(*expr), draw_stack@, st);
                    lemma_stack_rel_push(expanded_nodes(*expr), draw_stack@, st, (StackOp::MatrixOp, matrix_op_params), matrix_op_params_term(sk_record.index));
                }
                draw_stack.push((StackOp::MatrixOp, matrix_op_params));
            },
            Some(Command::ClipRect(clip_rect)) => {
                if expanded_len(expr) > 4294967290 {
                    return None;
                }
                let clip_rect_params = clip_rect_to_expr(expr, clip_rect);
                proof {
                    lemma_stack_rel_extends(s1, expanded_nodes(*expr), draw_stack@, st);
                    lemma_stack_rel_push(expanded_nodes(*expr), draw_stack@, st, (StackOp::ClipRect, clip_rect_params), clip_rect_params_term(*clip_rect));
                }
                draw_stack.push((StackOp::ClipRect, clip_rect_params));
            },
            Some(Command::Save(_)) => {
                if expanded_len(expr) > 4294967294 {
                    return None;
                }
                let no_op = add_leaf(expr, ExpandedSkiLang::NoOp);
                proof {
                    lemma_stack_rel_extends(s1, expanded_nodes(*expr), draw_stack@, st);
                    lemma_stack_rel_push(expanded_nodes(*expr), draw_stack@, st, (StackOp::Save, no_op), leaf(ExpandedOp::NoOp));
                }
                draw_stack.push((StackOp::Save, no_op));
            },
            Some(Command::SaveLayer(save_layer)) => {
                let layer_nodes: usize = if save_layer.bounds.is_some() {
                    27
                } else {
                    26
                };
                if expanded_len(expr) > 4294967295 - layer_nodes {
                    return None;
                }
                let merge_params = save_layer_to_expr(expr, sk_record.index, save_layer);
                proof {
                    lemma_stack_rel_extends(s1, expanded_nodes(*expr), draw_stack@, st);
                    lemma_stack_rel_push(expanded_nodes(*expr), draw_stack@, st, (StackOp::SaveLayer, merge_params), merge_params_term(sk_record.index, *save_layer));
                }
                draw_stack.push((StackOp::SaveLayer, merge_params));
            },
            Some(Command::Restore(_)) => {
                proof {
                    lemma_stack_after_ok(records, i as int);
                }
                if !reduce_stack(expr, &mut draw_stack, true, Ghost(st)) {
                    proof {
                        lemma_extends_trans(e0, s1, expanded_nodes(*expr));
                    }
                    return None;
                }
            },
            None => {
                proof {
                    lemma_extends_refl(s1);
                }
            },
        }
        proof {
            lemma_extends_trans(e0, s1, expanded_nodes(*expr));
        }
        i = i + 1;
    }
    let ghost last = spec_stack_after(records, records.len() as int);
    let ghost s2 = expanded_nodes(*expr);
    if !reduce_stack(expr, &mut draw_stack, false, Ghost(last)) {
        proof {
            lemma_extends_trans(e0, s2, expanded_nodes(*expr));
        }
        return None;
    }
    proof {
        lemma_extends_trans(e0, s2, expanded_nodes(*expr));
        lemma_reduce_ok(last, blank(), false);
    }
    Some(draw_stack[0].1)
}

/// Appends the expression of a list of records, and returns the position
/// of its root.
pub fn build_expr(sk_records: &Vec<SkRecords>, expr: &mut egg::RecExpr<ExpandedSkiLang>) -> (id: egg::Id)
    requires
        expanded_wf(*old(expr)),
        forall|i: int| 0 <= i < sk_records@.len() ==> record_convertible(#[trigger] sk_records@[i]),
        expanded_nodes(*old(expr)).len() + build_expr_nodes(sk_records@) <= u32::MAX,
    ensures
        expanded_wf(*final(expr)),
        extends(expanded_nodes(*old(expr)), expanded_nodes(*final(expr))),
        expanded_nodes(*final(expr)).len() == expanded_nodes(*old(expr)).len() + build_expr_nodes(sk_records@),
        id_index(id) < expanded_nodes(*final(expr)).len(),
        term_of(expanded_nodes(*final(expr)), id_index(id) as int) == spec_build_expr(sk_records@),
{
    match build_expr_checked(sk_records, expr) {
        Some(id) => id,
        None => {
            assert(false);
            crate::egg_expr::usize_to_id(0)
        },
    }
}

/// Whether a record can be converted.
pub fn is_record_convertible(r: &SkRecords) -> (b: bool)
    ensures
        b == record_convertible(*r),
{
    match &r.command {
        Some(Command::ClipRect(c)) => match &c.bounds {
            Some(bounds) => rect_is_numbers(bounds) && (c.clip_op == ClipOp::Difference.value() || c.clip_op
                == ClipOp::Intersect.value()),
            None => false,
        },
        Some(Command::SaveLayer(s)) => match &s.bounds {
            Some(bounds) => rect_is_numbers(bounds),
            None => true,
        },
        _ => true,
    }
}

/// Whether every record of the list can be converted.
pub fn records_convertible(sk_records: &Vec<SkRecords>) -> (b: bool)
    ensures
        b == (forall|i: int| 0 <= i < sk_records@.len() ==> record_convertible(#[trigger] sk_records@[i])),
{
    let mut i: usize = 0;
    while i < sk_records.len()
        invariant
            i <= sk_records@.len(),
            forall|k: int| 0 <= k < i ==> record_convertible(#[trigger] sk_records@[k]),
        decreases sk_records@.len() - i,
    {
        if !is_record_convertible(&sk_records[i]) {
            return false;
        }
        i = i + 1;
    }
    true
}

/// Appends the expression of a list of records, and returns the position
/// of its root; `None` where a record cannot be converted (the expression
/// is then left as it was) or the nodes that the records append do not fit
/// in 32-bit ids.
pub fn try_build_expr(sk_records: &Vec<SkRecords>, expr: &mut egg::RecExpr<ExpandedSkiLang>) -> (r: Option<egg::Id>)
    requires
        expanded_wf(*old(expr)),
    ensures
        expanded_wf(*final(expr)),
        extends(expanded_nodes(*old(expr)), expanded_nodes(*final(expr))),
        r is Some <==> ((forall|i: int| 0 <= i < sk_records@.len() ==> record_convertible(#[trigger] sk_records@[i]))
            && expanded_nodes(*old(expr)).len() + build_expr_nodes(sk_records@) <= u32::MAX),
        !(forall|i: int| 0 <= i < sk_records@.len() ==> record_convertible(#[trigger] sk_records@[i])) ==> *final(expr)
            == *old(expr),
        r matches Some(id) ==> {
            &&& expanded_nodes(*final(expr)).len() == expanded_nodes(*old(expr)).len() + build_expr_nodes(sk_records@)
            &&& id_index(id) < expanded_nodes(*final(expr)).len()
            &&& term_of(expanded_nodes(*final(expr)), id_index(id) as int) == spec_build_expr(sk_records@)
        },
{
    if !records_convertible(sk_records) {
        proof {
            lemma_extends_refl(expanded_nodes(*expr));
        }
        return None;
    }
    build_expr_checked(sk_records, expr)
}

/// The concatenation of the surfaces `ts` before `acc`, nested to the
/// right: `ts[0]` then `ts[1]` ... then `acc`.
pub open spec fn right_concat(ts: Seq<ExpandedTerm>, acc: ExpandedTerm) -> ExpandedTerm
    decreases ts.len(),
{
    if ts.len() == 0 {
        acc
    } else {
        right_concat(ts.drop_last(), node2(ExpandedOp::Concat, ts.last(), acc))
    }
}

/// A record that draws: a draw command that does not stand for a state
/// operation.
pub open spec fn is_plain_draw(r: SkRecords) -> bool {
    r.command matches Some(Command::DrawCommand(d)) && !is_matrix_op_name(d.name@)
}

/// The term of the draw of a plain draw record.
pub open spec fn draw_term_of(r: SkRecords) -> ExpandedTerm {
    draw_command_term(r.index, r.command->Some_0->DrawCommand_0.paint)
}

proof fn lemma_draws_stack(records: Seq<SkRecords>, n: int)
    requires
        0 <= n <= records.len(),
        forall|i: int| 0 <= i < records.len() ==> is_plain_draw(#[trigger] records[i]),
    ensures
        spec_stack_after(records, n) == Seq::new(n as nat, |k: int| (StackOp::Surface, draw_term_of(records[k]))),
    decreases n,
{
    if n > 0 {
        lemma_draws_stack(records, n - 1);
        assert(is_plain_draw(records[n - 1]));
        assert(spec_stack_after(records, n) =~= Seq::new(n as nat, |k: int| (StackOp::Surface, draw_term_of(records[k]))));
    } else {
        assert(spec_stack_after(records, n) =~= Seq::new(n as nat, |k: int| (StackOp::Surface, draw_term_of(records[k]))));
    }
}

proof fn lemma_reduce_surfaces(st: TermStack, acc: ExpandedTerm, from_restore: bool)
    requires
        forall|i: int| 0 <= i < st.len() ==> (#[trigger] st[i]).0 == StackOp::Surface,
    ensures
        spec_reduce(st, acc, from_restore) == seq![
            (StackOp::Surface, right_concat(st.map_values(|e: (StackOp, ExpandedTerm)| e.1), acc)),
        ],
    decreases st.len(),
{
    let f = |e: (StackOp, ExpandedTerm)| e.1;
    if st.len() > 0 {
        let rest = st.drop_last();
        assert(st.last().0 == StackOp::Surface);
        lemma_reduce_surfaces(rest, node2(ExpandedOp::Concat, st.last().1, acc), from_restore);
        assert(st.map_values(f).drop_last() =~= rest.map_values(f));
        assert(st.map_values(f).last() == st.last().1);
    }
}

/// A list of records that only draw is converted to the concatenation of
/// its draws, in order, before a blank surface.
pub proof fn lemma_draws_concatenate(records: Seq<SkRecords>)
    requires
        forall|i: int| 0 <= i < records.len() ==> is_plain_draw(#[trigger] records[i]),
    ensures
        spec_build_expr(records) == right_concat(
            Seq::new(records.len(), |k: int| draw_term_of(records[k])),
            blank(),
        ),
{
    let n = records.len() as int;
    lemma_draws_stack(records, n);
    let st = spec_stack_after(records, n);
    lemma_reduce_surfaces(st, blank(), false);
    assert(st.map_values(|e: (StackOp, ExpandedTerm)| e.1) =~= Seq::new(records.len(), |k: int| draw_term_of(records[k])));
}

} // verus!
