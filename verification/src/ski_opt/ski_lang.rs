//! The SkiLang of SkiOpt, and the conversion of draw commands into it.
//!
//! Each rectangle is composed source-over onto what was drawn before it. A
//! `saveLayer` opens a layer: the commands up to its `restore` draw onto a
//! blank surface of their own, which is then composed source-over onto the
//! surface below, and the commands after the `restore` draw onto that
//! surface again. A `restore` that closes no layer adds nothing.
use vstd::prelude::*;

use super::skpicture::{SkDrawCommand, SkPaint};
use crate::egg_expr::id_index;

verus! {

/// A node of a SkiOpt expression.
#[derive(Debug, Clone, Copy, PartialEq, Eq, PartialOrd, Ord, Hash)]
pub enum SkiLang {
    Num(i32),
    /// x, y
    Point([egg::Id; 2]),
    /// width, height
    Dim([egg::Id; 2]),
    /// alpha, red, green, blue; each 0-255
    Color([egg::Id; 4]),
    /// color
    Paint([egg::Id; 1]),
    Blank,
    /// dst, src
    SrcOver([egg::Id; 2]),
    /// top-left point, bottom-right point, paint
    DrawRect([egg::Id; 3]),
}

/// The operands of a node, in order.
pub open spec fn children(n: SkiLang) -> Seq<egg::Id> {
    match n {
        SkiLang::Num(_) => seq![],
        SkiLang::Point(ids) => seq![ids[0], ids[1]],
        SkiLang::Dim(ids) => seq![ids[0], ids[1]],
        SkiLang::Color(ids) => seq![ids[0], ids[1], ids[2], ids[3]],
        SkiLang::Paint(ids) => seq![ids[0]],
        SkiLang::Blank => seq![],
        SkiLang::SrcOver(ids) => seq![ids[0], ids[1]],
        SkiLang::DrawRect(ids) => seq![ids[0], ids[1], ids[2]],
    }
}

/// Every operand of `n` comes before position `pos`.
pub open spec fn children_before(n: SkiLang, pos: int) -> bool {
    forall|k: int| 0 <= k < children(n).len() ==> id_index(#[trigger] children(n)[k]) < pos
}

/// Every node names only nodes that come before it.
pub open spec fn wf_nodes(s: Seq<SkiLang>) -> bool {
    forall|i: int| 0 <= i < s.len() ==> children_before(#[trigger] s[i], i)
}

/// The terms of SkiOpt's SkiLang.
pub enum SkiTerm {
    Num(i32),
    Point(Box<SkiTerm>, Box<SkiTerm>),
    Dim(Box<SkiTerm>, Box<SkiTerm>),
    Color(Box<SkiTerm>, Box<SkiTerm>, Box<SkiTerm>, Box<SkiTerm>),
    Paint(Box<SkiTerm>),
    Blank,
    SrcOver(Box<SkiTerm>, Box<SkiTerm>),
    DrawRect(Box<SkiTerm>, Box<SkiTerm>, Box<SkiTerm>),
}

/// The term of the operand at `c` of the node at `id`.
pub open spec fn operand_term(s: Seq<SkiLang>, id: int, c: egg::Id) -> Box<SkiTerm>
    decreases id, 0int,
{
    if (id_index(c) as int) < id {
        Box::new(term_of(s, id_index(c) as int))
    } else {
        Box::new(SkiTerm::Blank)
    }
}

/// The term that the node at `id` stands for.
pub open spec fn term_of(s: Seq<SkiLang>, id: int) -> SkiTerm
    decreases id, 1int,
{
    if 0 <= id < s.len() {
        match s[id] {
            SkiLang::Num(v) => SkiTerm::Num(v),
            SkiLang::Point(ids) => SkiTerm::Point(operand_term(s, id, ids[0]), operand_term(s, id, ids[1])),
            SkiLang::Dim(ids) => SkiTerm::Dim(operand_term(s, id, ids[0]), operand_term(s, id, ids[1])),
            SkiLang::Color(ids) => SkiTerm::Color(
                operand_term(s, id, ids[0]),
                operand_term(s, id, ids[1]),
                operand_term(s, id, ids[2]),
                operand_term(s, id, ids[3]),
            ),
            SkiLang::Paint(ids) => SkiTerm::Paint(operand_term(s, id, ids[0])),
            SkiLang::Blank => SkiTerm::Blank,
            SkiLang::SrcOver(ids) => SkiTerm::SrcOver(operand_term(s, id, ids[0]), operand_term(s, id, ids[1])),
            SkiLang::DrawRect(ids) => SkiTerm::DrawRect(
                operand_term(s, id, ids[0]),
                operand_term(s, id, ids[1]),
                operand_term(s, id, ids[2]),
            ),
        }
    } else {
        SkiTerm::Blank
    }
}

/// `b` starts with the nodes of `a`.
pub open spec fn extends(a: Seq<SkiLang>, b: Seq<SkiLang>) -> bool {
    a.len() <= b.len() && b.subrange(0, a.len() as int) == a
}

/// Appending nodes leaves the term of every existing node unchanged.
pub proof fn lemma_term_of_prefix(s: Seq<SkiLang>, t: Seq<SkiLang>, id: int)
    requires
        extends(s, t),
        0 <= id < s.len(),
    ensures
        term_of(t, id) == term_of(s, id),
    decreases id,
{
    assert(t[id] == s[id]);
    let c = children(s[id]);
    assert forall|k: int| 0 <= k < c.len() && (id_index(c[k]) as int) < id implies term_of(t, id_index(c[k]) as int) == term_of(
        s,
        id_index(c[k]) as int,
    ) by {
        lemma_term_of_prefix(s, t, id_index(c[k]) as int);
    }
    match s[id] {
        SkiLang::Point(ids) => { assert(c[0] == ids[0] && c[1] == ids[1]); },
        SkiLang::Dim(ids) => { assert(c[0] == ids[0] && c[1] == ids[1]); },
        SkiLang::Color(ids) => { assert(c[0] == ids[0] && c[1] == ids[1] && c[2] == ids[2] && c[3] == ids[3]); },
        SkiLang::Paint(ids) => { assert(c[0] == ids[0]); },
        SkiLang::SrcOver(ids) => { assert(c[0] == ids[0] && c[1] == ids[1]); },
        SkiLang::DrawRect(ids) => { assert(c[0] == ids[0] && c[1] == ids[1] && c[2] == ids[2]); },
        _ => {},
    }
}

/// Extending an expression keeps the terms of its nodes.
pub proof fn lemma_extends_terms(a: Seq<SkiLang>, b: Seq<SkiLang>)
    requires
        extends(a, b),
    ensures
        forall|i: int| 0 <= i < a.len() ==> #[trigger] term_of(b, i) == term_of(a, i),
{
    assert forall|i: int| 0 <= i < a.len() implies #[trigger] term_of(b, i) == term_of(a, i) by {
        lemma_term_of_prefix(a, b, i);
    }
}

/// Extension is transitive.
pub proof fn lemma_extends_trans(a: Seq<SkiLang>, b: Seq<SkiLang>, c: Seq<SkiLang>)
    requires
        extends(a, b),
        extends(b, c),
    ensures
        extends(a, c),
{
    assert(c.subrange(0, a.len() as int) =~= b.subrange(0, a.len() as int));
}

/// The nodes of a SkiOpt expression, in order.
pub uninterp spec fn ski_opt_nodes(e: egg::RecExpr<SkiLang>) -> Seq<SkiLang>;

/// An expression whose nodes name only nodes that come before them.
pub open spec fn ski_opt_wf(e: egg::RecExpr<SkiLang>) -> bool {
    wf_nodes(ski_opt_nodes(e))
}

/// The term of the node with id `id`.
pub open spec fn ski_opt_term(e: egg::RecExpr<SkiLang>, id: egg::Id) -> SkiTerm {
    term_of(ski_opt_nodes(e), id_index(id) as int)
}

/// `RecExpr::default`: an expression with no nodes.
#[verifier::external_body]
fn rec_expr_default() -> (e: egg::RecExpr<SkiLang>)
    ensures
        ski_opt_nodes(e) == Seq::<SkiLang>::empty(),
{
    egg::RecExpr::default()
}

/// `RecExpr::add`: appends a node, whose operands must already be in the
/// expression (`egg` asserts it in debug builds), and returns the id of
/// its position.
#[verifier::external_body]
fn rec_expr_add(e: &mut egg::RecExpr<SkiLang>, node: SkiLang) -> (id: egg::Id)
    requires
        children_before(node, ski_opt_nodes(*old(e)).len() as int),
    ensures
        ski_opt_nodes(*final(e)) == ski_opt_nodes(*old(e)).push(node),
        ski_opt_nodes(*old(e)).len() <= u32::MAX ==> id_index(id) == ski_opt_nodes(*old(e)).len(),
{
    e.add(node)
}

/// Indexing by an id: the node at its position.
#[verifier::external_body]
fn rec_expr_index(e: &egg::RecExpr<SkiLang>, id: egg::Id) -> (n: &SkiLang)
    requires
        id_index(id) < ski_opt_nodes(*e).len(),
    ensures
        *n == ski_opt_nodes(*e)[id_index(id) as int],
{
    &e[id]
}

/// A SkiOpt expression with no nodes.
pub fn new_ski_opt_expr() -> (e: egg::RecExpr<SkiLang>)
    ensures
        ski_opt_nodes(e) == Seq::<SkiLang>::empty(),
        ski_opt_wf(e),
{
    rec_expr_default()
}

/// Appends a node whose operands are already in the expression, and
/// returns its id.
pub fn add_ski_opt_node(e: &mut egg::RecExpr<SkiLang>, node: SkiLang) -> (id: egg::Id)
    requires
        ski_opt_wf(*old(e)),
        children_before(node, ski_opt_nodes(*old(e)).len() as int),
        ski_opt_nodes(*old(e)).len() < u32::MAX,
    ensures
        ski_opt_nodes(*final(e)) == ski_opt_nodes(*old(e)).push(node),
        extends(ski_opt_nodes(*old(e)), ski_opt_nodes(*final(e))),
        ski_opt_wf(*final(e)),
        id_index(id) == ski_opt_nodes(*old(e)).len(),
{
    let id = rec_expr_add(e, node);
    proof {
        let s = ski_opt_nodes(*old(e));
        let t = ski_opt_nodes(*e);
        assert(t.subrange(0, s.len() as int) =~= s);
        assert forall|i: int| 0 <= i < t.len() implies children_before(#[trigger] t[i], i) by {
            if i < s.len() {
                assert(t[i] == s[i]);
            }
        }
    }
    id
}

/// The node with id `id`.
pub fn get_ski_opt_node(e: &egg::RecExpr<SkiLang>, id: egg::Id) -> (n: &SkiLang)
    requires
        id_index(id) < ski_opt_nodes(*e).len(),
    ensures
        *n == ski_opt_nodes(*e)[id_index(id) as int],
{
    rec_expr_index(e, id)
}

/// An expression and the position of its root.
pub struct ParseSkpResult {
    pub expr: egg::RecExpr<SkiLang>,
    pub id: egg::Id,
}

pub open spec fn bx(t: SkiTerm) -> Box<SkiTerm> {
    Box::new(t)
}

/// The term of a rectangle drawn with a paint, from its coordinates and
/// its ARGB color (at least four of each).
pub open spec fn rect_term(coords: Seq<i32>, color: Seq<u8>) -> SkiTerm {
    SkiTerm::DrawRect(
        bx(SkiTerm::Point(bx(SkiTerm::Num(coords[0])), bx(SkiTerm::Num(coords[1])))),
        bx(SkiTerm::Point(bx(SkiTerm::Num(coords[2])), bx(SkiTerm::Num(coords[3])))),
        bx(
            SkiTerm::Paint(
                bx(
                    SkiTerm::Color(
                        bx(SkiTerm::Num(color[0] as i32)),
                        bx(SkiTerm::Num(color[1] as i32)),
                        bx(SkiTerm::Num(color[2] as i32)),
                        bx(SkiTerm::Num(color[3] as i32)),
                    ),
                ),
            ),
        ),
    )
}

/// The term that the commands from `pos` on draw over `dst`, with the
/// position after the last command read: inside a layer (`in_layer`) the
/// reading stops after the `restore` that closes it, else at the end. A
/// `saveLayer` draws the commands up to its `restore` onto a blank surface
/// and composes it onto `dst`. `None` where a rectangle read has fewer than
/// four coordinates or color channels.
pub open spec fn spec_build_exp(cmds: Seq<SkDrawCommand>, pos: int, dst: SkiTerm, in_layer: bool) -> Option<
    (SkiTerm, int),
>
    decreases cmds.len() - pos,
{
    if !(0 <= pos < cmds.len()) {
        Some((dst, pos))
    } else {
        match cmds[pos] {
            SkDrawCommand::DrawRect { coords, paint, .. } => if coords@.len() >= 4 && paint.color@.len() >= 4 {
                spec_build_exp(
                    cmds,
                    pos + 1,
                    SkiTerm::SrcOver(bx(dst), bx(rect_term(coords@, paint.color@))),
                    in_layer,
                )
            } else {
                None
            },
            SkDrawCommand::SaveLayer { .. } => match spec_build_exp(cmds, pos + 1, SkiTerm::Blank, true) {
                Some((layer, next)) => if pos < next <= cmds.len() {
                    spec_build_exp(cmds, next, SkiTerm::SrcOver(bx(dst), bx(layer)), in_layer)
                } else {
                    None
                },
                None => None,
            },
            SkDrawCommand::Restore { .. } => if in_layer {
                Some((dst, pos + 1))
            } else {
                spec_build_exp(cmds, pos + 1, dst, false)
            },
        }
    }
}

/// The term of a list of draw commands, drawn over a blank surface.
pub open spec fn spec_parse_skp(cmds: Seq<SkDrawCommand>) -> Option<SkiTerm> {
    match spec_build_exp(cmds, 0, SkiTerm::Blank, false) {
        Some((t, _)) => Some(t),
        None => None,
    }
}

/// The expression of a list of draw commands, every rectangle of which
/// has at least four coordinates and four color channels.
pub fn parse_skp(draw_commands: &Vec<SkDrawCommand>) -> (r: ParseSkpResult)
    requires
        spec_parse_skp(draw_commands@) is Some,
        14 * draw_commands@.len() + 1 <= u32::MAX,
    ensures
        ski_opt_wf(r.expr),
        id_index(r.id) < ski_opt_nodes(r.expr).len(),
        Some(term_of(ski_opt_nodes(r.expr), id_index(r.id) as int)) == spec_parse_skp(draw_commands@),
{
    let mut expr = new_ski_opt_expr();
    let blank_surface = add_ski_opt_node(&mut expr, SkiLang::Blank);
    let (id, _next) = build_exp(draw_commands, 0, blank_surface, false, &mut expr);
    ParseSkpResult { expr, id }
}

/// A command that can be parsed: a rectangle has at least four
/// coordinates and four color channels.
pub open spec fn cmd_ok(c: SkDrawCommand) -> bool {
    c matches SkDrawCommand::DrawRect { coords, paint, .. } ==> coords@.len() >= 4 && paint.color@.len() >= 4
}

/// Every command from `pos` on can be parsed.
pub open spec fn rects_ok(cmds: Seq<SkDrawCommand>, pos: int) -> bool {
    forall|k: int| pos <= k < cmds.len() ==> cmd_ok(#[trigger] cmds[k])
}

/// When every command from `pos` on can be parsed, the commands from `pos`
/// on are read, up to a position no further than the end.
proof fn lemma_build_exp_some(cmds: Seq<SkDrawCommand>, pos: int, d: SkiTerm, in_layer: bool)
    requires
        0 <= pos <= cmds.len(),
        rects_ok(cmds, pos),
    ensures
        spec_build_exp(cmds, pos, d, in_layer) matches Some((_, next)) && pos <= next <= cmds.len(),
    decreases cmds.len() - pos,
{
    if pos < cmds.len() {
        assert(cmd_ok(cmds[pos]));
        assert(rects_ok(cmds, pos + 1));
        match cmds[pos] {
            SkDrawCommand::DrawRect { coords, paint, .. } => {
                lemma_build_exp_some(cmds, pos + 1, SkiTerm::SrcOver(bx(d), bx(rect_term(coords@, paint.color@))), in_layer);
            },
            SkDrawCommand::SaveLayer { .. } => {
                lemma_build_exp_some(cmds, pos + 1, SkiTerm::Blank, true);
                let (layer, next) = spec_build_exp(cmds, pos + 1, SkiTerm::Blank, true)->0;
                assert(rects_ok(cmds, next));
                lemma_build_exp_some(cmds, next, SkiTerm::SrcOver(bx(d), bx(layer)), in_layer);
            },
            SkDrawCommand::Restore { .. } => {
                if !in_layer {
                    lemma_build_exp_some(cmds, pos + 1, d, false);
                }
            },
        }
    }
}

/// A command at `k` that cannot be parsed is reached, unless a layer open
/// at `pos` closes before it.
proof fn lemma_build_exp_none(cmds: Seq<SkDrawCommand>, pos: int, d: SkiTerm, in_layer: bool, k: int)
    requires
        0 <= pos <= k < cmds.len(),
        !cmd_ok(cmds[k]),
    ensures
        match spec_build_exp(cmds, pos, d, in_layer) {
            None => true,
            Some((_, next)) => in_layer && next <= k,
        },
    decreases cmds.len() - pos,
{
    if pos < k {
        match cmds[pos] {
            SkDrawCommand::DrawRect { coords, paint, .. } => {
                if coords@.len() >= 4 && paint.color@.len() >= 4 {
                    lemma_build_exp_none(cmds, pos + 1, SkiTerm::SrcOver(bx(d), bx(rect_term(coords@, paint.color@))), in_layer, k);
                }
            },
            SkDrawCommand::SaveLayer { .. } => {
                lemma_build_exp_none(cmds, pos + 1, SkiTerm::Blank, true, k);
                match spec_build_exp(cmds, pos + 1, SkiTerm::Blank, true) {
                    Some((layer, next)) => {
                        if pos < next <= cmds.len() {
                            lemma_build_exp_none(cmds, next, SkiTerm::SrcOver(bx(d), bx(layer)), in_layer, k);
                        }
                    },
                    None => {},
                }
            },
            SkDrawCommand::Restore { .. } => {
                if !in_layer {
                    lemma_build_exp_none(cmds, pos + 1, d, false, k);
                }
            },
        }
    }
}

/// A list of commands can be parsed exactly when each of them can.
proof fn lemma_build_exp_defined(cmds: Seq<SkDrawCommand>)
    ensures
        spec_parse_skp(cmds) is Some <==> rects_ok(cmds, 0),
{
    if rects_ok(cmds, 0) {
        lemma_build_exp_some(cmds, 0, SkiTerm::Blank, false);
    } else {
        let k = choose|k: int| 0 <= k < cmds.len() && !cmd_ok(#[trigger] cmds[k]);
        lemma_build_exp_none(cmds, 0, SkiTerm::Blank, false, k);
    }
}

/// Whether every rectangle of the list has at least four coordinates and
/// four color channels, so that it can be parsed.
pub fn can_parse_skp(draw_commands: &Vec<SkDrawCommand>) -> (b: bool)
    ensures
        b == (spec_parse_skp(draw_commands@) is Some),
{
    proof {
        lemma_build_exp_defined(draw_commands@);
    }
    let mut i: usize = 0;
    while i < draw_commands.len()
        invariant
            i <= draw_commands@.len(),
            spec_parse_skp(draw_commands@) is Some <==> rects_ok(draw_commands@, 0),
            forall|k: int| 0 <= k < i ==> cmd_ok(#[trigger] draw_commands@[k]),
        decreases draw_commands@.len() - i,
    {
        match &draw_commands[i] {
            SkDrawCommand::DrawRect { coords, paint, .. } => {
                if coords.len() < 4 || paint.color.len() < 4 {
                    assert(!cmd_ok(draw_commands@[i as int]));
                    assert(!rects_ok(draw_commands@, 0));
                    return false;
                }
            },
            _ => {},
        }
        i = i + 1;
    }
    assert(rects_ok(draw_commands@, 0));
    true
}

/// The term of the source-over node at `id`.
proof fn lemma_src_over_term(s: Seq<SkiLang>, id: int, d: egg::Id, r: egg::Id)
    requires
        0 <= id < s.len(),
        s[id] == SkiLang::SrcOver([d, r]),
        id_index(d) < id,
        id_index(r) < id,
    ensures
        term_of(s, id) == SkiTerm::SrcOver(bx(term_of(s, id_index(d) as int)), bx(term_of(s, id_index(r) as int))),
{
    assert(operand_term(s, id, d) == bx(term_of(s, id_index(d) as int)));
    assert(operand_term(s, id, r) == bx(term_of(s, id_index(r) as int)));
}

/// Adds the commands from `pos` on, drawn over the surface at `dst` (inside
/// a layer, up to the `restore` that closes it), and returns the position
/// of the result and of the command after the last one read.
fn build_exp(
    draw_commands: &Vec<SkDrawCommand>,
    pos: usize,
    dst: egg::Id,
    in_layer: bool,
    expr: &mut egg::RecExpr<SkiLang>,
) -> (r: (egg::Id, usize))
    requires
        ski_opt_wf(*old(expr)),
        id_index(dst) < ski_opt_nodes(*old(expr)).len(),
        pos <= draw_commands@.len(),
        spec_build_exp(draw_commands@, pos as int, term_of(ski_opt_nodes(*old(expr)), id_index(dst) as int), in_layer)
            is Some,
        ski_opt_nodes(*old(expr)).len() + 14 * (draw_commands@.len() - pos) <= u32::MAX,
    ensures
        ski_opt_wf(*final(expr)),
        extends(ski_opt_nodes(*old(expr)), ski_opt_nodes(*final(expr))),
        pos <= r.1 <= draw_commands@.len(),
        ski_opt_nodes(*final(expr)).len() <= ski_opt_nodes(*old(expr)).len() + 14 * (r.1 - pos),
        id_index(r.0) < ski_opt_nodes(*final(expr)).len(),
        spec_build_exp(draw_commands@, pos as int, term_of(ski_opt_nodes(*old(expr)), id_index(dst) as int), in_layer)
            == Some((term_of(ski_opt_nodes(*final(expr)), id_index(r.0) as int), r.1 as int)),
    decreases draw_commands@.len() - pos,
{
    let ghost e0 = ski_opt_nodes(*expr);
    if pos >= draw_commands.len() {
        proof {
            assert(e0.subrange(0, e0.len() as int) =~= e0);
        }
        return (dst, pos);
    }
    match &draw_commands[pos] {
        SkDrawCommand::DrawRect { coords, paint, visible: _ } => {
            let draw_rect = add_rect(coords, paint, expr);
            let ghost e1 = ski_opt_nodes(*expr);
            let n = add_ski_opt_node(expr, SkiLang::SrcOver([dst, draw_rect]));
            proof {
                lemma_extends_trans(e0, e1, ski_opt_nodes(*expr));
                lemma_extends_terms(e0, ski_opt_nodes(*expr));
                lemma_extends_terms(e1, ski_opt_nodes(*expr));
                lemma_src_over_term(ski_opt_nodes(*expr), id_index(n) as int, dst, draw_rect);
            }
            let ghost e2 = ski_opt_nodes(*expr);
            let r = build_exp(draw_commands, pos + 1, n, in_layer, expr);
            proof {
                lemma_extends_trans(e0, e2, ski_opt_nodes(*expr));
            }
            r
        },
        SkDrawCommand::SaveLayer { paint: _, visible: _ } => {
            let new_layer_dst = add_ski_opt_node(expr, SkiLang::Blank);
            let ghost e1 = ski_opt_nodes(*expr);
            proof {
                lemma_extends_terms(e0, e1);
                assert(term_of(e1, id_index(new_layer_dst) as int) == SkiTerm::Blank);
            }
            let (new_layer_id, next) = build_exp(draw_commands, pos + 1, new_layer_dst, true, expr);
            let ghost e2 = ski_opt_nodes(*expr);
            let n = add_ski_opt_node(expr, SkiLang::SrcOver([dst, new_layer_id]));
            proof {
                lemma_extends_trans(e0, e1, e2);
                lemma_extends_trans(e0, e2, ski_opt_nodes(*expr));
                lemma_extends_terms(e0, ski_opt_nodes(*expr));
                lemma_extends_terms(e2, ski_opt_nodes(*expr));
                lemma_src_over_term(ski_opt_nodes(*expr), id_index(n) as int, dst, new_layer_id);
            }
            let ghost e3 = ski_opt_nodes(*expr);
            let r = build_exp(draw_commands, next, n, in_layer, expr);
            proof {
                lemma_extends_trans(e0, e3, ski_opt_nodes(*expr));
            }
            r
        },
        SkDrawCommand::Restore { visible: _ } => {
            proof {
                assert(e0.subrange(0, e0.len() as int) =~= e0);
            }
            if in_layer {
                (dst, pos + 1)
            } else {
                build_exp(draw_commands, pos + 1, dst, false, expr)
            }
        },
    }
}

/// Adds the nodes of a rectangle and returns the position of its
/// `drawRect` node.
fn add_rect(coords: &Vec<i32>, paint: &SkPaint, expr: &mut egg::RecExpr<SkiLang>) -> (r: egg::Id)
    requires
        ski_opt_wf(*old(expr)),
        coords@.len() >= 4,
        paint.color@.len() >= 4,
        ski_opt_nodes(*old(expr)).len() + 13 <= u32::MAX,
    ensures
        ski_opt_wf(*final(expr)),
        ski_opt_nodes(*final(expr)).len() == ski_opt_nodes(*old(expr)).len() + 13,
        extends(ski_opt_nodes(*old(expr)), ski_opt_nodes(*final(expr))),
        id_index(r) < ski_opt_nodes(*final(expr)).len(),
        term_of(ski_opt_nodes(*final(expr)), id_index(r) as int) == rect_term(coords@, paint.color@),
{
    let ghost e0 = ski_opt_nodes(*expr);
    let l = add_ski_opt_node(expr, SkiLang::Num(coords[0]));
    let t = add_ski_opt_node(expr, SkiLang::Num(coords[1]));
    let r = add_ski_opt_node(expr, SkiLang::Num(coords[2]));
    let b = add_ski_opt_node(expr, SkiLang::Num(coords[3]));
    let ca = add_ski_opt_node(expr, SkiLang::Num(paint.color[0] as i32));
    let cr = add_ski_opt_node(expr, SkiLang::Num(paint.color[1] as i32));
    let cg = add_ski_opt_node(expr, SkiLang::Num(paint.color[2] as i32));
    let cb = add_ski_opt_node(expr, SkiLang::Num(paint.color[3] as i32));
    let top_point = add_ski_opt_node(expr, SkiLang::Point([l, t]));
    let bot_point = add_ski_opt_node(expr, SkiLang::Point([r, b]));
    let color = add_ski_opt_node(expr, SkiLang::Color([ca, cr, cg, cb]));
    let paint_id = add_ski_opt_node(expr, SkiLang::Paint([color]));
    let draw_rect = add_ski_opt_node(expr, SkiLang::DrawRect([top_point, bot_point, paint_id]));
    proof {
        let s = ski_opt_nodes(*expr);
        assert(s.subrange(0, e0.len() as int) =~= e0);
        assert(term_of(s, id_index(l) as int) == SkiTerm::Num(coords@[0]));
        assert(term_of(s, id_index(t) as int) == SkiTerm::Num(coords@[1]));
        assert(term_of(s, id_index(r) as int) == SkiTerm::Num(coords@[2]));
        assert(term_of(s, id_index(b) as int) == SkiTerm::Num(coords@[3]));
        assert(term_of(s, id_index(ca) as int) == SkiTerm::Num(paint.color@[0] as i32));
        assert(term_of(s, id_index(cr) as int) == SkiTerm::Num(paint.color@[1] as i32));
        assert(term_of(s, id_index(cg) as int) == SkiTerm::Num(paint.color@[2] as i32));
        assert(term_of(s, id_index(cb) as int) == SkiTerm::Num(paint.color@[3] as i32));
        assert(operand_term(s, id_index(top_point) as int, l) == bx(term_of(s, id_index(l) as int)));
        assert(operand_term(s, id_index(top_point) as int, t) == bx(term_of(s, id_index(t) as int)));
        assert(operand_term(s, id_index(bot_point) as int, r) == bx(term_of(s, id_index(r) as int)));
        assert(operand_term(s, id_index(bot_point) as int, b) == bx(term_of(s, id_index(b) as int)));
        assert(operand_term(s, id_index(color) as int, ca) == bx(term_of(s, id_index(ca) as int)));
        assert(operand_term(s, id_index(color) as int, cr) == bx(term_of(s, id_index(cr) as int)));
        assert(operand_term(s, id_index(color) as int, cg) == bx(term_of(s, id_index(cg) as int)));
        assert(operand_term(s, id_index(color) as int, cb) == bx(term_of(s, id_index(cb) as int)));
        assert(operand_term(s, id_index(paint_id) as int, color) == bx(term_of(s, id_index(color) as int)));
        assert(operand_term(s, id_index(draw_rect) as int, top_point) == bx(term_of(s, id_index(top_point) as int)));
        assert(operand_term(s, id_index(draw_rect) as int, bot_point) == bx(term_of(s, id_index(bot_point) as int)));
        assert(operand_term(s, id_index(draw_rect) as int, paint_id) == bx(term_of(s, id_index(paint_id) as int)));
        assert(term_of(s, id_index(top_point) as int) == SkiTerm::Point(bx(SkiTerm::Num(coords@[0])), bx(SkiTerm::Num(coords@[1]))));
        assert(term_of(s, id_index(bot_point) as int) == SkiTerm::Point(bx(SkiTerm::Num(coords@[2])), bx(SkiTerm::Num(coords@[3]))));
        assert(term_of(s, id_index(color) as int) == SkiTerm::Color(
            bx(SkiTerm::Num(paint.color@[0] as i32)),
            bx(SkiTerm::Num(paint.color@[1] as i32)),
            bx(SkiTerm::Num(paint.color@[2] as i32)),
            bx(SkiTerm::Num(paint.color@[3] as i32)),
        ));
    }
    draw_rect
}

/// SkiOpt's SkiLang as a language of the e-graph library: `matches`
/// compares the operators and the numbers of two nodes, not their
/// operands, and `children` gives the ids of the operands.
/// Two nodes have the same operator, and numbers the same value; their
/// operands are not compared.
pub open spec fn same_operator(a: SkiLang, b: SkiLang) -> bool {
    match (a, b) {
        (SkiLang::Num(x), SkiLang::Num(y)) => x == y,
        (SkiLang::Point(_), SkiLang::Point(_)) => true,
        (SkiLang::Dim(_), SkiLang::Dim(_)) => true,
        (SkiLang::Color(_), SkiLang::Color(_)) => true,
        (SkiLang::Paint(_), SkiLang::Paint(_)) => true,
        (SkiLang::Blank, SkiLang::Blank) => true,
        (SkiLang::SrcOver(_), SkiLang::SrcOver(_)) => true,
        (SkiLang::DrawRect(_), SkiLang::DrawRect(_)) => true,
        _ => false,
    }
}

impl egg::Language for SkiLang {
    fn matches(&self, other: &Self) -> (b: bool)
        ensures
            b == same_operator(*self, *other),
    {
        match (self, other) {
            (SkiLang::Num(a), SkiLang::Num(b)) => a == b,
            (SkiLang::Point(_), SkiLang::Point(_)) => true,
            (SkiLang::Dim(_), SkiLang::Dim(_)) => true,
            (SkiLang::Color(_), SkiLang::Color(_)) => true,
            (SkiLang::Paint(_), SkiLang::Paint(_)) => true,
            (SkiLang::Blank, SkiLang::Blank) => true,
            (SkiLang::SrcOver(_), SkiLang::SrcOver(_)) => true,
            (SkiLang::DrawRect(_), SkiLang::DrawRect(_)) => true,
            _ => false,
        }
    }

    fn children(&self) -> (ids: &[egg::Id])
        ensures
            ids@ == children(*self),
    {
        match self {
            SkiLang::Point(i) => i,
            SkiLang::Dim(i) => i,
            SkiLang::Color(i) => i,
            SkiLang::Paint(i) => i,
            SkiLang::SrcOver(i) => i,
            SkiLang::DrawRect(i) => i,
            _ => &[],
        }
    }

    fn children_mut(&mut self) -> (ids: &mut [egg::Id])
        ensures
            ids@ == children(*old(self)),
            same_operator(*old(self), *final(self)),
            children(*final(self)) == final(ids)@,
    {
        match self {
            SkiLang::Point(i) => i,
            SkiLang::Dim(i) => i,
            SkiLang::Color(i) => i,
            SkiLang::Paint(i) => i,
            SkiLang::SrcOver(i) => i,
            SkiLang::DrawRect(i) => i,
            _ => &mut [],
        }
    }
}

} // verus!
