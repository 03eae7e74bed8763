//! Pictures of rectangles, and the writing of a SkiOpt expression back
//! into draw commands.
//!
//! A rectangle is drawn as it is. A source-over composition draws its
//! destination, then its source; a source that is itself a composition (a
//! surface of its own) is drawn inside a `saveLayer` and a `restore`.
#![allow(non_snake_case)]

use vstd::prelude::*;

use crate::egg_expr::id_index;

use super::ski_lang::{
    bx, children, children_before, get_ski_opt_node, operand_term, rect_term, ski_opt_nodes, ski_opt_term, ski_opt_wf,
    spec_build_exp, spec_parse_skp, term_of, SkiLang, SkiTerm,
};

verus! {

/// A paint: its ARGB color, each channel 0-255.
#[derive(Debug, Clone)]
pub struct SkPaint {
    pub color: Vec<u8>,
}

/// A draw command of a picture.
#[derive(Debug, Clone)]
#[allow(inconsistent_fields)]
pub enum SkDrawCommand {
    DrawRect { coords: Vec<i32>, paint: SkPaint, visible: bool },
    SaveLayer { paint: Option<SkPaint>, visible: bool },
    Restore { visible: bool },
}

/// A draw command, its lists taken by their elements.
pub ghost enum DrawCommandView {
    DrawRect { coords: Seq<i32>, color: Seq<u8>, visible: bool },
    SaveLayer { paint: Option<Seq<u8>>, visible: bool },
    Restore { visible: bool },
}

impl View for SkDrawCommand {
    type V = DrawCommandView;

    open spec fn view(&self) -> DrawCommandView {
        match self {
            SkDrawCommand::DrawRect { coords, paint, visible } => DrawCommandView::DrawRect {
                coords: coords@,
                color: paint.color@,
                visible: *visible,
            },
            SkDrawCommand::SaveLayer { paint, visible } => DrawCommandView::SaveLayer {
                paint: match paint {
                    Some(p) => Some(p.color@),
                    None => None,
                },
                visible: *visible,
            },
            SkDrawCommand::Restore { visible } => DrawCommandView::Restore { visible: *visible },
        }
    }
}

/// The views of a list of draw commands.
pub open spec fn commands_view(s: Seq<SkDrawCommand>) -> Seq<DrawCommandView> {
    s.map_values(|c: SkDrawCommand| c@)
}

/// Whether a picture is a single drawing (`Abstract`) or a surface of its
/// own (`Allocated`).
#[derive(Debug, Clone, Copy, PartialEq, Eq, Structural)]
pub enum SurfaceType {
    Abstract,
    Allocated,
}

/// A picture: its draw commands, and what kind of surface they draw.
#[derive(Debug)]
pub struct SkPicture {
    pub drawCommands: Vec<SkDrawCommand>,
    pub surfaceType: Option<SurfaceType>,
}

/// The coordinates of a point term.
pub open spec fn point_of(t: SkiTerm) -> Option<(i32, i32)> {
    match t {
        SkiTerm::Point(x, y) => match (*x, *y) {
            (SkiTerm::Num(a), SkiTerm::Num(b)) => Some((a, b)),
            _ => None,
        },
        _ => None,
    }
}

/// The ARGB channels of a paint term, each truncated to a byte.
pub open spec fn paint_color_of(t: SkiTerm) -> Option<Seq<u8>> {
    match t {
        SkiTerm::Paint(c) => match *c {
            SkiTerm::Color(a, r, g, b) => match (*a, *r, *g, *b) {
                (SkiTerm::Num(a), SkiTerm::Num(r), SkiTerm::Num(g), SkiTerm::Num(b)) => Some(
                    seq![a as u8, r as u8, g as u8, b as u8],
                ),
                _ => None,
            },
            _ => None,
        },
        _ => None,
    }
}

pub open spec fn save_layer_view() -> DrawCommandView {
    DrawCommandView::SaveLayer { paint: None, visible: true }
}

pub open spec fn restore_view() -> DrawCommandView {
    DrawCommandView::Restore { visible: true }
}

/// The draw commands of a term and the kind of surface they draw; `None`
/// for a term that is not a composition of rectangles.
pub open spec fn spec_picture(t: SkiTerm) -> Option<(Seq<DrawCommandView>, SurfaceType)>
    decreases t,
{
    match t {
        SkiTerm::DrawRect(p1, p2, paint) => match (point_of(*p1), point_of(*p2), paint_color_of(*paint)) {
            (Some(tl), Some(br), Some(color)) => Some(
                (
                    seq![DrawCommandView::DrawRect { coords: seq![tl.0, tl.1, br.0, br.1], color, visible: true }],
                    SurfaceType::Abstract,
                ),
            ),
            _ => None,
        },
        SkiTerm::SrcOver(dst, src) => match (spec_picture(*dst), spec_picture(*src)) {
            (Some(d), Some(s)) => Some(
                (
                    if s.1 == SurfaceType::Allocated {
                        d.0 + seq![save_layer_view()] + s.0 + seq![restore_view()]
                    } else {
                        d.0 + s.0
                    },
                    SurfaceType::Allocated,
                ),
            ),
            _ => None,
        },
        SkiTerm::Blank => Some((seq![], SurfaceType::Allocated)),
        _ => None,
    }
}

/// The picture of the term at `id` of a composition of rectangles.
pub fn generate_skpicture(expr: &egg::RecExpr<SkiLang>, id: egg::Id) -> (p: SkPicture)
    requires
        ski_opt_wf(*expr),
        id_index(id) < ski_opt_nodes(*expr).len(),
        spec_picture(ski_opt_term(*expr, id)) is Some,
    ensures
        spec_picture(ski_opt_term(*expr, id)) matches Some(v)
            && commands_view(p.drawCommands@) == v.0 && p.surfaceType == Some(v.1),
{
    match try_generate_skpicture(expr, id) {
        Some(p) => p,
        None => {
            assert(false);
            SkPicture { drawCommands: Vec::new(), surfaceType: None }
        },
    }
}

/// The picture of the term at `id`, or `None` where it is not a
/// composition of rectangles.
pub fn try_generate_skpicture(expr: &egg::RecExpr<SkiLang>, id: egg::Id) -> (r: Option<SkPicture>)
    requires
        ski_opt_wf(*expr),
        id_index(id) < ski_opt_nodes(*expr).len(),
    ensures
        r is Some <==> spec_picture(ski_opt_term(*expr, id)) is Some,
        r matches Some(p) ==> (spec_picture(ski_opt_term(*expr, id)) matches Some(v)
            && commands_view(p.drawCommands@) == v.0 && p.surfaceType == Some(v.1)),
    decreases id_index(id),
{
    let ghost s = ski_opt_nodes(*expr);
    let node = get_ski_opt_node(expr, id);
    assert(children_before(s[id_index(id) as int], id_index(id) as int));
    match node {
        SkiLang::DrawRect(ids) => {
            assert(children(*node)[0] == ids[0] && children(*node)[1] == ids[1] && children(*node)[2] == ids[2]);
            assert(operand_term(s, id_index(id) as int, ids[0]) == Box::new(term_of(s, id_index(ids[0]) as int)));
            assert(operand_term(s, id_index(id) as int, ids[1]) == Box::new(term_of(s, id_index(ids[1]) as int)));
            assert(operand_term(s, id_index(id) as int, ids[2]) == Box::new(term_of(s, id_index(ids[2]) as int)));
            let top_left = get_point(expr, ids[0]);
            let bot_rght = get_point(expr, ids[1]);
            let paint = get_paint(expr, ids[2]);
            match (top_left, bot_rght, paint) {
                (Some(top_left), Some(bot_rght), Some(paint)) => {
                    let mut drawCommands: Vec<SkDrawCommand> = Vec::new();
                    let coords = vec![top_left.0, top_left.1, bot_rght.0, bot_rght.1];
                    drawCommands.push(SkDrawCommand::DrawRect { coords, paint, visible: true });
                    proof {
                        assert(coords@ =~= seq![top_left.0, top_left.1, bot_rght.0, bot_rght.1]);
                        assert(commands_view(drawCommands@) =~= seq![DrawCommandView::DrawRect { coords: coords@, color: paint.color@, visible: true }]);
                    }
                    Some(SkPicture { drawCommands, surfaceType: Some(SurfaceType::Abstract) })
                },
                _ => None,
            }
        },
        SkiLang::SrcOver(ids) => {
            assert(children(*node)[0] == ids[0] && children(*node)[1] == ids[1]);
            assert(operand_term(s, id_index(id) as int, ids[0]) == Box::new(term_of(s, id_index(ids[0]) as int)));
            assert(operand_term(s, id_index(id) as int, ids[1]) == Box::new(term_of(s, id_index(ids[1]) as int)));
            let dst = try_generate_skpicture(expr, ids[0]);
            let src = try_generate_skpicture(expr, ids[1]);
            match (dst, src) {
                (Some(mut dst), Some(mut src)) => {
                    let ghost dv = commands_view(dst.drawCommands@);
                    let ghost sv = commands_view(src.drawCommands@);
                    let mut drawCommands: Vec<SkDrawCommand> = Vec::new();
                    match src.surfaceType {
                        Some(SurfaceType::Allocated) => {
                            drawCommands.append(&mut dst.drawCommands);
                            drawCommands.push(SkDrawCommand::SaveLayer { paint: None, visible: true });
                            drawCommands.append(&mut src.drawCommands);
                            drawCommands.push(SkDrawCommand::Restore { visible: true });
                            proof {
                                assert(commands_view(drawCommands@) =~= dv + seq![save_layer_view()] + sv + seq![restore_view()]);
                            }
                        },
                        Some(SurfaceType::Abstract) => {
                            drawCommands.append(&mut dst.drawCommands);
                            drawCommands.append(&mut src.drawCommands);
                            proof {
                                assert(commands_view(drawCommands@) =~= dv + sv);
                            }
                        },
                        None => {},
                    }
                    Some(SkPicture { drawCommands, surfaceType: Some(SurfaceType::Allocated) })
                },
                _ => None,
            }
        },
        SkiLang::Blank => {
            let drawCommands: Vec<SkDrawCommand> = Vec::new();
            proof {
                assert(commands_view(drawCommands@) =~= Seq::<DrawCommandView>::empty());
            }
            Some(SkPicture { drawCommands, surfaceType: Some(SurfaceType::Allocated) })
        },
        _ => None,
    }
}

/// The value of a number node.
fn get_num(skilang_expr: &egg::RecExpr<SkiLang>, id: egg::Id) -> (r: Option<i32>)
    requires
        ski_opt_wf(*skilang_expr),
        id_index(id) < ski_opt_nodes(*skilang_expr).len(),
    ensures
        r == (match ski_opt_term(*skilang_expr, id) {
            SkiTerm::Num(v) => Some(v),
            _ => None,
        }),
{
    match get_ski_opt_node(skilang_expr, id) {
        SkiLang::Num(val) => Some(*val),
        _ => None,
    }
}

/// The coordinates of a point node.
fn get_point(expr: &egg::RecExpr<SkiLang>, id: egg::Id) -> (r: Option<(i32, i32)>)
    requires
        ski_opt_wf(*expr),
        id_index(id) < ski_opt_nodes(*expr).len(),
    ensures
        r == point_of(ski_opt_term(*expr, id)),
{
    let ghost s = ski_opt_nodes(*expr);
    assert(children_before(s[id_index(id) as int], id_index(id) as int));
    match get_ski_opt_node(expr, id) {
        SkiLang::Point(ids) => {
            assert(children(s[id_index(id) as int])[0] == ids[0] && children(s[id_index(id) as int])[1] == ids[1]);
            assert(operand_term(s, id_index(id) as int, ids[0]) == Box::new(term_of(s, id_index(ids[0]) as int)));
            assert(operand_term(s, id_index(id) as int, ids[1]) == Box::new(term_of(s, id_index(ids[1]) as int)));
            match (get_num(expr, ids[0]), get_num(expr, ids[1])) {
                (Some(x), Some(y)) => Some((x, y)),
                _ => None,
            }
        },
        _ => None,
    }
}

/// The channels of a color node, each truncated to a byte.
fn get_color(expr: &egg::RecExpr<SkiLang>, id: egg::Id) -> (r: Option<Vec<u8>>)
    requires
        ski_opt_wf(*expr),
        id_index(id) < ski_opt_nodes(*expr).len(),
    ensures
        r is Some <==> paint_color_of(SkiTerm::Paint(Box::new(ski_opt_term(*expr, id)))) is Some,
        r matches Some(v) ==> Some(v@) == paint_color_of(SkiTerm::Paint(Box::new(ski_opt_term(*expr, id)))),
{
    let ghost s = ski_opt_nodes(*expr);
    assert(children_before(s[id_index(id) as int], id_index(id) as int));
    match get_ski_opt_node(expr, id) {
        SkiLang::Color(ids) => {
            assert(children(s[id_index(id) as int])[0] == ids[0] && children(s[id_index(id) as int])[1] == ids[1]);
            assert(children(s[id_index(id) as int])[2] == ids[2] && children(s[id_index(id) as int])[3] == ids[3]);
            assert(operand_term(s, id_index(id) as int, ids[0]) == Box::new(term_of(s, id_index(ids[0]) as int)));
            assert(operand_term(s, id_index(id) as int, ids[1]) == Box::new(term_of(s, id_index(ids[1]) as int)));
            assert(operand_term(s, id_index(id) as int, ids[2]) == Box::new(term_of(s, id_index(ids[2]) as int)));
            assert(operand_term(s, id_index(id) as int, ids[3]) == Box::new(term_of(s, id_index(ids[3]) as int)));
            match (get_num(expr, ids[0]), get_num(expr, ids[1]), get_num(expr, ids[2]), get_num(expr, ids[3])) {
                (Some(a), Some(r), Some(g), Some(b)) => {
                    let v = vec![a as u8, r as u8, g as u8, b as u8];
                    assert(v@ =~= seq![a as u8, r as u8, g as u8, b as u8]);
                    Some(v)
                },
                _ => None,
            }
        },
        _ => None,
    }
}

/// The paint of a paint node.
fn get_paint(expr: &egg::RecExpr<SkiLang>, id: egg::Id) -> (r: Option<SkPaint>)
    requires
        ski_opt_wf(*expr),
        id_index(id) < ski_opt_nodes(*expr).len(),
    ensures
        r is Some <==> paint_color_of(ski_opt_term(*expr, id)) is Some,
        r matches Some(p) ==> Some(p.color@) == paint_color_of(ski_opt_term(*expr, id)),
{
    let ghost s = ski_opt_nodes(*expr);
    assert(children_before(s[id_index(id) as int], id_index(id) as int));
    match get_ski_opt_node(expr, id) {
        SkiLang::Paint(ids) => {
            assert(children(s[id_index(id) as int])[0] == ids[0]);
            assert(operand_term(s, id_index(id) as int, ids[0]) == Box::new(term_of(s, id_index(ids[0]) as int)));
            match get_color(expr, ids[0]) {
                Some(color) => Some(SkPaint { color }),
                None => None,
            }
        },
        _ => None,
    }
}


/// A visible rectangle with exactly four coordinates and four channels.
pub open spec fn plain_rect(c: SkDrawCommand) -> bool {
    c matches SkDrawCommand::DrawRect { coords, paint, visible } && coords@.len() == 4
        && paint.color@.len() == 4 && visible
}

proof fn lemma_rects_from(cmds: Seq<SkDrawCommand>, pos: int, dst: SkiTerm, v: Seq<DrawCommandView>)
    requires
        0 <= pos <= cmds.len(),
        forall|k: int| pos <= k < cmds.len() ==> plain_rect(#[trigger] cmds[k]),
        spec_picture(dst) == Some((v, SurfaceType::Allocated)),
    ensures
        spec_build_exp(cmds, pos, dst, false) matches Some((t, _)) && spec_picture(t) == Some(
            (v + commands_view(cmds).skip(pos), SurfaceType::Allocated),
        ),
    decreases cmds.len() - pos,
{
    if pos == cmds.len() {
        assert(commands_view(cmds).skip(pos) =~= Seq::<DrawCommandView>::empty());
        assert(v + commands_view(cmds).skip(pos) =~= v);
    } else {
        assert(plain_rect(cmds[pos]));
        match cmds[pos] {
            SkDrawCommand::DrawRect { coords, paint, visible } => {
                let c = coords@;
                let col = paint.color@;
                let r = rect_term(c, col);
                let rv = DrawCommandView::DrawRect { coords: c, color: col, visible: true };
                assert(seq![c[0], c[1], c[2], c[3]] =~= c);
                assert(seq![col[0] as i32 as u8, col[1] as i32 as u8, col[2] as i32 as u8, col[3] as i32 as u8] =~= col);
                assert(spec_picture(r) == Some((seq![rv], SurfaceType::Abstract)));
                let nd = SkiTerm::SrcOver(bx(dst), bx(r));
                assert(spec_picture(nd) == Some((v + seq![rv], SurfaceType::Allocated)));
                lemma_rects_from(cmds, pos + 1, nd, v + seq![rv]);
                assert(commands_view(cmds)[pos] == rv);
                assert(commands_view(cmds).skip(pos) =~= seq![rv] + commands_view(cmds).skip(pos + 1));
                assert(v + seq![rv] + commands_view(cmds).skip(pos + 1) =~= v + commands_view(cmds).skip(pos));
            },
            _ => {},
        }
    }
}

/// A list of plain rectangles, turned into SkiLang and written back, gives
/// the same draw commands.
pub proof fn lemma_rects_round_trip(cmds: Seq<SkDrawCommand>)
    requires
        forall|k: int| 0 <= k < cmds.len() ==> plain_rect(#[trigger] cmds[k]),
    ensures
        spec_parse_skp(cmds) matches Some(t) && spec_picture(t) matches Some(p) && p.0 == commands_view(cmds),
{
    assert(spec_picture(SkiTerm::Blank) == Some((Seq::<DrawCommandView>::empty(), SurfaceType::Allocated)));
    lemma_rects_from(cmds, 0, SkiTerm::Blank, Seq::empty());
    assert(Seq::<DrawCommandView>::empty() + commands_view(cmds).skip(0) =~= commands_view(cmds));
}

} // verus!
