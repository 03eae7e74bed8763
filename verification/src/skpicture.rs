//! Pictures as lists of draw commands, and the writing of a picture
//! expression back into draw commands.
//!
//! A picture expression is made of draw commands, clips by a bounding box,
//! source-over compositions and blank surfaces. A draw command is drawn as
//! it is; a clip is drawn before what it clips, which then changes the
//! canvas state; a composition draws its destination, then its source. A
//! part that changes the state is wrapped in `save` and `restore`, and a
//! source that is a surface of its own in `saveLayer` and `restore`.
//! Coordinates are the bit patterns of 32-bit floats.
#![allow(non_snake_case)]

use vstd::prelude::*;

use crate::egg_expr::id_index;

verus! {

/// A paint: its ARGB color, each channel 0-255.
#[derive(Debug, Clone, PartialEq, Eq, PartialOrd, Ord, Hash)]
pub struct SkPaint {
    pub color: Vec<u8>,
}

/// The color of a paint that gives none: opaque black.
pub fn default_color() -> (color: Vec<u8>)
    ensures
        color@ == seq![255u8, 0u8, 0u8, 0u8],
{
    let color = vec![255, 0, 0, 0];
    assert(color@ =~= seq![255u8, 0u8, 0u8, 0u8]);
    color
}

/// A bounding box; each side is the bit pattern of a 32-bit float.
#[derive(Debug, Clone, Copy, PartialEq, Eq, Structural, PartialOrd, Ord, Hash)]
pub struct SkBBox {
    pub l: u32,
    pub t: u32,
    pub r: u32,
    pub b: u32,
}

/// A draw command of a picture; coordinates are the bit patterns of
/// 32-bit floats.
#[derive(Debug, Clone, PartialEq, Eq, PartialOrd, Ord, Hash)]
#[allow(inconsistent_fields)]
pub enum SkDrawCommand {
    DrawRect { coords: Vec<u32>, paint: SkPaint, visible: bool },
    DrawOval { coords: Vec<u32>, paint: SkPaint, visible: bool },
    ClipRect { coords: Vec<u32>, visible: bool },
    Save { visible: bool },
    SaveLayer { paint: Option<SkPaint>, visible: bool },
    Restore { visible: bool },
}

/// A draw command, its lists taken by their elements.
pub ghost enum DrawCommandView {
    DrawRect { coords: Seq<u32>, color: Seq<u8>, visible: bool },
    DrawOval { coords: Seq<u32>, color: Seq<u8>, visible: bool },
    ClipRect { coords: Seq<u32>, visible: bool },
    Save { visible: bool },
    SaveLayer { paint: Option<Seq<u8>>, visible: bool },
    Restore { visible: bool },
}

impl View for SkDrawCommand {
    type V = DrawCommandView;

    open spec fn view(&self) -> DrawCommandView {
        match self {
            SkDrawCommand::DrawRect { coords, paint, visible } => DrawCommandView::DrawRect {
                coords: coords@,
                color: paint.color@,
                visible: *visible,
            },
            SkDrawCommand::DrawOval { coords, paint, visible } => DrawCommandView::DrawOval {
                coords: coords@,
                color: paint.color@,
                visible: *visible,
            },
            SkDrawCommand::ClipRect { coords, visible } => DrawCommandView::ClipRect {
                coords: coords@,
                visible: *visible,
            },
            SkDrawCommand::Save { visible } => DrawCommandView::Save { visible: *visible },
            SkDrawCommand::SaveLayer { paint, visible } => DrawCommandView::SaveLayer {
                paint: match paint {
                    Some(p) => Some(p.color@),
                    None => None,
                },
                visible: *visible,
            },
            SkDrawCommand::Restore { visible } => DrawCommandView::Restore { visible: *visible },
        }
    }
}

/// The views of a list of draw commands.
pub open spec fn commands_view(s: Seq<SkDrawCommand>) -> Seq<DrawCommandView> {
    s.map_values(|c: SkDrawCommand| c@)
}

/// Whether the commands of a picture draw without touching the canvas
/// state (`Abstract`), draw under a state of their own
/// (`AbstractWithState`), or make a surface of their own (`Allocated`).
#[derive(Debug, Clone, Copy, PartialEq, Eq, Structural)]
pub enum SurfaceType {
    Abstract,
    AbstractWithState,
    Allocated,
}

/// A picture: its draw commands, and what kind of surface they draw.
#[derive(Debug)]
pub struct SkPicture {
    pub drawCommands: Vec<SkDrawCommand>,
    pub surfaceType: Option<SurfaceType>,
}

/// A node of a picture expression. Operators name their operands by id.
#[derive(Debug, Clone, PartialEq, Eq, PartialOrd, Ord, Hash)]
pub enum PictureSkiLang {
    DrawCommand(SkDrawCommand),
    BBox(SkBBox),
    /// surface, bounding box
    ClipRect([egg::Id; 2]),
    /// dst, src
    SrcOver([egg::Id; 2]),
    Blank,
}

/// The operands of a node, in order.
pub open spec fn children(n: PictureSkiLang) -> Seq<egg::Id> {
    match n {
        PictureSkiLang::ClipRect(ids) => seq![ids[0], ids[1]],
        PictureSkiLang::SrcOver(ids) => seq![ids[0], ids[1]],
        _ => seq![],
    }
}

/// Every operand of `n` comes before position `pos`.
pub open spec fn children_before(n: PictureSkiLang, pos: int) -> bool {
    forall|k: int| 0 <= k < children(n).len() ==> id_index(#[trigger] children(n)[k]) < pos
}

/// Every node names only nodes that come before it.
pub open spec fn wf_nodes(s: Seq<PictureSkiLang>) -> bool {
    forall|i: int| 0 <= i < s.len() ==> children_before(#[trigger] s[i], i)
}

/// The terms of picture expressions.
pub ghost enum PictureTerm {
    DrawCommand(DrawCommandView),
    BBox(SkBBox),
    ClipRect(Box<PictureTerm>, Box<PictureTerm>),
    SrcOver(Box<PictureTerm>, Box<PictureTerm>),
    Blank,
}

/// The term of the operand at `c` of the node at `id`.
pub open spec fn operand_term(s: Seq<PictureSkiLang>, id: int, c: egg::Id) -> Box<PictureTerm>
    decreases id, 0int,
{
    if (id_index(c) as int) < id {
        Box::new(term_of(s, id_index(c) as int))
    } else {
        Box::new(PictureTerm::Blank)
    }
}

/// The term that the node at `id` stands for.
pub open spec fn term_of(s: Seq<PictureSkiLang>, id: int) -> PictureTerm
    decreases id, 1int,
{
    if 0 <= id < s.len() {
        match s[id] {
            PictureSkiLang::DrawCommand(c) => PictureTerm::DrawCommand(c@),
            PictureSkiLang::BBox(b) => PictureTerm::BBox(b),
            PictureSkiLang::ClipRect(ids) => PictureTerm::ClipRect(operand_term(s, id, ids[0]), operand_term(s, id, ids[1])),
            PictureSkiLang::SrcOver(ids) => PictureTerm::SrcOver(operand_term(s, id, ids[0]), operand_term(s, id, ids[1])),
            PictureSkiLang::Blank => PictureTerm::Blank,
        }
    } else {
        PictureTerm::Blank
    }
}

/// `b` starts with the nodes of `a`.
pub open spec fn extends(a: Seq<PictureSkiLang>, b: Seq<PictureSkiLang>) -> bool {
    a.len() <= b.len() && b.subrange(0, a.len() as int) == a
}

/// Appending nodes leaves the term of every existing node unchanged.
pub proof fn lemma_term_of_prefix(s: Seq<PictureSkiLang>, t: Seq<PictureSkiLang>, id: int)
    requires
        extends(s, t),
        0 <= id < s.len(),
    ensures
        term_of(t, id) == term_of(s, id),
    decreases id,
{
    assert(t[id] == s[id]);
    match s[id] {
        PictureSkiLang::ClipRect(ids) => {
            if (id_index(ids[0]) as int) < id { lemma_term_of_prefix(s, t, id_index(ids[0]) as int); }
            if (id_index(ids[1]) as int) < id { lemma_term_of_prefix(s, t, id_index(ids[1]) as int); }
        },
        PictureSkiLang::SrcOver(ids) => {
            if (id_index(ids[0]) as int) < id { lemma_term_of_prefix(s, t, id_index(ids[0]) as int); }
            if (id_index(ids[1]) as int) < id { lemma_term_of_prefix(s, t, id_index(ids[1]) as int); }
        },
        _ => {},
    }
}

/// The nodes of a picture expression, in order.
pub uninterp spec fn picture_nodes(e: egg::RecExpr<PictureSkiLang>) -> Seq<PictureSkiLang>;

/// A picture expression whose nodes name only nodes that come before them.
pub open spec fn picture_wf(e: egg::RecExpr<PictureSkiLang>) -> bool {
    wf_nodes(picture_nodes(e))
}

/// The term of the node with id `id`.
pub open spec fn picture_term(e: egg::RecExpr<PictureSkiLang>, id: egg::Id) -> PictureTerm {
    term_of(picture_nodes(e), id_index(id) as int)
}

/// `RecExpr::default`: an expression with no nodes.
#[verifier::external_body]
fn rec_expr_default() -> (e: egg::RecExpr<PictureSkiLang>)
    ensures
        picture_nodes(e) == Seq::<PictureSkiLang>::empty(),
{
    egg::RecExpr::default()
}

/// `RecExpr::add`: appends a node, whose operands must already be in the
/// expression (`egg` asserts it in debug builds), and returns the id of
/// its position.
#[verifier::external_body]
fn rec_expr_add(e: &mut egg::RecExpr<PictureSkiLang>, node: PictureSkiLang) -> (id: egg::Id)
    requires
        children_before(node, picture_nodes(*old(e)).len() as int),
    ensures
        picture_nodes(*final(e)) == picture_nodes(*old(e)).push(node),
        picture_nodes(*old(e)).len() <= u32::MAX ==> id_index(id) == picture_nodes(*old(e)).len(),
{
    e.add(node)
}

/// Indexing by an id: the node at its position.
#[verifier::external_body]
fn rec_expr_index(e: &egg::RecExpr<PictureSkiLang>, id: egg::Id) -> (n: &PictureSkiLang)
    requires
        id_index(id) < picture_nodes(*e).len(),
    ensures
        *n == picture_nodes(*e)[id_index(id) as int],
{
    &e[id]
}

/// A picture expression with no nodes.
pub fn new_picture_expr() -> (e: egg::RecExpr<PictureSkiLang>)
    ensures
        picture_nodes(e) == Seq::<PictureSkiLang>::empty(),
        picture_wf(e),
{
    rec_expr_default()
}

/// Appends a node whose operands are already in the expression, and
/// returns its id.
pub fn add_picture_node(e: &mut egg::RecExpr<PictureSkiLang>, node: PictureSkiLang) -> (id: egg::Id)
    requires
        picture_wf(*old(e)),
        children_before(node, picture_nodes(*old(e)).len() as int),
        picture_nodes(*old(e)).len() < u32::MAX,
    ensures
        picture_nodes(*final(e)) == picture_nodes(*old(e)).push(node),
        extends(picture_nodes(*old(e)), picture_nodes(*final(e))),
        picture_wf(*final(e)),
        id_index(id) == picture_nodes(*old(e)).len(),
        forall|i: int|
            0 <= i < picture_nodes(*old(e)).len() ==> #[trigger] term_of(picture_nodes(*final(e)), i) == term_of(
                picture_nodes(*old(e)),
                i,
            ),
{
    let id = rec_expr_add(e, node);
    proof {
        let s = picture_nodes(*old(e));
        let t = picture_nodes(*e);
        assert(t.subrange(0, s.len() as int) =~= s);
        assert forall|i: int| 0 <= i < t.len() implies children_before(#[trigger] t[i], i) by {
            if i < s.len() {
                assert(t[i] == s[i]);
            }
        }
        assert forall|i: int| 0 <= i < s.len() implies #[trigger] term_of(t, i) == term_of(s, i) by {
            lemma_term_of_prefix(s, t, i);
        }
    }
    id
}

/// The node with id `id`.
pub fn get_picture_node(e: &egg::RecExpr<PictureSkiLang>, id: egg::Id) -> (n: &PictureSkiLang)
    requires
        id_index(id) < picture_nodes(*e).len(),
    ensures
        *n == picture_nodes(*e)[id_index(id) as int],
{
    rec_expr_index(e, id)
}

pub open spec fn save_view() -> DrawCommandView {
    DrawCommandView::Save { visible: true }
}

pub open spec fn save_layer_view() -> DrawCommandView {
    DrawCommandView::SaveLayer { paint: None, visible: true }
}

pub open spec fn restore_view() -> DrawCommandView {
    DrawCommandView::Restore { visible: true }
}

/// The commands of a part of a composition: wrapped in `save` and
/// `restore` where they draw under a state of their own, in `saveLayer`
/// and `restore` where they make a surface of their own and `layer` asks
/// for one.
pub open spec fn placed(p: (Seq<DrawCommandView>, SurfaceType), layer: bool) -> Seq<DrawCommandView> {
    match p.1 {
        SurfaceType::AbstractWithState => seq![save_view()] + p.0 + seq![restore_view()],
        SurfaceType::Allocated => if layer {
            seq![save_layer_view()] + p.0 + seq![restore_view()]
        } else {
            p.0
        },
        SurfaceType::Abstract => p.0,
    }
}

/// The draw commands of a term and the kind of surface they draw; `None`
/// for a term that is not a picture (a bounding box where a surface is
/// expected, or a clip by something other than a bounding box).
pub open spec fn spec_picture(t: PictureTerm) -> Option<(Seq<DrawCommandView>, SurfaceType)>
    decreases t,
{
    match t {
        PictureTerm::DrawCommand(c) => Some((seq![c], SurfaceType::Abstract)),
        PictureTerm::ClipRect(src, bbox) => match (spec_picture(*src), *bbox) {
            (Some(p), PictureTerm::BBox(b)) => Some(
                (
                    seq![DrawCommandView::ClipRect { coords: seq![b.l, b.t, b.r, b.b], visible: true }] + p.0,
                    SurfaceType::AbstractWithState,
                ),
            ),
            _ => None,
        },
        PictureTerm::SrcOver(dst, src) => match (spec_picture(*dst), spec_picture(*src)) {
            (Some(d), Some(s)) => Some((placed(d, false) + placed(s, true), SurfaceType::Allocated)),
            _ => None,
        },
        PictureTerm::Blank => Some((seq![], SurfaceType::Allocated)),
        _ => None,
    }
}

/// A copy of a draw command.
fn clone_command(c: &SkDrawCommand) -> (r: SkDrawCommand)
    ensures
        r@ == c@,
{
    match c {
        SkDrawCommand::DrawRect { coords, paint, visible } => {
            let coords2 = coords.clone();
            let color = paint.color.clone();
            assert(coords2@ =~= coords@);
            assert(color@ =~= paint.color@);
            SkDrawCommand::DrawRect { coords: coords2, paint: SkPaint { color }, visible: *visible }
        },
        SkDrawCommand::DrawOval { coords, paint, visible } => {
            let coords2 = coords.clone();
            let color = paint.color.clone();
            assert(coords2@ =~= coords@);
            assert(color@ =~= paint.color@);
            SkDrawCommand::DrawOval { coords: coords2, paint: SkPaint { color }, visible: *visible }
        },
        SkDrawCommand::ClipRect { coords, visible } => {
            let coords2 = coords.clone();
            assert(coords2@ =~= coords@);
            SkDrawCommand::ClipRect { coords: coords2, visible: *visible }
        },
        SkDrawCommand::Save { visible } => SkDrawCommand::Save { visible: *visible },
        SkDrawCommand::SaveLayer { paint, visible } => {
            let paint2 = match paint {
                Some(p) => {
                    let color = p.color.clone();
                    assert(color@ =~= p.color@);
                    Some(SkPaint { color })
                },
                None => None,
            };
            SkDrawCommand::SaveLayer { paint: paint2, visible: *visible }
        },
        SkDrawCommand::Restore { visible } => SkDrawCommand::Restore { visible: *visible },
    }
}

/// The bounding box at `id`, if it is one.
fn get_skbbox(skilang_expr: &egg::RecExpr<PictureSkiLang>, id: egg::Id) -> (r: Option<SkBBox>)
    requires
        id_index(id) < picture_nodes(*skilang_expr).len(),
    ensures
        r == (match picture_term(*skilang_expr, id) {
            PictureTerm::BBox(b) => Some(b),
            _ => None,
        }),
{
    match get_picture_node(skilang_expr, id) {
        PictureSkiLang::BBox(val) => Some(*val),
        _ => None,
    }
}

/// Appends the commands of `src`, placed as in a composition.
fn append_placed(commands: &mut Vec<SkDrawCommand>, src: SkPicture, layer: bool)
    requires
        src.surfaceType is Some,
    ensures
        commands_view(final(commands)@) == commands_view(old(commands)@) + placed(
            (commands_view(src.drawCommands@), src.surfaceType->0),
            layer,
        ),
{
    let ghost c0 = commands_view(commands@);
    let ghost sv = commands_view(src.drawCommands@);
    let mut src = src;
    match src.surfaceType {
        Some(SurfaceType::Allocated) => {
            if layer {
                commands.push(SkDrawCommand::SaveLayer { paint: None, visible: true });
                commands.append(&mut src.drawCommands);
                commands.push(SkDrawCommand::Restore { visible: true });
                assert(commands_view(commands@) =~= c0 + (seq![save_layer_view()] + sv + seq![restore_view()]));
            } else {
                commands.append(&mut src.drawCommands);
                assert(commands_view(commands@) =~= c0 + sv);
            }
        },
        Some(SurfaceType::AbstractWithState) => {
            commands.push(SkDrawCommand::Save { visible: true });
            commands.append(&mut src.drawCommands);
            commands.push(SkDrawCommand::Restore { visible: true });
            assert(commands_view(commands@) =~= c0 + (seq![save_view()] + sv + seq![restore_view()]));
        },
        Some(SurfaceType::Abstract) => {
            commands.append(&mut src.drawCommands);
            assert(commands_view(commands@) =~= c0 + sv);
        },
        None => {},
    }
}

/// The picture of the term at `id`, or `None` where it is not one.
pub fn try_generate_skpicture(expr: &egg::RecExpr<PictureSkiLang>, id: egg::Id) -> (r: Option<SkPicture>)
    requires
        picture_wf(*expr),
        id_index(id) < picture_nodes(*expr).len(),
    ensures
        r is Some <==> spec_picture(picture_term(*expr, id)) is Some,
        r matches Some(p) ==> (spec_picture(picture_term(*expr, id)) matches Some(v)
            && commands_view(p.drawCommands@) == v.0 && p.surfaceType == Some(v.1)),
    decreases id_index(id),
{
    let ghost s = picture_nodes(*expr);
    let node = get_picture_node(expr, id);
    assert(children_before(s[id_index(id) as int], id_index(id) as int));
    match node {
        PictureSkiLang::DrawCommand(sk_draw_command) => {
            let mut drawCommands: Vec<SkDrawCommand> = Vec::new();
            drawCommands.push(clone_command(sk_draw_command));
            assert(commands_view(drawCommands@) =~= seq![sk_draw_command@]);
            Some(SkPicture { drawCommands, surfaceType: Some(SurfaceType::Abstract) })
        },
        PictureSkiLang::ClipRect(ids) => {
            assert(children(*node)[0] == ids[0] && children(*node)[1] == ids[1]);
            assert(operand_term(s, id_index(id) as int, ids[0]) == Box::new(term_of(s, id_index(ids[0]) as int)));
            assert(operand_term(s, id_index(id) as int, ids[1]) == Box::new(term_of(s, id_index(ids[1]) as int)));
            match (try_generate_skpicture(expr, ids[0]), get_skbbox(expr, ids[1])) {
                (Some(mut src), Some(sk_bbox)) => {
                    let ghost sv = commands_view(src.drawCommands@);
                    let mut drawCommands: Vec<SkDrawCommand> = Vec::new();
                    let coords = vec![sk_bbox.l, sk_bbox.t, sk_bbox.r, sk_bbox.b];
                    assert(coords@ =~= seq![sk_bbox.l, sk_bbox.t, sk_bbox.r, sk_bbox.b]);
                    drawCommands.push(SkDrawCommand::ClipRect { coords, visible: true });
                    drawCommands.append(&mut src.drawCommands);
                    assert(commands_view(drawCommands@) =~= seq![
                        DrawCommandView::ClipRect { coords: seq![sk_bbox.l, sk_bbox.t, sk_bbox.r, sk_bbox.b], visible: true },
                    ] + sv);
                    Some(SkPicture { drawCommands, surfaceType: Some(SurfaceType::AbstractWithState) })
                },
                _ => None,
            }
        },
        PictureSkiLang::SrcOver(ids) => {
            assert(children(*node)[0] == ids[0] && children(*node)[1] == ids[1]);
            assert(operand_term(s, id_index(id) as int, ids[0]) == Box::new(term_of(s, id_index(ids[0]) as int)));
            assert(operand_term(s, id_index(id) as int, ids[1]) == Box::new(term_of(s, id_index(ids[1]) as int)));
            match (try_generate_skpicture(expr, ids[0]), try_generate_skpicture(expr, ids[1])) {
                (Some(dst), Some(src)) => {
                    let mut drawCommands: Vec<SkDrawCommand> = Vec::new();
                    assert(commands_view(drawCommands@) =~= Seq::<DrawCommandView>::empty());
                    append_placed(&mut drawCommands, dst, false);
                    append_placed(&mut drawCommands, src, true);
                    Some(SkPicture { drawCommands, surfaceType: Some(SurfaceType::Allocated) })
                },
                _ => None,
            }
        },
        PictureSkiLang::Blank => {
            let drawCommands: Vec<SkDrawCommand> = Vec::new();
            assert(commands_view(drawCommands@) =~= Seq::<DrawCommandView>::empty());
            Some(SkPicture { drawCommands, surfaceType: Some(SurfaceType::Allocated) })
        },
        PictureSkiLang::BBox(_) => None,
    }
}

/// The picture of the term at `id`, which must be one.
pub fn generate_skpicture(expr: &egg::RecExpr<PictureSkiLang>, id: egg::Id) -> (p: SkPicture)
    requires
        picture_wf(*expr),
        id_index(id) < picture_nodes(*expr).len(),
        spec_picture(picture_term(*expr, id)) is Some,
    ensures
        spec_picture(picture_term(*expr, id)) matches Some(v) && commands_view(p.drawCommands@) == v.0
            && p.surfaceType == Some(v.1),
{
    match try_generate_skpicture(expr, id) {
        Some(p) => p,
        None => {
            assert(false);
            SkPicture { drawCommands: Vec::new(), surfaceType: None }
        },
    }
}

/// How a command changes the number of saved canvas states: a `save` or
/// a `saveLayer` saves one, a `restore` restores one.
pub open spec fn nesting_step(c: DrawCommandView) -> int {
    match c {
        DrawCommandView::Save { .. } => 1,
        DrawCommandView::SaveLayer { .. } => 1,
        DrawCommandView::Restore { .. } => -1,
        _ => 0,
    }
}

/// The number of canvas states that a list of commands leaves saved.
pub open spec fn nesting(s: Seq<DrawCommandView>) -> int
    decreases s.len(),
{
    if s.len() == 0 {
        0
    } else {
        nesting(s.drop_last()) + nesting_step(s.last())
    }
}

/// A list of commands that never restores a state it did not save, and
/// restores every state it saves.
pub open spec fn balanced(s: Seq<DrawCommandView>) -> bool {
    &&& nesting(s) == 0
    &&& forall|k: int| 0 <= k <= s.len() ==> nesting(#[trigger] s.take(k)) >= 0
}

/// Every draw command of the term draws (it is not a `save`, a
/// `saveLayer` or a `restore`).
pub open spec fn draws_only(t: PictureTerm) -> bool
    decreases t,
{
    match t {
        PictureTerm::DrawCommand(c) => nesting_step(c) == 0,
        PictureTerm::ClipRect(a, _) => draws_only(*a),
        PictureTerm::SrcOver(a, b) => draws_only(*a) && draws_only(*b),
        _ => true,
    }
}

proof fn lemma_nesting_concat(a: Seq<DrawCommandView>, b: Seq<DrawCommandView>)
    ensures
        nesting(a + b) == nesting(a) + nesting(b),
    decreases b.len(),
{
    if b.len() == 0 {
        assert(a + b =~= a);
    } else {
        assert((a + b).drop_last() =~= a + b.drop_last());
        lemma_nesting_concat(a, b.drop_last());
    }
}

proof fn lemma_balanced_concat(a: Seq<DrawCommandView>, b: Seq<DrawCommandView>)
    requires
        balanced(a),
        balanced(b),
    ensures
        balanced(a + b),
{
    lemma_nesting_concat(a, b);
    assert forall|k: int| 0 <= k <= (a + b).len() implies nesting(#[trigger] (a + b).take(k)) >= 0 by {
        if k <= a.len() {
            assert((a + b).take(k) =~= a.take(k));
        } else {
            assert((a + b).take(k) =~= a + b.take(k - a.len()));
            lemma_nesting_concat(a, b.take(k - a.len()));
            assert(nesting(b.take(k - a.len())) >= 0);
        }
    }
}

/// A single command that neither saves nor restores is balanced.
proof fn lemma_balanced_single(c: DrawCommandView)
    requires
        nesting_step(c) == 0,
    ensures
        balanced(seq![c]),
{
    assert(seq![c].drop_last() =~= Seq::<DrawCommandView>::empty());
    assert(nesting(seq![c]) == 0) by {
        reveal_with_fuel(nesting, 2);
    }
    assert forall|k: int| 0 <= k <= 1 implies nesting(#[trigger] seq![c].take(k)) >= 0 by {
        if k == 0 {
            assert(seq![c].take(k) =~= Seq::<DrawCommandView>::empty());
        } else {
            assert(seq![c].take(k) =~= seq![c]);
        }
    }
}

/// Balanced commands between a command that saves a state and a
/// `restore` are balanced.
proof fn lemma_balanced_wrap(open: DrawCommandView, x: Seq<DrawCommandView>)
    requires
        nesting_step(open) == 1,
        balanced(x),
    ensures
        balanced(seq![open] + x + seq![restore_view()]),
{
    let w = seq![open] + x + seq![restore_view()];
    assert(nesting(seq![open]) == 1) by {
        reveal_with_fuel(nesting, 2);
        assert(seq![open].drop_last() =~= Seq::<DrawCommandView>::empty());
    }
    assert(nesting(seq![restore_view()]) == -1) by {
        reveal_with_fuel(nesting, 2);
        assert(seq![restore_view()].drop_last() =~= Seq::<DrawCommandView>::empty());
    }
    lemma_nesting_concat(seq![open], x);
    lemma_nesting_concat(seq![open] + x, seq![restore_view()]);
    assert forall|k: int| 0 <= k <= w.len() implies nesting(#[trigger] w.take(k)) >= 0 by {
        if k == 0 {
            assert(w.take(k) =~= Seq::<DrawCommandView>::empty());
        } else if k <= x.len() + 1 {
            assert(w.take(k) =~= seq![open] + x.take(k - 1));
            lemma_nesting_concat(seq![open], x.take(k - 1));
            assert(nesting(x.take(k - 1)) >= 0);
        } else {
            assert(w.take(k) =~= w);
        }
    }
}

proof fn lemma_placed_balanced(p: (Seq<DrawCommandView>, SurfaceType), layer: bool)
    requires
        balanced(p.0),
    ensures
        balanced(placed(p, layer)),
{
    match p.1 {
        SurfaceType::AbstractWithState => lemma_balanced_wrap(save_view(), p.0),
        SurfaceType::Allocated => if layer {
            lemma_balanced_wrap(save_layer_view(), p.0);
        },
        SurfaceType::Abstract => {},
    }
}

/// The draw commands of a term that is a picture.
pub open spec fn picture_commands(t: PictureTerm) -> Seq<DrawCommandView> {
    match spec_picture(t) {
        Some(p) => p.0,
        None => seq![],
    }
}

/// A picture whose draw commands only draw is written back balanced: its
/// commands never restore a canvas state they did not save, and restore
/// every state they save.
pub proof fn lemma_picture_balanced(t: PictureTerm)
    requires
        draws_only(t),
        spec_picture(t) is Some,
    ensures
        balanced(picture_commands(t)),
    decreases t,
{
    match t {
        PictureTerm::DrawCommand(c) => lemma_balanced_single(c),
        PictureTerm::ClipRect(src, bbox) => {
            lemma_picture_balanced(*src);
            let b = (*bbox)->BBox_0;
            let clip = DrawCommandView::ClipRect { coords: seq![b.l, b.t, b.r, b.b], visible: true };
            lemma_balanced_single(clip);
            lemma_balanced_concat(seq![clip], picture_commands(*src));
        },
        PictureTerm::SrcOver(dst, src) => {
            lemma_picture_balanced(*dst);
            lemma_picture_balanced(*src);
            lemma_placed_balanced(spec_picture(*dst)->0, false);
            lemma_placed_balanced(spec_picture(*src)->0, true);
            lemma_balanced_concat(placed(spec_picture(*dst)->0, false), placed(spec_picture(*src)->0, true));
        },
        PictureTerm::Blank => {
            assert(Seq::<DrawCommandView>::empty().take(0) =~= Seq::<DrawCommandView>::empty());
        },
        _ => {},
    }
}

/// Picture SkiLang as a language of the e-graph library: `matches`
/// compares the operators and the values of two nodes, not their
/// operands, and `children` gives the ids of the operands.
/// Two nodes have the same operator and the same draw command or bounding
/// box; their operands are not compared.
pub open spec fn same_operator(m: PictureSkiLang, n: PictureSkiLang) -> bool {
    match (m, n) {
        (PictureSkiLang::DrawCommand(a), PictureSkiLang::DrawCommand(b)) => a@ == b@,
        (PictureSkiLang::BBox(a), PictureSkiLang::BBox(b)) => a == b,
        (PictureSkiLang::ClipRect(_), PictureSkiLang::ClipRect(_)) => true,
        (PictureSkiLang::SrcOver(_), PictureSkiLang::SrcOver(_)) => true,
        (PictureSkiLang::Blank, PictureSkiLang::Blank) => true,
        _ => false,
    }
}

/// Whether two lists of coordinates are equal.
fn same_coords(a: &Vec<u32>, b: &Vec<u32>) -> (r: bool)
    ensures
        r == (a@ == b@),
{
    let r = a == b;
    proof {
        if r {
            assert(a@ =~= b@);
        }
    }
    r
}

/// Whether two colors are equal.
fn same_color(a: &Vec<u8>, b: &Vec<u8>) -> (r: bool)
    ensures
        r == (a@ == b@),
{
    let r = a == b;
    proof {
        if r {
            assert(a@ =~= b@);
        }
    }
    r
}

/// Whether two draw commands are equal: the same command, with equal
/// coordinates, colors and visibility.
fn same_command(a: &SkDrawCommand, b: &SkDrawCommand) -> (r: bool)
    ensures
        r == (a@ == b@),
{
    match (a, b) {
        (
            SkDrawCommand::DrawRect { coords: c1, paint: p1, visible: v1 },
            SkDrawCommand::DrawRect { coords: c2, paint: p2, visible: v2 },
        ) => same_coords(c1, c2) && same_color(&p1.color, &p2.color) && *v1 == *v2,
        (
            SkDrawCommand::DrawOval { coords: c1, paint: p1, visible: v1 },
            SkDrawCommand::DrawOval { coords: c2, paint: p2, visible: v2 },
        ) => same_coords(c1, c2) && same_color(&p1.color, &p2.color) && *v1 == *v2,
        (
            SkDrawCommand::ClipRect { coords: c1, visible: v1 },
            SkDrawCommand::ClipRect { coords: c2, visible: v2 },
        ) => same_coords(c1, c2) && *v1 == *v2,
        (SkDrawCommand::Save { visible: v1 }, SkDrawCommand::Save { visible: v2 }) => *v1 == *v2,
        (
            SkDrawCommand::SaveLayer { paint: p1, visible: v1 },
            SkDrawCommand::SaveLayer { paint: p2, visible: v2 },
        ) => {
            let same_paint = match (p1, p2) {
                (Some(x), Some(y)) => same_color(&x.color, &y.color),
                (None, None) => true,
                _ => false,
            };
            same_paint && *v1 == *v2
        },
        (SkDrawCommand::Restore { visible: v1 }, SkDrawCommand::Restore { visible: v2 }) => *v1 == *v2,
        _ => false,
    }
}

impl egg::Language for PictureSkiLang {
    fn matches(&self, other: &Self) -> (b: bool)
        ensures
            b == same_operator(*self, *other),
    {
        match (self, other) {
            (PictureSkiLang::DrawCommand(a), PictureSkiLang::DrawCommand(b)) => same_command(a, b),
            (PictureSkiLang::BBox(a), PictureSkiLang::BBox(b)) => a == b,
            (PictureSkiLang::ClipRect(_), PictureSkiLang::ClipRect(_)) => true,
            (PictureSkiLang::SrcOver(_), PictureSkiLang::SrcOver(_)) => true,
            (PictureSkiLang::Blank, PictureSkiLang::Blank) => true,
            _ => false,
        }
    }

    fn children(&self) -> (ids: &[egg::Id])
        ensures
            ids@ == children(*self),
    {
        match self {
            PictureSkiLang::ClipRect(i) => i,
            PictureSkiLang::SrcOver(i) => i,
            _ => &[],
        }
    }

    fn children_mut(&mut self) -> (ids: &mut [egg::Id])
        ensures
            ids@ == children(*old(self)),
            same_operator(*old(self), *final(self)),
            children(*final(self)) == final(ids)@,
    {
        match self {
            PictureSkiLang::ClipRect(i) => i,
            PictureSkiLang::SrcOver(i) => i,
            _ => &mut [],
        }
    }
}

} // verus!
