//! The expanded form of SkiLang, in which every parameter of an operation
//! (a number, a flag, a color, a paint, bounds) is a node of its own.
//!
//! Expressions in this form are built straight from the records of an
//! `SkRecord` by `build_ski_lang_expr`; their parameter nodes convert to
//! and from protos in `ski_lang_converters`. Like `ski_lang`, an expression
//! is an `egg::RecExpr` whose nodes name operands that come before them,
//! and each node stands for a term: its operator applied to the terms of
//! its operands.
use vstd::prelude::*;

use crate::egg_expr::id_index;
use crate::ski_lang::{SkiLangM44, SkiLangRect};

verus! {

/// A node of an expanded SkiLang expression.
#[derive(Debug, Clone, Copy, PartialEq, Eq, PartialOrd, Ord, Hash)]
pub enum ExpandedSkiLang {
    Num(i32),
    Bool(bool),
    Exists(bool),
    /// The bit pattern of a double.
    Float(u64),
    Rect(SkiLangRect),
    M44(SkiLangM44),
    NoOp,
    Blank,
    BlankState,
    BlendModeSrc,
    BlendModeSrcOver,
    BlendModeUnknown,
    ClipOpDiff,
    ClipOpIntersect,
    /// alpha, red, green, blue
    Color([egg::Id; 4]),
    /// blend mode
    Blender([egg::Id; 1]),
    /// whether there is one
    ImageFilter([egg::Id; 1]),
    /// whether there is one
    ColorFilter([egg::Id; 1]),
    /// whether there is one
    PathEffect([egg::Id; 1]),
    /// whether there is one
    MaskFilter([egg::Id; 1]),
    /// whether there is one
    Shader([egg::Id; 1]),
    /// color, blender, image filter, color filter, path effect, mask
    /// filter, shader
    Paint([egg::Id; 7]),
    /// whether there are bounds, their rectangle (or a no-op)
    Bounds([egg::Id; 2]),
    /// whether there is one
    Backdrop([egg::Id; 1]),
    /// rectangle, clip operation, anti-aliasing
    ClipRectParams([egg::Id; 3]),
    /// index of the record
    MatrixOpParams([egg::Id; 1]),
    /// index of the record, paint
    DrawCommand([egg::Id; 2]),
    /// index of the record, paint, backdrop, bounds, state
    MergeParams([egg::Id; 5]),
    /// surface or state, parameters
    MatrixOp([egg::Id; 2]),
    /// surface or state, parameters
    ClipRect([egg::Id; 2]),
    /// surface, surface
    Concat([egg::Id; 2]),
    /// dst, src, merge parameters
    Merge([egg::Id; 3]),
}

/// The operator of a node: the node without its operands.
pub ghost enum ExpandedOp {
    Num(i32),
    Bool(bool),
    Exists(bool),
    Float(u64),
    Rect(SkiLangRect),
    M44(SkiLangM44),
    NoOp,
    Blank,
    BlankState,
    BlendModeSrc,
    BlendModeSrcOver,
    BlendModeUnknown,
    ClipOpDiff,
    ClipOpIntersect,
    Color,
    Blender,
    ImageFilter,
    ColorFilter,
    PathEffect,
    MaskFilter,
    Shader,
    Paint,
    Bounds,
    Backdrop,
    ClipRectParams,
    MatrixOpParams,
    DrawCommand,
    MergeParams,
    MatrixOp,
    ClipRect,
    Concat,
    Merge,
}

/// The operator of a node.
pub open spec fn op(n: ExpandedSkiLang) -> ExpandedOp {
    match n {
        ExpandedSkiLang::Num(v) => ExpandedOp::Num(v),
        ExpandedSkiLang::Bool(v) => ExpandedOp::Bool(v),
        ExpandedSkiLang::Exists(v) => ExpandedOp::Exists(v),
        ExpandedSkiLang::Float(v) => ExpandedOp::Float(v),
        ExpandedSkiLang::Rect(v) => ExpandedOp::Rect(v),
        ExpandedSkiLang::M44(v) => ExpandedOp::M44(v),
        ExpandedSkiLang::NoOp => ExpandedOp::NoOp,
        ExpandedSkiLang::Blank => ExpandedOp::Blank,
        ExpandedSkiLang::BlankState => ExpandedOp::BlankState,
        ExpandedSkiLang::BlendModeSrc => ExpandedOp::BlendModeSrc,
        ExpandedSkiLang::BlendModeSrcOver => ExpandedOp::BlendModeSrcOver,
        ExpandedSkiLang::BlendModeUnknown => ExpandedOp::BlendModeUnknown,
        ExpandedSkiLang::ClipOpDiff => ExpandedOp::ClipOpDiff,
        ExpandedSkiLang::ClipOpIntersect => ExpandedOp::ClipOpIntersect,
        ExpandedSkiLang::Color(_) => ExpandedOp::Color,
        ExpandedSkiLang::Blender(_) => ExpandedOp::Blender,
        ExpandedSkiLang::ImageFilter(_) => ExpandedOp::ImageFilter,
        ExpandedSkiLang::ColorFilter(_) => ExpandedOp::ColorFilter,
        ExpandedSkiLang::PathEffect(_) => ExpandedOp::PathEffect,
        ExpandedSkiLang::MaskFilter(_) => ExpandedOp::MaskFilter,
        ExpandedSkiLang::Shader(_) => ExpandedOp::Shader,
        ExpandedSkiLang::Paint(_) => ExpandedOp::Paint,
        ExpandedSkiLang::Bounds(_) => ExpandedOp::Bounds,
        ExpandedSkiLang::Backdrop(_) => ExpandedOp::Backdrop,
        ExpandedSkiLang::ClipRectParams(_) => ExpandedOp::ClipRectParams,
        ExpandedSkiLang::MatrixOpParams(_) => ExpandedOp::MatrixOpParams,
        ExpandedSkiLang::DrawCommand(_) => ExpandedOp::DrawCommand,
        ExpandedSkiLang::MergeParams(_) => ExpandedOp::MergeParams,
        ExpandedSkiLang::MatrixOp(_) => ExpandedOp::MatrixOp,
        ExpandedSkiLang::ClipRect(_) => ExpandedOp::ClipRect,
        ExpandedSkiLang::Concat(_) => ExpandedOp::Concat,
        ExpandedSkiLang::Merge(_) => ExpandedOp::Merge,
    }
}

/// The operands of a node, in order.
pub open spec fn children(n: ExpandedSkiLang) -> Seq<egg::Id> {
    match n {
        ExpandedSkiLang::Color(i) => seq![i[0], i[1], i[2], i[3]],
        ExpandedSkiLang::Blender(i) => seq![i[0]],
        ExpandedSkiLang::ImageFilter(i) => seq![i[0]],
        ExpandedSkiLang::ColorFilter(i) => seq![i[0]],
        ExpandedSkiLang::PathEffect(i) => seq![i[0]],
        ExpandedSkiLang::MaskFilter(i) => seq![i[0]],
        ExpandedSkiLang::Shader(i) => seq![i[0]],
        ExpandedSkiLang::Paint(i) => seq![i[0], i[1], i[2], i[3], i[4], i[5], i[6]],
        ExpandedSkiLang::Bounds(i) => seq![i[0], i[1]],
        ExpandedSkiLang::Backdrop(i) => seq![i[0]],
        ExpandedSkiLang::ClipRectParams(i) => seq![i[0], i[1], i[2]],
        ExpandedSkiLang::MatrixOpParams(i) => seq![i[0]],
        ExpandedSkiLang::DrawCommand(i) => seq![i[0], i[1]],
        ExpandedSkiLang::MergeParams(i) => seq![i[0], i[1], i[2], i[3], i[4]],
        ExpandedSkiLang::MatrixOp(i) => seq![i[0], i[1]],
        ExpandedSkiLang::ClipRect(i) => seq![i[0], i[1]],
        ExpandedSkiLang::Concat(i) => seq![i[0], i[1]],
        ExpandedSkiLang::Merge(i) => seq![i[0], i[1], i[2]],
        _ => seq![],
    }
}

/// Every operand of `n` comes before position `pos`.
pub open spec fn children_before(n: ExpandedSkiLang, pos: int) -> bool {
    forall|k: int| 0 <= k < children(n).len() ==> id_index(#[trigger] children(n)[k]) < pos
}

/// Every node names only nodes that come before it.
pub open spec fn wf_nodes(s: Seq<ExpandedSkiLang>) -> bool {
    forall|i: int| 0 <= i < s.len() ==> children_before(#[trigger] s[i], i)
}

/// A term of expanded SkiLang: an operator applied to the terms of its
/// operands.
#[verifier::ext_equal]
pub enum ExpandedTerm {
    Node(ExpandedOp, Seq<ExpandedTerm>),
}

pub open spec fn op_of(t: ExpandedTerm) -> ExpandedOp {
    match t {
        ExpandedTerm::Node(o, _) => o,
    }
}

pub open spec fn args(t: ExpandedTerm) -> Seq<ExpandedTerm> {
    match t {
        ExpandedTerm::Node(_, a) => a,
    }
}

/// The term of an operator without operands.
pub open spec fn leaf(o: ExpandedOp) -> ExpandedTerm {
    ExpandedTerm::Node(o, seq![])
}

/// The term that the node at `id` stands for.
pub open spec fn term_of(s: Seq<ExpandedSkiLang>, id: int) -> ExpandedTerm
    decreases id,
{
    if 0 <= id < s.len() {
        let cs = children(s[id]);
        ExpandedTerm::Node(
            op(s[id]),
            Seq::new(
                cs.len(),
                |k: int|
                    if (id_index(cs[k]) as int) < id {
                        term_of(s, id_index(cs[k]) as int)
                    } else {
                        leaf(ExpandedOp::NoOp)
                    },
            ),
        )
    } else {
        leaf(ExpandedOp::NoOp)
    }
}

/// The term of node `n` whose operands are nodes of `s`.
pub open spec fn node_term(s: Seq<ExpandedSkiLang>, n: ExpandedSkiLang) -> ExpandedTerm {
    ExpandedTerm::Node(op(n), Seq::new(children(n).len(), |k: int| term_of(s, id_index(children(n)[k]) as int)))
}

/// In a well-formed expression, the term of a node is its operator
/// applied to the terms of its operands.
pub proof fn lemma_term_of_node(s: Seq<ExpandedSkiLang>, id: int)
    requires
        wf_nodes(s),
        0 <= id < s.len(),
    ensures
        term_of(s, id) == node_term(s, s[id]),
        op_of(term_of(s, id)) == op(s[id]),
        args(term_of(s, id)).len() == children(s[id]).len(),
        forall|k: int|
            0 <= k < children(s[id]).len() ==> #[trigger] args(term_of(s, id))[k] == term_of(
                s,
                id_index(children(s[id])[k]) as int,
            ),
{
    assert(children_before(s[id], id));
    assert(args(term_of(s, id)) =~= args(node_term(s, s[id])));
}

/// Appending nodes leaves the term of every existing node unchanged.
pub proof fn lemma_term_of_prefix(s: Seq<ExpandedSkiLang>, t: Seq<ExpandedSkiLang>, id: int)
    requires
        s.len() <= t.len(),
        t.subrange(0, s.len() as int) == s,
        0 <= id < s.len(),
    ensures
        term_of(t, id) == term_of(s, id),
    decreases id,
{
    assert(t[id] == s[id]);
    let cs = children(s[id]);
    assert forall|k: int| 0 <= k < cs.len() implies #[trigger] args(term_of(t, id))[k] == args(
        term_of(s, id),
    )[k] by {
        if (id_index(cs[k]) as int) < id {
            lemma_term_of_prefix(s, t, id_index(cs[k]) as int);
        }
    }
    assert(args(term_of(t, id)) =~= args(term_of(s, id)));
}

/// `b` starts with the nodes of `a`.
pub open spec fn extends(a: Seq<ExpandedSkiLang>, b: Seq<ExpandedSkiLang>) -> bool {
    a.len() <= b.len() && b.subrange(0, a.len() as int) == a
}

/// Extending an expression keeps the terms of its nodes.
pub proof fn lemma_extends_terms(a: Seq<ExpandedSkiLang>, b: Seq<ExpandedSkiLang>)
    requires
        extends(a, b),
    ensures
        forall|i: int| 0 <= i < a.len() ==> #[trigger] term_of(b, i) == term_of(a, i),
{
    assert forall|i: int| 0 <= i < a.len() implies #[trigger] term_of(b, i) == term_of(a, i) by {
        lemma_term_of_prefix(a, b, i);
    }
}

/// Every expression extends itself.
pub proof fn lemma_extends_refl(a: Seq<ExpandedSkiLang>)
    ensures
        extends(a, a),
{
    assert(a.subrange(0, a.len() as int) =~= a);
}

/// Extension is transitive.
pub proof fn lemma_extends_trans(a: Seq<ExpandedSkiLang>, b: Seq<ExpandedSkiLang>, c: Seq<ExpandedSkiLang>)
    requires
        extends(a, b),
        extends(b, c),
    ensures
        extends(a, c),
{
    assert(c.subrange(0, a.len() as int) =~= b.subrange(0, a.len() as int));
}

/// The nodes of an expanded SkiLang expression, in order.
pub uninterp spec fn expanded_nodes(e: egg::RecExpr<ExpandedSkiLang>) -> Seq<ExpandedSkiLang>;

/// An expression whose nodes name only nodes that come before them.
pub open spec fn expanded_wf(e: egg::RecExpr<ExpandedSkiLang>) -> bool {
    wf_nodes(expanded_nodes(e))
}

/// The term of the node with id `id`.
pub open spec fn expanded_term(e: egg::RecExpr<ExpandedSkiLang>, id: egg::Id) -> ExpandedTerm {
    term_of(expanded_nodes(e), id_index(id) as int)
}

/// `RecExpr::default`: an expression with no nodes.
#[verifier::external_body]
fn rec_expr_default() -> (e: egg::RecExpr<ExpandedSkiLang>)
    ensures
        expanded_nodes(e) == Seq::<ExpandedSkiLang>::empty(),
{
    egg::RecExpr::default()
}

/// `RecExpr::add`: appends a node, whose operands must already be in the
/// expression (`egg` asserts it in debug builds), and returns the id of
/// its position.
#[verifier::external_body]
fn rec_expr_add(e: &mut egg::RecExpr<ExpandedSkiLang>, node: ExpandedSkiLang) -> (id: egg::Id)
    requires
        children_before(node, expanded_nodes(*old(e)).len() as int),
    ensures
        expanded_nodes(*final(e)) == expanded_nodes(*old(e)).push(node),
        expanded_nodes(*old(e)).len() <= u32::MAX ==> id_index(id) == expanded_nodes(*old(e)).len(),
{
    e.add(node)
}

/// Indexing by an id: the node at its position.
#[verifier::external_body]
fn rec_expr_index(e: &egg::RecExpr<ExpandedSkiLang>, id: egg::Id) -> (n: &ExpandedSkiLang)
    requires
        id_index(id) < expanded_nodes(*e).len(),
    ensures
        *n == expanded_nodes(*e)[id_index(id) as int],
{
    &e[id]
}

/// `RecExpr::as_ref`: the nodes, in order.
#[verifier::external_body]
fn rec_expr_as_ref(e: &egg::RecExpr<ExpandedSkiLang>) -> (nodes: &[ExpandedSkiLang])
    ensures
        nodes@ == expanded_nodes(*e),
{
    e.as_ref()
}

/// An expression with no nodes.
pub fn new_expanded_expr() -> (e: egg::RecExpr<ExpandedSkiLang>)
    ensures
        expanded_nodes(e) == Seq::<ExpandedSkiLang>::empty(),
        expanded_wf(e),
{
    rec_expr_default()
}

/// Appends a node whose operands are already in the expression, and
/// returns its id.
pub fn add_expanded(e: &mut egg::RecExpr<ExpandedSkiLang>, node: ExpandedSkiLang) -> (id: egg::Id)
    requires
        expanded_wf(*old(e)),
        children_before(node, expanded_nodes(*old(e)).len() as int),
        expanded_nodes(*old(e)).len() < u32::MAX,
    ensures
        expanded_nodes(*final(e)) == expanded_nodes(*old(e)).push(node),
        extends(expanded_nodes(*old(e)), expanded_nodes(*final(e))),
        expanded_wf(*final(e)),
        id_index(id) == expanded_nodes(*old(e)).len(),
        term_of(expanded_nodes(*final(e)), id_index(id) as int) == node_term(expanded_nodes(*old(e)), node),
        forall|i: int|
            0 <= i < expanded_nodes(*old(e)).len() ==> #[trigger] term_of(expanded_nodes(*final(e)), i)
                == term_of(expanded_nodes(*old(e)), i),
{
    let id = rec_expr_add(e, node);
    proof {
        let s = expanded_nodes(*old(e));
        let t = expanded_nodes(*e);
        assert(t.subrange(0, s.len() as int) =~= s);
        assert forall|i: int| 0 <= i < t.len() implies children_before(#[trigger] t[i], i) by {
            if i < s.len() {
                assert(t[i] == s[i]);
            }
        }
        lemma_extends_terms(s, t);
        lemma_term_of_node(t, id_index(id) as int);
        assert(args(term_of(t, id_index(id) as int)) =~= args(node_term(s, node)));
    }
    id
}

/// The number of nodes.
pub fn expanded_len(e: &egg::RecExpr<ExpandedSkiLang>) -> (n: usize)
    ensures
        n == expanded_nodes(*e).len(),
{
    rec_expr_as_ref(e).len()
}

/// The node with id `id`.
pub fn get_expanded(e: &egg::RecExpr<ExpandedSkiLang>, id: egg::Id) -> (n: &ExpandedSkiLang)
    requires
        id_index(id) < expanded_nodes(*e).len(),
    ensures
        *n == expanded_nodes(*e)[id_index(id) as int],
{
    rec_expr_index(e, id)
}

/// Expanded SkiLang as a language of the e-graph library: `matches`
/// compares the operators and the values of two nodes, not their
/// operands, and `children` gives the ids of the operands.
/// Two nodes have the same operator and the same value; their operands are
/// not compared.
pub open spec fn same_operator(m: ExpandedSkiLang, n: ExpandedSkiLang) -> bool {
    match (m, n) {
        (ExpandedSkiLang::Num(a), ExpandedSkiLang::Num(b)) => a == b,
        (ExpandedSkiLang::Bool(a), ExpandedSkiLang::Bool(b)) => a == b,
        (ExpandedSkiLang::Exists(a), ExpandedSkiLang::Exists(b)) => a == b,
        (ExpandedSkiLang::Float(a), ExpandedSkiLang::Float(b)) => a == b,
        (ExpandedSkiLang::Rect(a), ExpandedSkiLang::Rect(b)) => a == b,
        (ExpandedSkiLang::M44(a), ExpandedSkiLang::M44(b)) => a == b,
        (ExpandedSkiLang::NoOp, ExpandedSkiLang::NoOp) => true,
        (ExpandedSkiLang::Blank, ExpandedSkiLang::Blank) => true,
        (ExpandedSkiLang::BlankState, ExpandedSkiLang::BlankState) => true,
        (ExpandedSkiLang::BlendModeSrc, ExpandedSkiLang::BlendModeSrc) => true,
        (ExpandedSkiLang::BlendModeSrcOver, ExpandedSkiLang::BlendModeSrcOver) => true,
        (ExpandedSkiLang::BlendModeUnknown, ExpandedSkiLang::BlendModeUnknown) => true,
        (ExpandedSkiLang::ClipOpDiff, ExpandedSkiLang::ClipOpDiff) => true,
        (ExpandedSkiLang::ClipOpIntersect, ExpandedSkiLang::ClipOpIntersect) => true,
        (ExpandedSkiLang::Color(_), ExpandedSkiLang::Color(_)) => true,
        (ExpandedSkiLang::Blender(_), ExpandedSkiLang::Blender(_)) => true,
        (ExpandedSkiLang::ImageFilter(_), ExpandedSkiLang::ImageFilter(_)) => true,
        (ExpandedSkiLang::ColorFilter(_), ExpandedSkiLang::ColorFilter(_)) => true,
        (ExpandedSkiLang::PathEffect(_), ExpandedSkiLang::PathEffect(_)) => true,
        (ExpandedSkiLang::MaskFilter(_), ExpandedSkiLang::MaskFilter(_)) => true,
        (ExpandedSkiLang::Shader(_), ExpandedSkiLang::Shader(_)) => true,
        (ExpandedSkiLang::Paint(_), ExpandedSkiLang::Paint(_)) => true,
        (ExpandedSkiLang::Bounds(_), ExpandedSkiLang::Bounds(_)) => true,
        (ExpandedSkiLang::Backdrop(_), ExpandedSkiLang::Backdrop(_)) => true,
        (ExpandedSkiLang::ClipRectParams(_), ExpandedSkiLang::ClipRectParams(_)) => true,
        (ExpandedSkiLang::MatrixOpParams(_), ExpandedSkiLang::MatrixOpParams(_)) => true,
        (ExpandedSkiLang::DrawCommand(_), ExpandedSkiLang::DrawCommand(_)) => true,
        (ExpandedSkiLang::MergeParams(_), ExpandedSkiLang::MergeParams(_)) => true,
        (ExpandedSkiLang::MatrixOp(_), ExpandedSkiLang::MatrixOp(_)) => true,
        (ExpandedSkiLang::ClipRect(_), ExpandedSkiLang::ClipRect(_)) => true,
        (ExpandedSkiLang::Concat(_), ExpandedSkiLang::Concat(_)) => true,
        (ExpandedSkiLang::Merge(_), ExpandedSkiLang::Merge(_)) => true,
        _ => false,
    }
}

impl egg::Language for ExpandedSkiLang {
    fn matches(&self, other: &Self) -> (b: bool)
        ensures
            b == same_operator(*self, *other),
    {
        match (self, other) {
            (ExpandedSkiLang::Num(a), ExpandedSkiLang::Num(b)) => a == b,
            (ExpandedSkiLang::Bool(a), ExpandedSkiLang::Bool(b)) => a == b,
            (ExpandedSkiLang::Exists(a), ExpandedSkiLang::Exists(b)) => a == b,
            (ExpandedSkiLang::Float(a), ExpandedSkiLang::Float(b)) => a == b,
            (ExpandedSkiLang::Rect(a), ExpandedSkiLang::Rect(b)) => a == b,
            (ExpandedSkiLang::M44(a), ExpandedSkiLang::M44(b)) => a == b,
            (ExpandedSkiLang::NoOp, ExpandedSkiLang::NoOp) => true,
            (ExpandedSkiLang::Blank, ExpandedSkiLang::Blank) => true,
            (ExpandedSkiLang::BlankState, ExpandedSkiLang::BlankState) => true,
            (ExpandedSkiLang::BlendModeSrc, ExpandedSkiLang::BlendModeSrc) => true,
            (ExpandedSkiLang::BlendModeSrcOver, ExpandedSkiLang::BlendModeSrcOver) => true,
            (ExpandedSkiLang::BlendModeUnknown, ExpandedSkiLang::BlendModeUnknown) => true,
            (ExpandedSkiLang::ClipOpDiff, ExpandedSkiLang::ClipOpDiff) => true,
            (ExpandedSkiLang::ClipOpIntersect, ExpandedSkiLang::ClipOpIntersect) => true,
            (ExpandedSkiLang::Color(_), ExpandedSkiLang::Color(_)) => true,
            (ExpandedSkiLang::Blender(_), ExpandedSkiLang::Blender(_)) => true,
            (ExpandedSkiLang::ImageFilter(_), ExpandedSkiLang::ImageFilter(_)) => true,
            (ExpandedSkiLang::ColorFilter(_), ExpandedSkiLang::ColorFilter(_)) => true,
            (ExpandedSkiLang::PathEffect(_), ExpandedSkiLang::PathEffect(_)) => true,
            (ExpandedSkiLang::MaskFilter(_), ExpandedSkiLang::MaskFilter(_)) => true,
            (ExpandedSkiLang::Shader(_), ExpandedSkiLang::Shader(_)) => true,
            (ExpandedSkiLang::Paint(_), ExpandedSkiLang::Paint(_)) => true,
            (ExpandedSkiLang::Bounds(_), ExpandedSkiLang::Bounds(_)) => true,
            (ExpandedSkiLang::Backdrop(_), ExpandedSkiLang::Backdrop(_)) => true,
            (ExpandedSkiLang::ClipRectParams(_), ExpandedSkiLang::ClipRectParams(_)) => true,
            (ExpandedSkiLang::MatrixOpParams(_), ExpandedSkiLang::MatrixOpParams(_)) => true,
            (ExpandedSkiLang::DrawCommand(_), ExpandedSkiLang::DrawCommand(_)) => true,
            (ExpandedSkiLang::MergeParams(_), ExpandedSkiLang::MergeParams(_)) => true,
            (ExpandedSkiLang::MatrixOp(_), ExpandedSkiLang::MatrixOp(_)) => true,
            (ExpandedSkiLang::ClipRect(_), ExpandedSkiLang::ClipRect(_)) => true,
            (ExpandedSkiLang::Concat(_), ExpandedSkiLang::Concat(_)) => true,
            (ExpandedSkiLang::Merge(_), ExpandedSkiLang::Merge(_)) => true,
            _ => false,
        }
    }

    fn children(&self) -> (ids: &[egg::Id])
        ensures
            ids@ == children(*self),
    {
        match self {
            ExpandedSkiLang::Color(i) => i,
            ExpandedSkiLang::Blender(i) => i,
            ExpandedSkiLang::ImageFilter(i) => i,
            ExpandedSkiLang::ColorFilter(i) => i,
            ExpandedSkiLang::PathEffect(i) => i,
            ExpandedSkiLang::MaskFilter(i) => i,
            ExpandedSkiLang::Shader(i) => i,
            ExpandedSkiLang::Paint(i) => i,
            ExpandedSkiLang::Bounds(i) => i,
            ExpandedSkiLang::Backdrop(i) => i,
            ExpandedSkiLang::ClipRectParams(i) => i,
            ExpandedSkiLang::MatrixOpParams(i) => i,
            ExpandedSkiLang::DrawCommand(i) => i,
            ExpandedSkiLang::MergeParams(i) => i,
            ExpandedSkiLang::MatrixOp(i) => i,
            ExpandedSkiLang::ClipRect(i) => i,
            ExpandedSkiLang::Concat(i) => i,
            ExpandedSkiLang::Merge(i) => i,
            _ => &[],
        }
    }

    fn children_mut(&mut self) -> (ids: &mut [egg::Id])
        ensures
            ids@ == children(*old(self)),
            same_operator(*old(self), *final(self)),
            children(*final(self)) == final(ids)@,
    {
        match self {
            ExpandedSkiLang::Color(i) => i,
            ExpandedSkiLang::Blender(i) => i,
            ExpandedSkiLang::ImageFilter(i) => i,
            ExpandedSkiLang::ColorFilter(i) => i,
            ExpandedSkiLang::PathEffect(i) => i,
            ExpandedSkiLang::MaskFilter(i) => i,
            ExpandedSkiLang::Shader(i) => i,
            ExpandedSkiLang::Paint(i) => i,
            ExpandedSkiLang::Bounds(i) => i,
            ExpandedSkiLang::Backdrop(i) => i,
            ExpandedSkiLang::ClipRectParams(i) => i,
            ExpandedSkiLang::MatrixOpParams(i) => i,
            ExpandedSkiLang::DrawCommand(i) => i,
            ExpandedSkiLang::MergeParams(i) => i,
            ExpandedSkiLang::MatrixOp(i) => i,
            ExpandedSkiLang::ClipRect(i) => i,
            ExpandedSkiLang::Concat(i) => i,
            ExpandedSkiLang::Merge(i) => i,
            _ => &mut [],
        }
    }
}

} // verus!
