//! The expressions and the node ids of the e-graph library `egg`, as the
//! verified code sees them.
//!
//! An `egg::RecExpr` is a list of nodes in which every node names its
//! operands by the ids of their positions, and every operand comes before
//! the node that uses it. An `egg::Id` is a position kept as a `u32`. Each
//! language of this crate gives the contents of its expressions a name,
//! and wraps the methods of `RecExpr` that it calls; this module holds the
//! declarations that they share and the conversion of a position to an id.
use vstd::prelude::*;

verus! {

#[verifier::external_type_specification]
#[verifier::external_body]
pub struct ExEggId(egg::Id);

#[verifier::external_type_specification]
#[verifier::external_body]
#[verifier::reject_recursive_types(L)]
pub struct ExEggRecExpr<L>(egg::RecExpr<L>);

/// The position that an id stands for: `usize::from(id)`.
pub uninterp spec fn id_index(id: egg::Id) -> usize;

/// `Id::from` on a position: `egg` keeps the position as a `u32`, so the
/// id stands for the position where it fits in one.
#[verifier::external_body]
pub(crate) fn usize_to_id(n: usize) -> (id: egg::Id)
    ensures
        n <= u32::MAX ==> id_index(id) == n,
{
    egg::Id::from(n)
}

} // verus!
