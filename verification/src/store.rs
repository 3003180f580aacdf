//! The trusted boundary to the tree store.
//!
//! The store itself — node storage, id allocation, parent and child
//! bookkeeping — is `rbx_dom_weak`'s `RbxTree`. This module declares its
//! types, names its contents (`tree_nodes`, `tree_root`), and wraps the four
//! operations the member protocol needs. Everything above this module is
//! verified against the contracts stated here.

use vstd::prelude::*;

use rbx_dom_weak::{RbxId, RbxTree};

use crate::model::{wf_tree, NodeModel, spec_reparent, reaches};

verus! {

#[verifier::external_type_specification]
#[verifier::external_body]
pub struct ExRbxTree(RbxTree);

#[verifier::external_type_specification]
#[verifier::external_body]
pub struct ExRbxId(RbxId);

/// The nodes the store currently holds, as a map from id to record.
pub uninterp spec fn tree_nodes(t: RbxTree) -> Map<RbxId, NodeModel>;

/// The id of the store's distinguished root node.
pub uninterp spec fn tree_root(t: RbxTree) -> RbxId;

/// A plain copy of one node's record, read out of the store in one step.
pub struct NodeRec {
    pub name: String,
    pub class_name: String,
    pub parent: Option<RbxId>,
    pub children: Vec<RbxId>,
}

impl View for NodeRec {
    type V = NodeModel;

    open spec fn view(&self) -> NodeModel {
        NodeModel {
            name: self.name@,
            class_name: self.class_name@,
            parent: self.parent,
            children: self.children@,
        }
    }
}

/// Relies on `RbxTree::get_root_id`, which returns the id of the root
/// instance.
#[verifier::external_body]
pub(crate) fn get_root(t: &RbxTree) -> (r: RbxId)
    ensures
        r == tree_root(*t),
{
    t.get_root_id()
}

/// Relies on `RbxTree::get_instance`: `Some` exactly when the id is in the
/// tree. `get_parent_id` and `get_children_ids` only read the node's parent
/// and child-id fields back out, and the field copies convert them into a
/// record of plain values.
#[verifier::external_body]
pub(crate) fn resolve(t: &RbxTree, id: RbxId) -> (r: Option<NodeRec>)
    ensures
        (match r {
            Some(rec) => tree_nodes(*t).contains_key(id) && rec@ == tree_nodes(*t)[id],
            None => !tree_nodes(*t).contains_key(id),
        }),
{
    match t.get_instance(id) {
        Some(inst) => Some(
            NodeRec {
                name: inst.name.clone(),
                class_name: inst.class_name.clone(),
                parent: inst.get_parent_id(),
                children: inst.get_children_ids().to_vec(),
            },
        ),
        None => None,
    }
}

/// Relies on `RbxId`'s derived equality: two ids compare equal exactly when
/// they are the same identifier value.
#[verifier::external_body]
pub(crate) fn ids_equal(a: RbxId, b: RbxId) -> (r: bool)
    ensures
        r <==> a == b,
{
    a == b
}

/// Relies on `RbxTree::get_instance_mut`: when the id is in the tree it
/// yields the node's record, whose name field is then replaced; nothing else
/// in the store moves.
#[verifier::external_body]
pub(crate) fn write_name(t: &mut RbxTree, id: RbxId, name: String) -> (ok: bool)
    ensures
        ok == tree_nodes(*old(t)).contains_key(id),
        tree_root(*final(t)) == tree_root(*old(t)),
        tree_nodes(*final(t)) == (if tree_nodes(*old(t)).contains_key(id) {
            tree_nodes(*old(t)).insert(
                id,
                (NodeModel { name: name@, ..tree_nodes(*old(t))[id] }),
            )
        } else {
            tree_nodes(*old(t))
        }),
{
    match t.get_instance_mut(id) {
        Some(inst) => {
            inst.name = name;
            true
        },
        None => false,
    }
}

/// Relies on `RbxTree::set_parent`: it unlinks the node from its current
/// parent's child list, records the new parent, and appends the node to the
/// new parent's child list. Its panics — a missing node or destination, a
/// node without a parent, a destination strictly below the node — and the
/// termination of its cycle scan are ruled out by the preconditions.
#[verifier::external_body]
pub(crate) fn reparent(t: &mut RbxTree, id: RbxId, dest: RbxId)
    requires
        wf_tree(tree_nodes(*old(t)), tree_root(*old(t))),
        tree_nodes(*old(t)).contains_key(id),
        id != tree_root(*old(t)),
        tree_nodes(*old(t)).contains_key(dest),
        !reaches(tree_nodes(*old(t)), dest, id),
    ensures
        tree_root(*final(t)) == tree_root(*old(t)),
        tree_nodes(*final(t)) == spec_reparent(tree_nodes(*old(t)), id, dest),
{
    t.set_parent(id, dest);
}

} // verus!
