//! The node handle and its dynamic member protocol.

use vstd::prelude::*;

use rbx_dom_weak::{RbxId, RbxTree};

use crate::model::{
    find_in, lemma_parentless_reaches_nothing, reaches, spec_member_read, spec_member_write,
    wf_tree, MemberErr, MemberVal,
};
use crate::store::{get_root, ids_equal, reparent, resolve, tree_nodes, tree_root, write_name};

verus! {

/// A lightweight, copyable reference to one node of the tree store: the
/// node's id and nothing more. It owns no node data and keeps nothing
/// alive; whether the node still exists is decided afresh, against the live
/// store, by every operation.
#[derive(Clone, Copy, Debug, PartialEq, Eq)]
pub struct LuaInstance {
    pub id: RbxId,
}

/// A script-side value crossing the member protocol: text, a node handle,
/// absence, or any other value the host runtime may pass.
#[derive(Clone, Debug, PartialEq)]
pub enum ScriptValue {
    Text(String),
    Instance(LuaInstance),
    Nil,
    Other,
}

/// A failure of the member protocol, with the offending key or a short
/// description of the expected value shape. Every failure leaves the store
/// exactly as it was.
#[derive(Clone, Debug, PartialEq, Eq)]
pub enum InstanceError {
    NodeDestroyed,
    InvalidMember(String),
    ReadOnlyMember(String),
    TypeMismatch(String),
}

/// The specification-level value a script value stands for.
pub open spec fn sv_view(v: ScriptValue) -> MemberVal {
    match v {
        ScriptValue::Text(s) => MemberVal::Text(s@),
        ScriptValue::Instance(h) => MemberVal::Node(h.id),
        ScriptValue::Nil => MemberVal::Nil,
        ScriptValue::Other => MemberVal::Other,
    }
}

/// The specification-level failure an error value stands for.
pub open spec fn err_view(e: InstanceError) -> MemberErr {
    match e {
        InstanceError::NodeDestroyed => MemberErr::Destroyed,
        InstanceError::InvalidMember(k) => MemberErr::Invalid(k@),
        InstanceError::ReadOnlyMember(k) => MemberErr::ReadOnly(k@),
        InstanceError::TypeMismatch(s) => MemberErr::Mismatch(s@),
    }
}

/// Two handles refer to the same node: their ids are equal. Liveness plays
/// no part; handles to a destroyed node still compare by id.
pub open spec fn same_handle(a: LuaInstance, b: LuaInstance) -> bool {
    a.id == b.id
}

/// True exactly when `key` reads as `lit`.
fn str_is(key: &String, lit: &str) -> (r: bool)
    ensures
        r == (key@ == lit@),
{
    *key == lit.to_owned()
}

/// The first child among `kids` that is live and named `name`, as a fresh
/// handle; unresolved ids are passed over silently.
fn scan_children(t: &RbxTree, kids: &Vec<RbxId>, name: &String) -> (r: Option<LuaInstance>)
    ensures
        (match r {
            Some(c) => find_in(tree_nodes(*t), kids@, name@) == Some(c.id),
            None => find_in(tree_nodes(*t), kids@, name@) is None,
        }),
{
    let ghost m = tree_nodes(*t);
    let mut i: usize = 0;
    proof {
        assert(kids@.skip(0) =~= kids@);
    }
    while i < kids.len()
        invariant
            i <= kids.len(),
            m == tree_nodes(*t),
            find_in(m, kids@, name@) == find_in(m, kids@.skip(i as int), name@),
        decreases kids.len() - i,
    {
        let kid = kids[i];
        let matched = match resolve(t, kid) {
            Some(rec) => rec.name == *name,
            None => false,
        };
        proof {
            assert(kids@.skip(i as int)[0] == kids@[i as int]);
            assert(kids@.skip(i as int).skip(1) =~= kids@.skip(i as int + 1));
        }
        if matched {
            return Some(LuaInstance { id: kid });
        }
        i = i + 1;
    }
    proof {
        assert(kids@.skip(kids@.len() as int) =~= Seq::<RbxId>::empty());
    }
    None
}

impl LuaInstance {
    /// A new handle to the node with the given id.
    pub fn new(id: RbxId) -> (r: LuaInstance)
        ensures
            r.id == id,
    {
        LuaInstance { id }
    }

    /// Identity comparison: true exactly when both handles carry the same
    /// node id, whether or not that node still exists.
    pub fn equals(&self, other: &LuaInstance) -> (r: bool)
        ensures
            r == same_handle(*self, *other),
    {
        ids_equal(self.id, other.id)
    }

    /// The first child of this node that is live and named `name`, or
    /// absence when none matches; fails only when this node itself no
    /// longer resolves.
    pub fn find_first_child(&self, t: &RbxTree, name: &String) -> (r: Result<
        Option<LuaInstance>,
        InstanceError,
    >)
        ensures
            (match r {
                Ok(found) => tree_nodes(*t).contains_key(self.id) && (match found {
                    Some(c) => find_in(tree_nodes(*t), tree_nodes(*t)[self.id].children, name@)
                        == Some(c.id),
                    None => find_in(
                        tree_nodes(*t),
                        tree_nodes(*t)[self.id].children,
                        name@,
                    ) is None,
                }),
                Err(e) => !tree_nodes(*t).contains_key(self.id) && e
                    == InstanceError::NodeDestroyed,
            }),
    {
        match resolve(t, self.id) {
            None => Err(InstanceError::NodeDestroyed),
            Some(rec) => Ok(scan_children(t, &rec.children, name)),
        }
    }

    /// One fresh handle per child id currently recorded on this node, in
    /// the store's order; fails when this node no longer resolves.
    pub fn get_children(&self, t: &RbxTree) -> (r: Result<Vec<LuaInstance>, InstanceError>)
        ensures
            (match r {
                Ok(out) => tree_nodes(*t).contains_key(self.id) && out@.map_values(
                    |c: LuaInstance| c.id,
                ) == tree_nodes(*t)[self.id].children,
                Err(e) => !tree_nodes(*t).contains_key(self.id) && e
                    == InstanceError::NodeDestroyed,
            }),
    {
        match resolve(t, self.id) {
            None => Err(InstanceError::NodeDestroyed),
            Some(rec) => {
                let mut out: Vec<LuaInstance> = Vec::new();
                let mut i: usize = 0;
                while i < rec.children.len()
                    invariant
                        i <= rec.children.len(),
                        out@.len() == i,
                        forall|j: int| 0 <= j < i ==> out@[j].id == rec.children@[j],
                    decreases rec.children.len() - i,
                {
                    out.push(LuaInstance { id: rec.children[i] });
                    i = i + 1;
                }
                proof {
                    assert(out@.map_values(|c: LuaInstance| c.id) =~= rec.children@);
                }
                Ok(out)
            },
        }
    }

    /// The node's name, for display; fails when the node no longer
    /// resolves.
    pub fn to_display_string(&self, t: &RbxTree) -> (r: Result<String, InstanceError>)
        ensures
            (match r {
                Ok(s) => tree_nodes(*t).contains_key(self.id) && s@ == tree_nodes(
                    *t,
                )[self.id].name,
                Err(e) => !tree_nodes(*t).contains_key(self.id) && e
                    == InstanceError::NodeDestroyed,
            }),
    {
        match resolve(t, self.id) {
            None => Err(InstanceError::NodeDestroyed),
            Some(rec) => Ok(rec.name),
        }
    }

    /// Dynamic member read: `Name` and `ClassName` as text, `Parent` as a
    /// handle (absence for the root or a parentless node), and any other
    /// key as a child lookup that fails with `InvalidMember` when nothing
    /// matches.
    pub fn get_member(&self, t: &RbxTree, key: &String) -> (r: Result<ScriptValue, InstanceError>)
        ensures
            (match r {
                Ok(v) => spec_member_read(tree_nodes(*t), tree_root(*t), self.id, key@) == Ok::<
                    MemberVal,
                    MemberErr,
                >(sv_view(v)),
                Err(e) => spec_member_read(tree_nodes(*t), tree_root(*t), self.id, key@) == Err::<
                    MemberVal,
                    MemberErr,
                >(err_view(e)),
            }),
    {
        let rec = match resolve(t, self.id) {
            None => {
                return Err(InstanceError::NodeDestroyed);
            },
            Some(rec) => rec,
        };
        if str_is(key, "Name") {
            Ok(ScriptValue::Text(rec.name))
        } else if str_is(key, "ClassName") {
            Ok(ScriptValue::Text(rec.class_name))
        } else if str_is(key, "Parent") {
            match rec.parent {
                None => Ok(ScriptValue::Nil),
                Some(p) => {
                    let root = get_root(t);
                    if ids_equal(p, root) {
                        Ok(ScriptValue::Nil)
                    } else {
                        Ok(ScriptValue::Instance(LuaInstance { id: p }))
                    }
                },
            }
        } else {
            match scan_children(t, &rec.children, key) {
                Some(c) => Ok(ScriptValue::Instance(c)),
                None => Err(InstanceError::InvalidMember(key.clone())),
            }
        }
    }

    /// Dynamic member write: renames on `Name` when the value is text,
    /// refuses `ClassName` always, moves the node on `Parent` — under the
    /// given handle's node, or under the root for absence — and fails with
    /// `InvalidMember` on every other key. A write on an unresolved node
    /// fails with `NodeDestroyed` before anything else is looked at, and a
    /// failed write leaves the store untouched.
    ///
    /// A `Parent` move is the store's own operation, which tolerates no
    /// missing destination, no move of the root, and no move of a node
    /// under its own subtree: those inputs are excluded here, as the store
    /// would otherwise abort on them.
    pub fn set_member(&self, t: &mut RbxTree, key: &String, value: ScriptValue) -> (r: Result<
        (),
        InstanceError,
    >)
        requires
            ({
                let m = tree_nodes(*old(t));
                let root = tree_root(*old(t));
                (key@ == "Parent"@ && m.contains_key(self.id) && (sv_view(value) is Node
                    || sv_view(value) is Nil)) ==> {
                    &&& wf_tree(m, root)
                    &&& self.id != root
                    &&& (sv_view(value) matches MemberVal::Node(p) ==> m.contains_key(p)
                        && !reaches(m, p, self.id))
                }
            }),
        ensures
            tree_root(*final(t)) == tree_root(*old(t)),
            (match spec_member_write(
                tree_nodes(*old(t)),
                tree_root(*old(t)),
                self.id,
                key@,
                sv_view(value),
            ) {
                Ok(m1) => r is Ok && tree_nodes(*final(t)) == m1,
                Err(e) => r matches Err(ee) && err_view(ee) == e && tree_nodes(*final(t))
                    == tree_nodes(*old(t)),
            }),
    {
        let live = match resolve(t, self.id) {
            Some(_) => true,
            None => false,
        };
        if !live {
            return Err(InstanceError::NodeDestroyed);
        }
        if str_is(key, "Name") {
            match value {
                ScriptValue::Text(s) => {
                    let ok = write_name(t, self.id, s);
                    assert(ok);  // the node resolved a moment ago, under the same exclusive access
                    Ok(())
                },
                _ => Err(InstanceError::TypeMismatch("Name must be a string".to_owned())),
            }
        } else if str_is(key, "ClassName") {
            Err(InstanceError::ReadOnlyMember("ClassName".to_owned()))
        } else if str_is(key, "Parent") {
            match value {
                ScriptValue::Instance(p) => {
                    reparent(t, self.id, p.id);
                    Ok(())
                },
                ScriptValue::Nil => {
                    let root = get_root(t);
                    proof {
                        lemma_parentless_reaches_nothing(tree_nodes(*t), root, self.id);
                    }
                    reparent(t, self.id, root);
                    Ok(())
                },
                _ => Err(InstanceError::TypeMismatch("Parent must be an Instance or nil".to_owned())),
            }
        } else {
            Err(InstanceError::InvalidMember(key.clone()))
        }
    }
}

} // verus!
