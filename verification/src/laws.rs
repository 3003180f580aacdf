//! The protocol's general guarantees, proved once and for all over the
//! specification-level model that the executable contracts speak of.

use vstd::prelude::*;

use rbx_dom_weak::RbxId;

use crate::instance::{same_handle, LuaInstance};
use crate::model::{
    chain_reaches, drop_child, find_in, lemma_chain_avoids_changed_node, lemma_chain_parents_agree,
    lemma_chain_rerouted, lemma_drop_child_keeps, lemma_drop_child_no_dup,
    lemma_drop_child_subset, lemma_parentless_reaches_nothing, lemma_self_parent_reaches_nothing,
    reaches, spec_member_read, spec_member_write, spec_reparent, wf_tree, MemberErr, MemberVal,
    NodeModel,
};

verus! {

/// Handle equality is an equivalence over identifiers: every handle equals
/// itself, equality is symmetric, and it is transitive.
pub proof fn lemma_handle_equality_equivalence(a: LuaInstance, b: LuaInstance, c: LuaInstance)
    ensures
        same_handle(a, a),
        same_handle(a, b) == same_handle(b, a),
        same_handle(a, b) && same_handle(b, c) ==> same_handle(a, c),
{
}

/// After a node is moved under `p`, reading its `Parent` member yields `p` —
/// unless `p` is the root, which is never handed out: absence instead. The
/// hypotheses are the ones under which the store carries the move out.
pub proof fn lemma_set_parent_then_get_parent(
    m: Map<RbxId, NodeModel>,
    root: RbxId,
    h: RbxId,
    p: RbxId,
)
    requires
        wf_tree(m, root),
        m.contains_key(h),
        h != root,
        m.contains_key(p),
        !reaches(m, p, h),
    ensures
        spec_member_write(m, root, h, "Parent"@, MemberVal::Node(p)) matches Ok(m1)
            && spec_member_read(m1, root, h, "Parent"@) == (if p == root {
            Ok::<MemberVal, MemberErr>(MemberVal::Nil)
        } else {
            Ok::<MemberVal, MemberErr>(MemberVal::Node(p))
        }),
{
    broadcast use vstd::string::group_string_axioms;

    reveal_strlit("Name");
    reveal_strlit("ClassName");
    reveal_strlit("Parent");
    assert("Parent"@.len() == 6);
    assert("Parent"@ != "Name"@);
    assert("Parent"@ != "ClassName"@);
}

/// After a node is moved with absence as the new parent, it hangs directly
/// under the root, so reading its `Parent` member yields absence.
pub proof fn lemma_clear_parent_then_get_parent(m: Map<RbxId, NodeModel>, root: RbxId, h: RbxId)
    requires
        m.contains_key(h),
    ensures
        spec_member_write(m, root, h, "Parent"@, MemberVal::Nil) matches Ok(m1)
            && spec_member_read(m1, root, h, "Parent"@) == Ok::<MemberVal, MemberErr>(
            MemberVal::Nil,
        ) && (m[h].parent is Some ==> m1[h].parent == Some(root)),
{
    broadcast use vstd::string::group_string_axioms;

    reveal_strlit("Name");
    reveal_strlit("ClassName");
    reveal_strlit("Parent");
    assert("Parent"@.len() == 6);
    assert("Parent"@ != "Name"@);
    assert("Parent"@ != "ClassName"@);
}

/// The child lookup is sound and complete: a hit is one of the given ids,
/// live, and carries the looked-up name; a miss means no live child of that
/// name stands among them at all.
pub proof fn lemma_find_child_named(m: Map<RbxId, NodeModel>, kids: Seq<RbxId>, name: Seq<char>)
    ensures
        (match find_in(m, kids, name) {
            Some(c) => kids.contains(c) && m.contains_key(c) && m[c].name == name,
            None => forall|i: int|
                0 <= i < kids.len() ==> !(m.contains_key(#[trigger] kids[i]) && m[kids[i]].name
                    == name),
        }),
    decreases kids.len(),
{
    if kids.len() > 0 {
        if !(m.contains_key(kids[0]) && m[kids[0]].name == name) {
            lemma_find_child_named(m, kids.skip(1), name);
            match find_in(m, kids.skip(1), name) {
                Some(c) => {
                    let i = choose|i: int| 0 <= i < kids.skip(1).len() && kids.skip(1)[i] == c;
                    assert(kids[i + 1] == c);
                },
                None => {
                    assert forall|i: int|
                        0 <= i < kids.len() implies !(m.contains_key(#[trigger] kids[i])
                        && m[kids[i]].name == name) by {
                        if i > 0 {
                            assert(kids.skip(1)[i - 1] == kids[i]);
                        }
                    }
                },
            }
        }
    }
}

/// A found child reads back its name: when the children of a live node are
/// scanned for `name` and one is found, reading that child's `Name` member
/// yields exactly `name`; when none is found, no live child carries it.
pub proof fn lemma_find_child_name_reads_back(
    m: Map<RbxId, NodeModel>,
    root: RbxId,
    h: RbxId,
    name: Seq<char>,
)
    requires
        m.contains_key(h),
    ensures
        (match find_in(m, m[h].children, name) {
            Some(c) => spec_member_read(m, root, c, "Name"@) == Ok::<MemberVal, MemberErr>(
                MemberVal::Text(name),
            ),
            None => forall|i: int|
                0 <= i < m[h].children.len() ==> !(m.contains_key(#[trigger] m[h].children[i])
                    && m[m[h].children[i]].name == name),
        }),
{
    lemma_find_child_named(m, m[h].children, name);
}

/// A generic read of a key that is no special member and matches no child
/// is a hard failure naming the key, where the explicit child lookup would
/// have answered with absence: the two are never conflated.
pub proof fn lemma_unknown_key_read_fails(
    m: Map<RbxId, NodeModel>,
    root: RbxId,
    h: RbxId,
    key: Seq<char>,
)
    requires
        m.contains_key(h),
        key != "Name"@,
        key != "ClassName"@,
        key != "Parent"@,
        find_in(m, m[h].children, key) is None,
    ensures
        spec_member_read(m, root, h, key) == Err::<MemberVal, MemberErr>(MemberErr::Invalid(key)),
{
}

/// Writing `ClassName` of a live node fails as read-only, whatever the
/// value and whatever the node's state.
pub proof fn lemma_class_name_read_only(
    m: Map<RbxId, NodeModel>,
    root: RbxId,
    h: RbxId,
    v: MemberVal,
)
    requires
        m.contains_key(h),
    ensures
        spec_member_write(m, root, h, "ClassName"@, v) == Err::<
            Map<RbxId, NodeModel>,
            MemberErr,
        >(MemberErr::ReadOnly("ClassName"@)),
{
    broadcast use vstd::string::group_string_axioms;

    reveal_strlit("Name");
    reveal_strlit("ClassName");
    assert("ClassName"@.len() == 9);
    assert("ClassName"@ != "Name"@);
}

/// Writing `Name` with a non-text value fails as a type mismatch; writing
/// it with text succeeds, and the new name reads straight back.
pub proof fn lemma_name_write_round_trip(
    m: Map<RbxId, NodeModel>,
    root: RbxId,
    h: RbxId,
    v: MemberVal,
    s: Seq<char>,
)
    requires
        m.contains_key(h),
    ensures
        !(v is Text) ==> spec_member_write(m, root, h, "Name"@, v) == Err::<
            Map<RbxId, NodeModel>,
            MemberErr,
        >(MemberErr::Mismatch("Name must be a string"@)),
        spec_member_write(m, root, h, "Name"@, MemberVal::Text(s)) matches Ok(m1)
            && spec_member_read(m1, root, h, "Name"@) == Ok::<MemberVal, MemberErr>(
            MemberVal::Text(s),
        ),
{
}

/// Once a node is gone from the store, every member read and every member
/// write through any handle to it fails with the destruction error — while
/// two handles to that same id still compare equal.
pub proof fn lemma_destroyed_fails_everything(
    m: Map<RbxId, NodeModel>,
    root: RbxId,
    h: RbxId,
    key: Seq<char>,
    v: MemberVal,
    a: LuaInstance,
    b: LuaInstance,
)
    requires
        !m.contains_key(h),
        a.id == h,
        b.id == h,
    ensures
        spec_member_read(m, root, h, key) == Err::<MemberVal, MemberErr>(MemberErr::Destroyed),
        spec_member_write(m, root, h, key, v) == Err::<Map<RbxId, NodeModel>, MemberErr>(
            MemberErr::Destroyed,
        ),
        same_handle(a, b),
{
}


/// A parent move keeps the store well-formed: moving a live, non-root node
/// under a live destination that lies neither at nor below the node itself
/// yields a store with the same shape invariant. (Moving a node under its
/// own id is the one move the store carries out without keeping its shape,
/// so it stands outside this law.)
pub proof fn lemma_reparent_preserves_wf(m: Map<RbxId, NodeModel>, root: RbxId, x: RbxId, d: RbxId)
    requires
        wf_tree(m, root),
        m.contains_key(x),
        x != root,
        m.contains_key(d),
        d != x,
        !reaches(m, d, x),
    ensures
        wf_tree(spec_reparent(m, x, d), root),
{
    let p = m[x].parent->Some_0;
    assert(m[x].parent is Some && m.contains_key(p) && m[p].children.contains(x));
    assert(p != x) by {
        if p == x {
            lemma_self_parent_reaches_nothing(m, x, root);
        }
    }
    let mm = spec_reparent(m, x, d);
    assert(mm.dom() =~= m.dom());
    assert(mm[x].parent == Some(d));
    assert forall|z: RbxId| z != x && m.contains_key(z) implies #[trigger] mm[z].parent
        == m[z].parent by {}
    assert(mm[x].children == m[x].children);

    // The root keeps its empty parent field.
    assert(mm.contains_key(root) && mm[root].parent is None);

    // Every non-root node hangs off a present parent that lists it.
    assert forall|y: RbxId| #[trigger] mm.contains_key(y) && y != root implies mm[y].parent is Some
        && mm.contains_key(mm[y].parent->Some_0) && mm[mm[y].parent->Some_0].children.contains(
        y,
    ) by {
        if y == x {
            assert(mm[d].children[mm[d].children.len() - 1] == x);
        } else {
            let q = m[y].parent->Some_0;
            assert(m[y].parent is Some && m.contains_key(q) && m[q].children.contains(y));
            assert(mm[y].parent == Some(q));
            if q == p {
                lemma_drop_child_keeps(m[p].children, x, y);
                if p == d {
                    let i = choose|i: int|
                        0 <= i < drop_child(m[p].children, x).len() && drop_child(
                            m[p].children,
                            x,
                        )[i] == y;
                    assert(mm[d].children[i] == y);
                }
            } else if q == d {
                let i = choose|i: int| 0 <= i < m[d].children.len() && m[d].children[i] == y;
                assert(mm[d].children[i] == y);
            }
        }
    }

    // Every listed child is present and points back at its lister.
    assert forall|y: RbxId, i: int|
        mm.contains_key(y) && 0 <= i < mm[y].children.len() implies mm.contains_key(
        #[trigger] mm[y].children[i],
    ) && mm[mm[y].children[i]].parent == Some(y) by {
        let c = mm[y].children[i];
        if y == d {
            if i == mm[d].children.len() - 1 {
                assert(c == x && mm[x].parent == Some(d));
            } else if p == d {
                lemma_drop_child_subset(m[p].children, x, i);
                let j = choose|j: int|
                    0 <= j < m[p].children.len() && m[p].children[j] == c;
                assert(m[m[p].children[j]].parent == Some(p));
            } else {
                assert(c == m[d].children[i] && m[c].parent == Some(d));
                assert(c != x);
            }
        } else if y == p {
            lemma_drop_child_subset(m[p].children, x, i);
            let j = choose|j: int| 0 <= j < m[p].children.len() && m[p].children[j] == c;
            assert(m[m[p].children[j]].parent == Some(p));
        } else {
            assert(c == m[y].children[i] && m[c].parent == Some(y));
            assert(c != x);
        }
    }

    // Child lists stay duplicate-free.
    assert forall|y: RbxId, i: int, j: int|
        mm.contains_key(y) && 0 <= i < j < mm[y].children.len() implies #[trigger] mm[y].children[i]
        != #[trigger] mm[y].children[j] by {
        if y == d {
            if p == d {
                lemma_drop_child_no_dup(m[p].children, x);
                if j == mm[d].children.len() - 1 {
                    lemma_drop_child_subset(m[p].children, x, i);
                }
            } else {
                if j == mm[d].children.len() - 1 {
                    assert(mm[d].children[j] == x);
                    assert(mm[d].children[i] == m[d].children[i]);
                    assert(m[d].children[i] != x) by {
                        if m[d].children[i] == x {
                            assert(m[x].parent == Some(d));
                        }
                    }
                } else {
                    assert(mm[d].children[i] == m[d].children[i]);
                    assert(mm[d].children[j] == m[d].children[j]);
                }
            }
        } else if y == p {
            lemma_drop_child_no_dup(m[p].children, x);
        }
    }

    // Every node still reaches the root: chains that avoided the moved node
    // are untouched, and chains through it continue along its new way up.
    assert forall|z: RbxId| #![trigger mm.contains_key(z)]
        z != x ==> mm.contains_key(z) == m.contains_key(z) && (m.contains_key(z) ==> mm[z].parent
            == m[z].parent) by {}
    let fx: nat = if d == root {
        assert(chain_reaches(mm, x, root, 1));
        1
    } else {
        assert(reaches(m, d, root));
        let nd = choose|nd: nat| chain_reaches(m, d, root, nd);
        lemma_chain_avoids_changed_node(m, mm, x, d, root, nd);
        assert(chain_reaches(mm, x, root, nd + 1));
        nd + 1
    };
    assert forall|y: RbxId| #[trigger] mm.contains_key(y) && y != root implies reaches(
        mm,
        y,
        root,
    ) by {
        assert(reaches(m, y, root));
        let n = choose|n: nat| chain_reaches(m, y, root, n);
        lemma_chain_rerouted(m, mm, x, y, root, n, fx);
    }
}


/// No write leaves the store out of shape: a member write that succeeds
/// yields a well-formed store again, and one that fails changed nothing.
/// For a `Parent` move the hypotheses are the ones under which the store
/// carries the move out, with the moved node's own id also kept out of the
/// destination.
pub proof fn lemma_write_preserves_wf(
    m: Map<RbxId, NodeModel>,
    root: RbxId,
    h: RbxId,
    key: Seq<char>,
    v: MemberVal,
)
    requires
        wf_tree(m, root),
        (key == "Parent"@ && m.contains_key(h) && (v is Node || v is Nil)) ==> h != root && (
        v matches MemberVal::Node(p) ==> m.contains_key(p) && p != h && !reaches(m, p, h)),
    ensures
        (match spec_member_write(m, root, h, key, v) {
            Ok(m1) => wf_tree(m1, root),
            Err(_) => true,
        }),
{
    if m.contains_key(h) && key == "Name"@ && v is Text {
        let m1 = spec_member_write(m, root, h, key, v)->Ok_0;
        assert(m1.dom() =~= m.dom());
        assert forall|z: RbxId| #![trigger m1.contains_key(z)]
            m1.contains_key(z) == m.contains_key(z) && (m.contains_key(z) ==> m1[z].parent
                == m[z].parent && m1[z].children == m[z].children) by {}
        assert forall|y: RbxId| #[trigger] m1.contains_key(y) && y != root implies reaches(
            m1,
            y,
            root,
        ) by {
            let n = choose|n: nat| chain_reaches(m, y, root, n);
            lemma_chain_parents_agree(m, m1, y, root, n);
        }
    } else if m.contains_key(h) && key == "Parent"@ {
        match v {
            MemberVal::Node(p) => {
                lemma_reparent_preserves_wf(m, root, h, p);
            },
            MemberVal::Nil => {
                lemma_parentless_reaches_nothing(m, root, h);
                lemma_reparent_preserves_wf(m, root, h, root);
            },
            _ => {},
        }
    }
}

} // verus!
