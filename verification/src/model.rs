use vstd::prelude::*;

use rbx_dom_weak::RbxId;

verus! {

/// Mathematical record of one tree node: its name, its class tag, its parent
/// (`None` only for the root), and the ids of its children, in order.
pub struct NodeModel {
    pub name: Seq<char>,
    pub class_name: Seq<char>,
    pub parent: Option<RbxId>,
    pub children: Seq<RbxId>,
}

/// A value crossing the member protocol, at the specification level: text, a
/// node, absence, or any other value the host runtime may hand over.
pub enum MemberVal {
    Text(Seq<char>),
    Node(RbxId),
    Nil,
    Other,
}

/// A failure of the member protocol, at the specification level, with the
/// offending key or a description of the expected value shape.
pub enum MemberErr {
    Destroyed,
    Invalid(Seq<char>),
    ReadOnly(Seq<char>),
    Mismatch(Seq<char>),
}

/// The first id among `kids` that is present in `m` with name `name`; ids
/// that are not in `m` are passed over silently.
pub open spec fn find_in(m: Map<RbxId, NodeModel>, kids: Seq<RbxId>, name: Seq<char>) -> Option<
    RbxId,
>
    decreases kids.len(),
{
    if kids.len() == 0 {
        None
    } else if m.contains_key(kids[0]) && m[kids[0]].name == name {
        Some(kids[0])
    } else {
        find_in(m, kids.skip(1), name)
    }
}

/// The parent chain starting at `y` meets `x` within `fuel` steps.
pub open spec fn chain_reaches(m: Map<RbxId, NodeModel>, y: RbxId, x: RbxId, fuel: nat) -> bool
    decreases fuel,
{
    if fuel == 0 {
        false
    } else {
        m.contains_key(y) && match m[y].parent {
            Some(p) => p == x || chain_reaches(m, p, x, (fuel - 1) as nat),
            None => false,
        }
    }
}

/// `x` stands somewhere on the parent chain above `y`; in a well-formed tree
/// this says exactly that `y` lies strictly below `x`.
pub open spec fn reaches(m: Map<RbxId, NodeModel>, y: RbxId, x: RbxId) -> bool {
    exists|fuel: nat| chain_reaches(m, y, x, fuel)
}

/// A node whose parent field is empty is at the top of every chain it
/// stands on: no parent chain starting there meets anything.
pub proof fn lemma_parentless_reaches_nothing(m: Map<RbxId, NodeModel>, y: RbxId, x: RbxId)
    requires
        m.contains_key(y) ==> m[y].parent is None,
    ensures
        !reaches(m, y, x),
{
    assert forall|fuel: nat| !chain_reaches(m, y, x, fuel) by {
        if fuel > 0 {
            assert(!chain_reaches(m, y, x, fuel));
        }
    }
}

/// The tree store's own shape invariant: the root is present and parentless,
/// every other node hangs off a present parent that lists it once among its
/// children, child links and parent links agree, and every node's parent
/// chain ends at the root (so the tree is finite and free of cycles).
pub open spec fn wf_tree(m: Map<RbxId, NodeModel>, root: RbxId) -> bool {
    &&& m.dom().finite()
    &&& m.contains_key(root)
    &&& m[root].parent is None
    &&& forall|y: RbxId|
        #[trigger] m.contains_key(y) && y != root ==> m[y].parent is Some && m.contains_key(
            m[y].parent->Some_0,
        ) && m[m[y].parent->Some_0].children.contains(y)
    &&& forall|y: RbxId, i: int|
        m.contains_key(y) && 0 <= i < m[y].children.len() ==> m.contains_key(
            #[trigger] m[y].children[i],
        ) && m[m[y].children[i]].parent == Some(y)
    &&& forall|y: RbxId, i: int, j: int|
        m.contains_key(y) && 0 <= i < j < m[y].children.len() ==> #[trigger] m[y].children[i]
            != #[trigger] m[y].children[j]
    &&& forall|y: RbxId| #[trigger] m.contains_key(y) && y != root ==> reaches(m, y, root)
}

/// `kids` with every occurrence of `x` taken out, order kept: what the
/// store leaves of a child list after unlinking `x`.
pub open spec fn drop_child(kids: Seq<RbxId>, x: RbxId) -> Seq<RbxId> {
    kids.filter(|c: RbxId| c != x)
}

/// Everything the unlinking keeps was already there, and none of it is `x`.
pub proof fn lemma_drop_child_subset(kids: Seq<RbxId>, x: RbxId, i: int)
    requires
        0 <= i < drop_child(kids, x).len(),
    ensures
        kids.contains(drop_child(kids, x)[i]),
        drop_child(kids, x)[i] != x,
    decreases kids.len(),
{
    broadcast use vstd::seq_lib::group_filter_ensures;

    reveal(Seq::filter);
    if kids.len() > 0 {
        let sub = drop_child(kids.drop_last(), x);
        if i < sub.len() {
            lemma_drop_child_subset(kids.drop_last(), x, i);
            let j = choose|j: int|
                0 <= j < kids.drop_last().len() && kids.drop_last()[j] == sub[i];
            assert(kids[j] == drop_child(kids, x)[i]);
        } else {
            assert(drop_child(kids, x)[i] == kids.last());
        }
    }
}

/// Everything else is kept: a child other than `x` survives the unlinking.
pub proof fn lemma_drop_child_keeps(kids: Seq<RbxId>, x: RbxId, c: RbxId)
    requires
        kids.contains(c),
        c != x,
    ensures
        drop_child(kids, x).contains(c),
{
    broadcast use vstd::seq_lib::group_filter_ensures;

    let i = choose|i: int| 0 <= i < kids.len() && kids[i] == c;
    assert(drop_child(kids, x).contains(kids[i]));
}

/// Unlinking keeps a duplicate-free child list duplicate-free.
pub proof fn lemma_drop_child_no_dup(kids: Seq<RbxId>, x: RbxId)
    requires
        forall|i: int, j: int| 0 <= i < j < kids.len() ==> kids[i] != kids[j],
    ensures
        forall|i: int, j: int|
            0 <= i < j < drop_child(kids, x).len() ==> drop_child(kids, x)[i] != drop_child(
                kids,
                x,
            )[j],
    decreases kids.len(),
{
    reveal(Seq::filter);
    if kids.len() > 0 {
        lemma_drop_child_no_dup(kids.drop_last(), x);
        let sub = drop_child(kids.drop_last(), x);
        assert forall|i: int, j: int|
            0 <= i < j < drop_child(kids, x).len() implies drop_child(kids, x)[i] != drop_child(
            kids,
            x,
        )[j] by {
            if j < sub.len() {
                assert(drop_child(kids, x)[i] == sub[i] && drop_child(kids, x)[j] == sub[j]);
            } else if kids.last() != x {
                assert(drop_child(kids, x)[j] == kids.last());
                assert(drop_child(kids, x)[i] == sub[i]);
                lemma_drop_child_subset(kids.drop_last(), x, i);
                let k = choose|k: int|
                    0 <= k < kids.drop_last().len() && kids.drop_last()[k] == sub[i];
                assert(kids[k] == sub[i] && kids.last() == kids[kids.len() - 1]);
            }
        }
    }
}

/// A node that is its own parent never reaches anything: its chain loops.
pub proof fn lemma_self_parent_reaches_nothing(m: Map<RbxId, NodeModel>, y: RbxId, x: RbxId)
    requires
        m.contains_key(y),
        m[y].parent == Some(y),
        x != y,
    ensures
        !reaches(m, y, x),
{
    assert forall|fuel: nat| !chain_reaches(m, y, x, fuel) by {
        lemma_self_parent_chain(m, y, x, fuel);
    }
}

proof fn lemma_self_parent_chain(m: Map<RbxId, NodeModel>, y: RbxId, x: RbxId, fuel: nat)
    requires
        m.contains_key(y),
        m[y].parent == Some(y),
        x != y,
    ensures
        !chain_reaches(m, y, x, fuel),
    decreases fuel,
{
    if fuel > 0 {
        lemma_self_parent_chain(m, y, x, (fuel - 1) as nat);
    }
}

/// A chain only reads parent links: between two stores whose parent links
/// agree everywhere, the same fuel carries `y` to `tgt`.
pub proof fn lemma_chain_parents_agree(
    m: Map<RbxId, NodeModel>,
    m2: Map<RbxId, NodeModel>,
    y: RbxId,
    tgt: RbxId,
    n: nat,
)
    requires
        chain_reaches(m, y, tgt, n),
        forall|z: RbxId| #![trigger m2.contains_key(z)]
            m2.contains_key(z) == m.contains_key(z) && (m.contains_key(z) ==> m2[z].parent
                == m[z].parent),
    ensures
        chain_reaches(m2, y, tgt, n),
    decreases n,
{
    let q = m[y].parent->Some_0;
    assert(m2.contains_key(y));
    assert(m2[y].parent == m[y].parent);
    if q != tgt {
        lemma_chain_parents_agree(m, m2, q, tgt, (n - 1) as nat);
    }
}

/// A chain that never meets `x` survives a change of `x`'s parent link: the
/// same fuel still carries `y` to `tgt` in the altered store `m2`.
pub proof fn lemma_chain_avoids_changed_node(
    m: Map<RbxId, NodeModel>,
    m2: Map<RbxId, NodeModel>,
    x: RbxId,
    y: RbxId,
    tgt: RbxId,
    n: nat,
)
    requires
        chain_reaches(m, y, tgt, n),
        y != x,
        !reaches(m, y, x),
        forall|z: RbxId| #![trigger m2.contains_key(z)]
            z != x ==> m2.contains_key(z) == m.contains_key(z) && (m.contains_key(z)
                ==> m2[z].parent == m[z].parent),
    ensures
        chain_reaches(m2, y, tgt, n),
    decreases n,
{
    let q = m[y].parent->Some_0;
    assert(m2.contains_key(y));
    assert(m2[y].parent == m[y].parent);
    if q != tgt {
        assert(q != x) by {
            if q == x {
                assert(chain_reaches(m, y, x, 1));
                assert(false);
            }
        }
        assert(!reaches(m, q, x)) by {
            if reaches(m, q, x) {
                let k = choose|k: nat| chain_reaches(m, q, x, k);
                assert(chain_reaches(m, y, x, k + 1));
                assert(false);
            }
        }
        lemma_chain_avoids_changed_node(m, m2, x, q, tgt, (n - 1) as nat);
    }
}

/// When only `x`'s parent link changed and `x` itself still reaches `tgt`
/// in the altered store, every chain that reached `tgt` before still does:
/// it either avoids `x` or passes through it and continues on `x`'s new way
/// up.
pub proof fn lemma_chain_rerouted(
    m: Map<RbxId, NodeModel>,
    m2: Map<RbxId, NodeModel>,
    x: RbxId,
    y: RbxId,
    tgt: RbxId,
    n: nat,
    fx: nat,
)
    requires
        chain_reaches(m, y, tgt, n),
        chain_reaches(m2, x, tgt, fx),
        forall|z: RbxId| #![trigger m2.contains_key(z)]
            z != x ==> m2.contains_key(z) == m.contains_key(z) && (m.contains_key(z)
                ==> m2[z].parent == m[z].parent),
    ensures
        reaches(m2, y, tgt),
    decreases n,
{
    if y == x {
        assert(chain_reaches(m2, y, tgt, fx));
    } else {
        let q = m[y].parent->Some_0;
        assert(m2.contains_key(y));
        assert(m2[y].parent == m[y].parent);
        if q == tgt {
            assert(chain_reaches(m2, y, tgt, n));
        } else {
            lemma_chain_rerouted(m, m2, x, q, tgt, (n - 1) as nat, fx);
            let f = choose|f: nat| chain_reaches(m2, q, tgt, f);
            assert(chain_reaches(m2, y, tgt, f + 1));
        }
    }
}

/// The store after moving node `x` under `d`, exactly as the store performs
/// it: `x` leaves its old parent's child list, records `d` as its parent, and
/// is appended to `d`'s child list. Meaningful only when `x` has a parent.
pub open spec fn spec_reparent(m: Map<RbxId, NodeModel>, x: RbxId, d: RbxId) -> Map<
    RbxId,
    NodeModel,
> {
    match m[x].parent {
        Some(p) => {
            let m1 = m.insert(p, (NodeModel { children: drop_child(m[p].children, x), ..m[p] }));
            let m2 = m1.insert(x, (NodeModel { parent: Some(d), ..m1[x] }));
            m2.insert(d, (NodeModel { children: m2[d].children.push(x), ..m2[d] }))
        },
        None => m,
    }
}

/// What a dynamic member read returns: the name or class tag as text, the
/// parent as a node (with the root never handed out: absence instead), and
/// any other key as a child lookup that fails loudly when nothing matches.
pub open spec fn spec_member_read(
    m: Map<RbxId, NodeModel>,
    root: RbxId,
    id: RbxId,
    key: Seq<char>,
) -> Result<MemberVal, MemberErr> {
    if !m.contains_key(id) {
        Err(MemberErr::Destroyed)
    } else if key == "Name"@ {
        Ok(MemberVal::Text(m[id].name))
    } else if key == "ClassName"@ {
        Ok(MemberVal::Text(m[id].class_name))
    } else if key == "Parent"@ {
        match m[id].parent {
            Some(p) => if p == root {
                Ok(MemberVal::Nil)
            } else {
                Ok(MemberVal::Node(p))
            },
            None => Ok(MemberVal::Nil),
        }
    } else {
        match find_in(m, m[id].children, key) {
            Some(c) => Ok(MemberVal::Node(c)),
            None => Err(MemberErr::Invalid(key)),
        }
    }
}

/// What a dynamic member write does: renames on `Name` when the value is
/// text, refuses `ClassName` always, moves the node on `Parent` (under the
/// root when the value is absence), and fails on every other key. On success
/// the new store is returned; on failure the store is untouched.
pub open spec fn spec_member_write(
    m: Map<RbxId, NodeModel>,
    root: RbxId,
    id: RbxId,
    key: Seq<char>,
    v: MemberVal,
) -> Result<Map<RbxId, NodeModel>, MemberErr> {
    if !m.contains_key(id) {
        Err(MemberErr::Destroyed)
    } else if key == "Name"@ {
        match v {
            MemberVal::Text(s) => Ok(m.insert(id, (NodeModel { name: s, ..m[id] }))),
            _ => Err(MemberErr::Mismatch("Name must be a string"@)),
        }
    } else if key == "ClassName"@ {
        Err(MemberErr::ReadOnly("ClassName"@))
    } else if key == "Parent"@ {
        match v {
            MemberVal::Node(p) => Ok(spec_reparent(m, id, p)),
            MemberVal::Nil => Ok(spec_reparent(m, id, root)),
            _ => Err(MemberErr::Mismatch("Parent must be an Instance or nil"@)),
        }
    } else {
        Err(MemberErr::Invalid(key))
    }
}

} // verus!
