//! Edits of loaded snapshots after a deletion: locating a path in a
//! snapshot, pruning it, and recomputing directory sizes bottom-up.
use crate::delta_cache::{key_view, relative_components, relative_to};
use crate::model::{flags_dir, sat_add, str_eq, NodeIndex, Snapshot, ROOT_NODE};
use vstd::prelude::*;

verus! {

/// The components of `full` below `base`; `None` when `full` is not below
/// `base`, or is `base` itself.
pub open spec fn components_below(base: Seq<char>, full: Seq<char>) -> Option<Seq<Seq<char>>> {
    match relative_to(full, base) {
        Some(rel) => if rel.len() > 0 {
            Some(rel)
        } else {
            None
        },
        None => None,
    }
}

/// Path components of `full` relative to `base`, or `None` when there are
/// none.
pub fn path_to_components(base: &str, full: &str) -> (r: Option<Vec<String>>)
    ensures
        match r {
            Some(v) => components_below(base@, full@) == Some(key_view(v)),
            None => components_below(base@, full@) is None,
        },
{
    match relative_components(base, full) {
        Some(v) => if v.len() > 0 {
            Some(v)
        } else {
            None
        },
        None => None,
    }
}

/// The node reached from `idx` by taking, for each component in turn, the
/// first child with that name.
pub open spec fn descend(snap: Snapshot, idx: int, comps: Seq<Seq<char>>) -> Option<NodeIndex>
    decreases comps.len(),
{
    if comps.len() == 0 {
        Some(idx as NodeIndex)
    } else {
        match snap.first_named(snap.children_of(idx), comps[0]) {
            Some(c) => descend(snap, c as int, comps.drop_first()),
            None => None,
        }
    }
}

/// Children of a well-formed snapshot name nodes.
pub proof fn lemma_children_in_range(snap: Snapshot, p: int)
    requires
        snap.wf(),
    ensures
        forall|i: int| 0 <= i < snap.children_of(p).len() ==> (#[trigger] snap.children_of(p)[i] as int) < snap.nodes@.len(),
{
    assert forall|i: int| 0 <= i < snap.children_of(p).len() implies (#[trigger] snap.children_of(p)[i] as int) < snap.nodes@.len() by {
        let st = snap.child_start@[p] as int;
        assert(snap.children_of(p)[i] == snap.child_index@[st + i]);
    }
}

/// The first child with a given name is one of the children.
pub proof fn lemma_first_named_member(snap: Snapshot, kids: Seq<NodeIndex>, name: Seq<char>)
    ensures
        snap.first_named(kids, name) matches Some(c) ==> exists|i: int| 0 <= i < kids.len() && kids[i] == c,
    decreases kids.len(),
{
    if kids.len() > 0 && snap.name_of(kids[0] as int) != name {
        lemma_first_named_member(snap, kids.drop_first(), name);
        if let Some(c) = snap.first_named(kids, name) {
            let i = choose|i: int| 0 <= i < kids.drop_first().len() && kids.drop_first()[i] == c;
            assert(kids[i + 1] == c);
        }
    }
    if kids.len() > 0 && snap.name_of(kids[0] as int) == name {
        assert(kids[0] == kids[0]);
    }
}

/// A first-named child of a node of a well-formed snapshot is a node.
pub proof fn lemma_first_named_node(snap: Snapshot, p: int, name: Seq<char>)
    requires
        snap.wf(),
    ensures
        snap.first_named(snap.children_of(p), name) matches Some(c) ==> (c as int) < snap.nodes@.len(),
{
    lemma_children_in_range(snap, p);
    lemma_first_named_member(snap, snap.children_of(p), name);
}

/// The size stored for the node at `deleted_path` in `snapshot`, or 0 when
/// the path is not in it.
pub open spec fn size_at(snapshot: Snapshot, deleted_path: Seq<char>) -> u64 {
    match components_below(snapshot.root_path@, deleted_path) {
        Some(comps) => match descend(snapshot, 0, comps) {
            Some(t) => snapshot.nodes@[t as int].size,
            None => 0,
        },
        None => 0,
    }
}

/// Size of the node at `deleted_path` within `snapshot`, or 0 when the
/// path is not in it (the snapshot is not changed).
pub fn node_size_in_snapshot(snapshot: &Snapshot, deleted_path: &str) -> (r: u64)
    requires
        snapshot.wf(),
    ensures
        r == size_at(*snapshot, deleted_path@),
{
    let components = match path_to_components(snapshot.root_path.as_str(), deleted_path) {
        Some(c) => c,
        None => {
            return 0;
        },
    };
    let ghost comps = key_view(components);
    let mut idx: NodeIndex = ROOT_NODE;
    let mut step: usize = 0;
    proof {
        assert(comps.skip(0) =~= comps);
    }
    while step < components.len()
        invariant
            snapshot.wf(),
            comps == key_view(components),
            components_below(snapshot.root_path@, deleted_path@) == Some(comps),
            comps.len() > 0,
            step <= comps.len(),
            (idx as int) < snapshot.nodes@.len(),
            descend(*snapshot, 0, comps) == descend(*snapshot, idx as int, comps.skip(step as int)),
        decreases comps.len() - step,
    {
        proof {
            lemma_first_named_node(*snapshot, idx as int, comps[step as int]);
            assert(comps.skip(step as int)[0] == comps[step as int]);
            assert(comps.skip(step as int).drop_first() =~= comps.skip(step + 1));
        }
        match snapshot.child_idx(idx, components[step].as_str()) {
            Some(c) => {
                idx = c;
            },
            None => {
                proof {
                    assert(descend(*snapshot, idx as int, comps.skip(step as int)) is None);
                }
                return 0;
            },
        }
        step = step + 1;
    }
    proof {
        assert(comps.skip(comps.len() as int) =~= Seq::<Seq<char>>::empty());
    }
    snapshot.node(idx).size()
}

} // verus!

verus! {

/// What a node contributes to a recomputed total by itself: its size when
/// it is a childless non-directory, else 0.
pub open spec fn leaf_value(snap: Snapshot, u: int) -> u64 {
    if 0 <= u < snap.nodes@.len() && snap.children_of(u).len() == 0 && !flags_dir(snap.nodes@[u].flags) {
        snap.nodes@[u].size
    } else {
        0
    }
}

/// Total of the subtree at `idx`, given each node's children and each
/// childless node's own value: a childless node counts its own value,
/// another the saturating sum of its children's totals, in order. Only
/// children after their parent are followed.
pub open spec fn subtree_total(
    kids: spec_fn(int) -> Seq<NodeIndex>,
    leaf: spec_fn(int) -> u64,
    n: int,
    idx: int,
) -> u64
    decreases n - idx, 1int, 0int,
{
    if idx < 0 || idx >= n {
        0
    } else if kids(idx).len() == 0 {
        leaf(idx)
    } else {
        kids_sum(kids, leaf, n, idx, kids(idx).len() as int)
    }
}

/// Saturating sum of the totals of the first `j` children of `idx`.
pub open spec fn kids_sum(
    kids: spec_fn(int) -> Seq<NodeIndex>,
    leaf: spec_fn(int) -> u64,
    n: int,
    idx: int,
    j: int,
) -> u64
    decreases n - idx, 0int, j,
{
    if j <= 0 || idx < 0 || idx >= n {
        0
    } else {
        let c = kids(idx)[j - 1] as int;
        sat_add(
            kids_sum(kids, leaf, n, idx, j - 1),
            if idx < c < n {
                subtree_total(kids, leaf, n, c)
            } else {
                0
            },
        )
    }
}

/// Node `u` lies in the subtree at `idx`.
pub open spec fn reaches_in(kids: spec_fn(int) -> Seq<NodeIndex>, n: int, idx: int, u: int) -> bool
    decreases n - idx, 1int, 0int,
{
    if idx < 0 || idx >= n {
        false
    } else {
        u == idx || reaches_kids(kids, n, idx, kids(idx).len() as int, u)
    }
}

/// Node `u` lies in the subtree of one of the first `j` children of `idx`.
pub open spec fn reaches_kids(kids: spec_fn(int) -> Seq<NodeIndex>, n: int, idx: int, j: int, u: int) -> bool
    decreases n - idx, 0int, j,
{
    if j <= 0 || idx < 0 || idx >= n {
        false
    } else {
        let c = kids(idx)[j - 1] as int;
        reaches_kids(kids, n, idx, j - 1, u) || (idx < c < n && reaches_in(kids, n, c, u))
    }
}

/// The recomputed size of node `idx` of `snap`.
pub open spec fn recomputed(snap: Snapshot, idx: int) -> u64 {
    subtree_total(|p: int| snap.children_of(p), |u: int| leaf_value(snap, u), snap.nodes@.len() as int, idx)
}

/// Node `u` lies in the subtree at `idx` of `snap`.
pub open spec fn reaches(snap: Snapshot, idx: int, u: int) -> bool {
    reaches_in(|p: int| snap.children_of(p), snap.nodes@.len() as int, idx, u)
}

/// `b` is `a` with only node sizes changed, childless non-directories
/// keeping theirs.
pub open spec fn same_leaves(a: Snapshot, b: Snapshot) -> bool {
    &&& b == (Snapshot { nodes: b.nodes, ..a })
    &&& b.nodes@.len() == a.nodes@.len()
    &&& forall|u: int|
        0 <= u < a.nodes@.len() ==> crate::model::same_shape(#[trigger] b.nodes@[u], a.nodes@[u]) && leaf_value(b, u)
            == leaf_value(a, u)
}

/// Snapshots with the same leaves have the same recomputed sizes and the
/// same subtrees.
proof fn lemma_same_leaves_agree(a: Snapshot, b: Snapshot)
    requires
        same_leaves(a, b),
    ensures
        forall|idx: int| #[trigger] recomputed(b, idx) == recomputed(a, idx),
        forall|idx: int, u: int| #[trigger] reaches(b, idx, u) == reaches(a, idx, u),
{
    assert((|p: int| b.children_of(p)) =~= (|p: int| a.children_of(p)));
    assert forall|u: int| #[trigger] leaf_value(b, u) == leaf_value(a, u) by {
        if 0 <= u < a.nodes@.len() {
            assert(same_shape_leaf(a, b, u));
        }
    }
    assert((|u: int| leaf_value(b, u)) =~= (|u: int| leaf_value(a, u)));
}

spec fn same_shape_leaf(a: Snapshot, b: Snapshot, u: int) -> bool {
    crate::model::same_shape(b.nodes@[u], a.nodes@[u]) && leaf_value(b, u) == leaf_value(a, u)
}

/// Only sizes changed: the shape invariants carry over.
proof fn lemma_same_tables(a: Snapshot, b: Snapshot)
    requires
        same_leaves(a, b),
    ensures
        forall|p: int| #[trigger] b.children_of(p) == a.children_of(p),
        a.wf() ==> b.wf(),
        a.ordered() ==> b.ordered(),
{
    assert forall|p: int| #[trigger] b.children_of(p) == a.children_of(p) by {}
}

/// Nodes in a subtree come at or after its root.
proof fn lemma_reaches_after(kids: spec_fn(int) -> Seq<NodeIndex>, n: int, idx: int, u: int)
    ensures
        reaches_in(kids, n, idx, u) ==> idx <= u < n,
    decreases n - idx, 1int, 0int,
{
    if 0 <= idx < n {
        lemma_reaches_kids_after(kids, n, idx, kids(idx).len() as int, u);
    }
}

proof fn lemma_reaches_kids_after(kids: spec_fn(int) -> Seq<NodeIndex>, n: int, idx: int, j: int, u: int)
    ensures
        reaches_kids(kids, n, idx, j, u) ==> idx < u < n,
    decreases n - idx, 0int, j,
{
    if j > 0 && 0 <= idx < n {
        lemma_reaches_kids_after(kids, n, idx, j - 1, u);
        let c = kids(idx)[j - 1] as int;
        if idx < c < n {
            lemma_reaches_after(kids, n, c, u);
        }
    }
}

/// Recomputes the size of node `idx` and of every directory below it
/// from the sizes of the files they hold; returns the new size.
pub fn recompute_file_node_size(snap: &mut Snapshot, idx: NodeIndex) -> (total: u64)
    requires
        old(snap).wf(),
        old(snap).ordered(),
        idx < old(snap).nodes@.len(),
    ensures
        same_leaves(*old(snap), *final(snap)),
        total == recomputed(*old(snap), idx as int),
        forall|u: int|
            0 <= u < old(snap).nodes@.len() ==> (#[trigger] final(snap).nodes@[u]).size == if reaches(
                *old(snap),
                idx as int,
                u,
            ) {
                recomputed(*old(snap), u)
            } else {
                old(snap).nodes@[u].size
            },
    decreases old(snap).nodes@.len() - idx,
{
    let ghost orig = *snap;
    let ghost n = orig.nodes@.len() as int;
    let ghost kf = |p: int| orig.children_of(p);
    let ghost lf = |u: int| leaf_value(orig, u);
    if snap.children_is_empty(idx) {
        proof {
            assert(orig.children_of(idx as int).len() == 0);
        }
        if snap.node(idx).is_dir() {
            snap.set_size_of(idx, 0);
            proof {
                assert forall|u: int| 0 <= u < n implies crate::model::same_shape(#[trigger] snap.nodes@[u], orig.nodes@[u])
                    && leaf_value(*snap, u) == leaf_value(orig, u) by {
                    assert(snap.children_of(u) == orig.children_of(u));
                }
                assert forall|u: int| 0 <= u < n implies (#[trigger] snap.nodes@[u]).size == if reaches(orig, idx as int, u) {
                    recomputed(orig, u)
                } else {
                    orig.nodes@[u].size
                } by {
                    assert(reaches(orig, idx as int, u) == (u == idx as int));
                }
            }
            return 0;
        }
        proof {
            assert forall|u: int| 0 <= u < n implies (#[trigger] snap.nodes@[u]).size == if reaches(orig, idx as int, u) {
                recomputed(orig, u)
            } else {
                orig.nodes@[u].size
            } by {
                assert(reaches(orig, idx as int, u) == (u == idx as int));
            }
        }
        return snap.node(idx).size();
    }
    let children: Vec<NodeIndex> = snap.children_clone(idx);
    let mut total: u64 = 0;
    let mut j: usize = 0;
    proof {
        lemma_children_in_range(orig, idx as int);
    }
    while j < children.len()
        invariant
            orig.wf(),
            orig.ordered(),
            n == orig.nodes@.len(),
            n == old(snap).nodes@.len(),
            (idx as int) < n,
            kf == (|p: int| orig.children_of(p)),
            lf == (|u: int| leaf_value(orig, u)),
            children@ == orig.children_of(idx as int),
            children@.len() > 0,
            forall|i: int| 0 <= i < children@.len() ==> (#[trigger] children@[i] as int) < n,
            j <= children@.len(),
            same_leaves(orig, *snap),
            total == kids_sum(kf, lf, n, idx as int, j as int),
            forall|u: int|
                0 <= u < n ==> (#[trigger] snap.nodes@[u]).size == if reaches_kids(kf, n, idx as int, j as int, u) {
                    recomputed(orig, u)
                } else {
                    orig.nodes@[u].size
                },
        decreases children@.len() - j,
    {
        let c = children[j];
        let ghost before = *snap;
        proof {
            assert(idx < c);
            lemma_same_leaves_agree(orig, before);
            lemma_same_tables(orig, before);
        }
        let t = recompute_file_node_size(snap, c);
        proof {
            lemma_same_leaves_agree(before, *snap);
            lemma_same_leaves_agree(orig, *snap);
            assert forall|u: int| 0 <= u < n implies crate::model::same_shape(#[trigger] snap.nodes@[u], orig.nodes@[u])
                && leaf_value(*snap, u) == leaf_value(orig, u) by {
                assert(same_shape_leaf(orig, before, u));
                assert(same_shape_leaf(before, *snap, u));
            }
            assert forall|u: int| 0 <= u < n implies (#[trigger] snap.nodes@[u]).size == if reaches_kids(
                kf,
                n,
                idx as int,
                j + 1,
                u,
            ) {
                recomputed(orig, u)
            } else {
                orig.nodes@[u].size
            } by {
                assert(reaches(orig, c as int, u) == reaches_in(kf, n, c as int, u));
            }
        }
        total = total.saturating_add(t);
        j = j + 1;
    }
    let ghost before = *snap;
    snap.set_size_of(idx, total);
    proof {
        lemma_same_leaves_agree(orig, before);
        assert forall|u: int| 0 <= u < n implies crate::model::same_shape(#[trigger] snap.nodes@[u], orig.nodes@[u])
            && leaf_value(*snap, u) == leaf_value(orig, u) by {
            assert(same_shape_leaf(orig, before, u));
            assert(snap.children_of(u) == before.children_of(u));
        }
        assert forall|u: int| 0 <= u < n implies (#[trigger] snap.nodes@[u]).size == if reaches(orig, idx as int, u) {
            recomputed(orig, u)
        } else {
            orig.nodes@[u].size
        } by {
            assert(reaches(orig, idx as int, u) == (u == idx as int || reaches_kids(kf, n, idx as int, children@.len() as int, u)));
        }
    }
    total
}

} // verus!

verus! {

/// Texts of a list of names.
pub open spec fn names_view(v: Seq<String>) -> Seq<Seq<char>> {
    v.map_values(|s: String| s@)
}

/// Position of the first of `kids` named `name`.
pub open spec fn position_named(snap: Snapshot, kids: Seq<NodeIndex>, name: Seq<char>) -> Option<int>
    decreases kids.len(),
{
    if kids.len() == 0 {
        None
    } else if snap.name_of(kids[0] as int) == name {
        Some(0)
    } else {
        match position_named(snap, kids.drop_first(), name) {
            Some(i) => Some(i + 1),
            None => None,
        }
    }
}

/// Where pruning the path `comps[index..]` below node `cur` takes a child
/// out: its parent and its position there. The path is followed through
/// first-named children; the last component names the child taken out.
pub open spec fn removal_slot(snap: Snapshot, cur: int, comps: Seq<Seq<char>>, index: int) -> Option<(int, int)>
    decreases comps.len() - index,
{
    if index < 0 || index >= comps.len() {
        None
    } else if index + 1 == comps.len() {
        match position_named(snap, snap.children_of(cur), comps[index]) {
            Some(pos) => Some((cur, pos)),
            None => None,
        }
    } else {
        match snap.first_named(snap.children_of(cur), comps[index]) {
            Some(c) => removal_slot(snap, c as int, comps, index + 1),
            None => None,
        }
    }
}

/// `after` is `before` with the child at `slot` taken out of its parent's
/// list (the last child moved into its place); other lists, names and
/// fields unchanged, nodes changed at most in size.
pub open spec fn taken_out(before: Snapshot, after: Snapshot, slot: (int, int)) -> bool {
    let p = slot.0;
    let pos = slot.1;
    let kids = before.children_of(p);
    &&& after.wf()
    &&& after.ordered()
    &&& after == (Snapshot {
        nodes: after.nodes,
        child_index: after.child_index,
        child_count: after.child_count,
        ..before
    })
    &&& after.nodes@.len() == before.nodes@.len()
    &&& forall|u: int| 0 <= u < before.nodes@.len() ==> crate::model::same_shape(#[trigger] after.nodes@[u], before.nodes@[u])
    &&& after.children_of(p) == kids.update(pos, kids.last()).drop_last()
    &&& forall|q: int| 0 <= q < before.nodes@.len() && q != p ==> #[trigger] after.children_of(q) == before.children_of(q)
}

/// `after` is `before` with the child at `slot` taken out and every size
/// in the subtree at `cur` recomputed; other sizes unchanged.
pub open spec fn pruned_at(before: Snapshot, after: Snapshot, cur: int, slot: (int, int)) -> bool {
    &&& taken_out(before, after, slot)
    &&& forall|u: int|
        0 <= u < before.nodes@.len() ==> (#[trigger] after.nodes@[u]).size == if reaches(after, cur, u) {
            recomputed(after, u)
        } else {
            before.nodes@[u].size
        }
}

/// Sizes outside the subtree at `cur` are those of `before`.
pub open spec fn kept_outside(before: Snapshot, after: Snapshot, cur: int) -> bool {
    forall|u: int| 0 <= u < before.nodes@.len() && !reaches(after, cur, u) ==> (#[trigger] after.nodes@[u]).size == before.nodes@[u].size
}

/// Taking out a child keeps the children after their parents.
proof fn lemma_take_out(orig: Snapshot, s1: Snapshot, cur: int, pos: int)
    requires
        orig.wf(),
        orig.ordered(),
        0 <= cur < orig.nodes@.len(),
        0 <= pos < orig.children_of(cur).len(),
        s1.wf(),
        s1 == (Snapshot { child_index: s1.child_index, child_count: s1.child_count, ..orig }),
        s1.children_of(cur) == orig.children_of(cur).update(pos, orig.children_of(cur).last()).drop_last(),
        forall|q: int| 0 <= q < orig.nodes@.len() && q != cur ==> #[trigger] s1.children_of(q) == orig.children_of(q),
    ensures
        taken_out(orig, s1, (cur, pos)),
        kept_outside(orig, s1, cur),
{
    let kids = orig.children_of(cur);
    assert forall|p: int, i: int| 0 <= p < s1.nodes@.len() && 0 <= i < s1.children_of(p).len() implies p < #[trigger] s1.children_of(
        p,
    )[i] by {
        if p == cur {
            if i == pos {
                assert(s1.children_of(p)[i] == kids[kids.len() - 1]);
            } else {
                assert(s1.children_of(p)[i] == kids[i]);
            }
        } else {
            assert(s1.children_of(p) == orig.children_of(p));
        }
    }
}

/// After pruning below the child `c` of `cur`, sizes outside the subtree
/// at `cur` are unchanged.
proof fn lemma_pruned_below(orig: Snapshot, s1: Snapshot, cur: int, c: int, comps: Seq<Seq<char>>, index: int)
    requires
        orig.wf(),
        orig.ordered(),
        0 <= cur < orig.nodes@.len(),
        0 <= index,
        exists|i: int| 0 <= i < orig.children_of(cur).len() && orig.children_of(cur)[i] == c,
        removal_slot(orig, c, comps, index) matches Some(slot) && pruned_at(orig, s1, c, slot),
    ensures
        taken_out(orig, s1, removal_slot(orig, c, comps, index)->0),
        kept_outside(orig, s1, cur),
{
    let slot = removal_slot(orig, c, comps, index)->0;
    let i = choose|i: int| 0 <= i < orig.children_of(cur).len() && orig.children_of(cur)[i] == c;
    lemma_children_in_range(orig, cur);
    assert(cur < c);
    lemma_slot_inside(orig, c, comps, index);
    assert(s1.children_of(cur) == orig.children_of(cur));
    let kf = |p: int| s1.children_of(p);
    let n = s1.nodes@.len() as int;
    assert forall|u: int| 0 <= u < orig.nodes@.len() && !reaches(s1, cur, u) implies (#[trigger] s1.nodes@[u]).size
        == orig.nodes@[u].size by {
        if reaches(s1, c, u) {
            lemma_child_reaches(kf, n, cur, i, kf(cur).len() as int, u);
        }
    }
}

/// Recomputing the subtree at `cur` after taking out a child yields the
/// pruned snapshot.
proof fn lemma_recompute_keeps_pruned(orig: Snapshot, mid: Snapshot, fin: Snapshot, cur: int, slot: (int, int))
    requires
        taken_out(orig, mid, slot),
        kept_outside(orig, mid, cur),
        same_leaves(mid, fin),
        forall|u: int|
            0 <= u < mid.nodes@.len() ==> (#[trigger] fin.nodes@[u]).size == if reaches(mid, cur, u) {
                recomputed(mid, u)
            } else {
                mid.nodes@[u].size
            },
    ensures
        pruned_at(orig, fin, cur, slot),
        kept_outside(orig, fin, cur),
{
    lemma_same_leaves_agree(mid, fin);
    lemma_same_tables(mid, fin);
    assert forall|u: int| 0 <= u < orig.nodes@.len() implies crate::model::same_shape(#[trigger] fin.nodes@[u], orig.nodes@[u]) by {
        assert(same_shape_leaf(mid, fin, u));
    }
}

/// A found position names a child with that name.
proof fn lemma_position_named(snap: Snapshot, kids: Seq<NodeIndex>, name: Seq<char>)
    ensures
        position_named(snap, kids, name) matches Some(i) ==> 0 <= i < kids.len(),
    decreases kids.len(),
{
    if kids.len() > 0 && snap.name_of(kids[0] as int) != name {
        lemma_position_named(snap, kids.drop_first(), name);
    }
}

/// The slot of a removal lies at or below `cur`, inside its parent's list.
proof fn lemma_slot_inside(snap: Snapshot, cur: int, comps: Seq<Seq<char>>, index: int)
    requires
        snap.wf(),
        snap.ordered(),
        0 <= cur < snap.nodes@.len(),
    ensures
        removal_slot(snap, cur, comps, index) matches Some(slot) ==> cur <= slot.0 < snap.nodes@.len() && 0 <= slot.1
            < snap.children_of(slot.0).len(),
    decreases comps.len() - index,
{
    if 0 <= index < comps.len() {
        if index + 1 == comps.len() {
            lemma_position_named(snap, snap.children_of(cur), comps[index]);
        } else {
            lemma_first_named_member(snap, snap.children_of(cur), comps[index]);
            lemma_children_in_range(snap, cur);
            if let Some(c) = snap.first_named(snap.children_of(cur), comps[index]) {
                let i = choose|i: int| 0 <= i < snap.children_of(cur).len() && snap.children_of(cur)[i] == c;
                assert(cur < snap.children_of(cur)[i]);
                lemma_slot_inside(snap, c as int, comps, index + 1);
            }
        }
    }
}

/// A node below the `i`-th child of `cur` is below `cur`.
proof fn lemma_child_reaches(kids: spec_fn(int) -> Seq<NodeIndex>, n: int, cur: int, i: int, j: int, u: int)
    requires
        0 <= cur < n,
        0 <= i < j <= kids(cur).len(),
        cur < kids(cur)[i] < n,
        reaches_in(kids, n, kids(cur)[i] as int, u),
    ensures
        reaches_kids(kids, n, cur, j, u),
    decreases j,
{
    if j > i + 1 {
        lemma_child_reaches(kids, n, cur, i, j - 1, u);
    }
}

/// Removes the path `components[index..]` below node `current_idx` (each
/// component but the last names a child to descend into, the last the
/// child to take out), then recomputes the sizes on the way back; tells
/// whether anything was removed.
pub fn prune_file_node(snap: &mut Snapshot, current_idx: NodeIndex, components: &[String], index: usize) -> (removed: bool)
    requires
        old(snap).wf(),
        old(snap).ordered(),
        current_idx < old(snap).nodes@.len(),
    ensures
        removed == removal_slot(*old(snap), current_idx as int, names_view(components@), index as int) is Some,
        !removed ==> *final(snap) == *old(snap),
        removal_slot(*old(snap), current_idx as int, names_view(components@), index as int) matches Some(slot) ==> pruned_at(
            *old(snap),
            *final(snap),
            current_idx as int,
            slot,
        ),
    decreases components@.len() - index,
{
    let ghost comps = names_view(components@);
    let ghost orig = *snap;
    let ghost n = orig.nodes@.len() as int;
    if index >= components.len() {
        return false;
    }
    let removed = if index + 1 == components.len() {
        let kids = snap.children_clone(current_idx);
        let mut i: usize = 0;
        let mut pos: Option<usize> = None;
        proof {
            assert(kids@.subrange(0, kids@.len() as int) =~= kids@);
        }
        while i < kids.len()
            invariant
                *snap == orig,
                orig.wf(),
                kids@ == orig.children_of(current_idx as int),
                i <= kids@.len(),
                pos matches Some(q) ==> (q as int) < kids@.len() && position_named(orig, kids@, comps[index as int]) == Some(q as int),
                pos is None ==> position_named(orig, kids@, comps[index as int]) == match position_named(
                    orig,
                    kids@.subrange(i as int, kids@.len() as int),
                    comps[index as int],
                ) {
                    Some(q) => Some(q + i),
                    None => None,
                },
                comps == names_view(components@),
                (index as int) < comps.len(),
            decreases kids@.len() - i,
        {
            proof {
                lemma_children_in_range(orig, current_idx as int);
                assert(kids@.subrange(i as int, kids@.len() as int).drop_first() =~= kids@.subrange(i + 1, kids@.len() as int));
                assert(comps[index as int] == components@[index as int]@);
            }
            if pos.is_none() && str_eq(snap.name(kids[i]), components[index].as_str()) {
                pos = Some(i);
            }
            i = i + 1;
        }
        match pos {
            Some(p) => {
                let ghost kids_before = orig.children_of(current_idx as int);
                snap.swap_remove_child(current_idx, p);
                proof {
                    lemma_take_out(orig, *snap, current_idx as int, p as int);
                }
                true
            },
            None => {
                proof {
                    assert(kids@.subrange(kids@.len() as int, kids@.len() as int) =~= Seq::<NodeIndex>::empty());
                }
                false
            },
        }
    } else {
        proof {
            assert(comps[index as int] == components@[index as int]@);
            lemma_first_named_node(orig, current_idx as int, comps[index as int]);
        }
        match snap.child_idx(current_idx, components[index].as_str()) {
            Some(child_idx) => {
                proof {
                    lemma_first_named_member(orig, orig.children_of(current_idx as int), comps[index as int]);
                }
                let removed = prune_file_node(snap, child_idx, components, index + 1);
                if removed {
                    let ghost mid = *snap;
                    proof {
                        lemma_pruned_below(orig, mid, current_idx as int, child_idx as int, comps, index as int + 1);
                    }
                    recompute_file_node_size(snap, current_idx);
                    proof {
                        lemma_recompute_keeps_pruned(
                            orig,
                            mid,
                            *snap,
                            current_idx as int,
                            removal_slot(orig, child_idx as int, comps, index as int + 1)->0,
                        );
                    }
                }
                removed
            },
            None => false,
        }
    };
    if removed {
        let ghost mid = *snap;
        let ghost slot = removal_slot(orig, current_idx as int, comps, index as int)->0;
        recompute_file_node_size(snap, current_idx);
        proof {
            lemma_recompute_keeps_pruned(orig, mid, *snap, current_idx as int, slot);
        }
    }
    removed
}

} // verus!

verus! {

/// Where deleting `deleted_path` takes a child out of a snapshot whose
/// root is at `root_path`.
pub open spec fn deletion_slot(snap: Snapshot, root_path: Seq<char>, deleted_path: Seq<char>) -> Option<(int, int)> {
    match components_below(root_path, deleted_path) {
        Some(c) => removal_slot(snap, 0, c, 0),
        None => None,
    }
}

/// `after` is `before` once `deleted_path` is removed from it: unchanged
/// when the path is not in it; else pruned, with the recorded total set
/// to the root's new size.
pub open spec fn deleted_from(before: Snapshot, after: Snapshot, deleted_path: Seq<char>) -> bool {
    match deletion_slot(before, before.root_path@, deleted_path) {
        None => after == before,
        Some(slot) => {
            &&& pruned_at(before, (Snapshot { total_size: before.total_size, ..after }), 0, slot)
            &&& after.total_size == after.nodes@[0].size
        },
    }
}

/// Removes `deleted_path` from a snapshot and updates its sizes and total;
/// tells whether the path was in it.
pub fn remove_path_from_snapshot(snapshot: &mut Snapshot, deleted_path: &str) -> (removed: bool)
    requires
        old(snapshot).wf(),
        old(snapshot).ordered(),
    ensures
        removed == deletion_slot(*old(snapshot), old(snapshot).root_path@, deleted_path@) is Some,
        deleted_from(*old(snapshot), *final(snapshot), deleted_path@),
{
    let components = match path_to_components(snapshot.root_path.as_str(), deleted_path) {
        Some(c) => c,
        None => {
            return false;
        },
    };
    proof {
        assert(names_view(components@) == key_view(components));
    }
    let removed = prune_file_node(snapshot, ROOT_NODE, components.as_slice(), 0);
    if removed {
        let ghost pruned = *snapshot;
        let s = snapshot.node(ROOT_NODE).size();
        snapshot.total_size = s;
        proof {
            assert((Snapshot { total_size: old(snapshot).total_size, ..*snapshot }) == pruned);
        }
    }
    removed
}

/// Removes `deleted_path` from a tree rooted at `root_path` and updates its
/// sizes; tells whether the path was in it.
pub fn remove_path_from_tree(snap: &mut Snapshot, root_path: &str, deleted_path: &str) -> (removed: bool)
    requires
        old(snap).wf(),
        old(snap).ordered(),
    ensures
        removed == deletion_slot(*old(snap), root_path@, deleted_path@) is Some,
        !removed ==> *final(snap) == *old(snap),
        deletion_slot(*old(snap), root_path@, deleted_path@) matches Some(slot) ==> pruned_at(*old(snap), *final(snap), 0, slot),
{
    let components = match path_to_components(root_path, deleted_path) {
        Some(c) => c,
        None => {
            return false;
        },
    };
    proof {
        assert(names_view(components@) == key_view(components));
    }
    prune_file_node(snap, ROOT_NODE, components.as_slice(), 0)
}

} // verus!

verus! {

/// Path `a` is at or below path `b` (component-wise).
pub open spec fn path_within(a: Seq<char>, b: Seq<char>) -> bool {
    relative_to(a, b) is Some
}

/// Paths `a` and `b` name the same place.
pub open spec fn same_path(a: Seq<char>, b: Seq<char>) -> bool {
    relative_to(a, b) == Some(Seq::<Seq<char>>::empty())
}

/// A cached scan at `key` is touched by deleting `deleted`: one path
/// holds the other.
pub open spec fn touched(key: Seq<char>, deleted: Seq<char>) -> bool {
    path_within(deleted, key) || path_within(key, deleted)
}

/// A touched scan stays cached, pruned, when it is the browsed root or
/// holds the deleted path; other touched scans are dropped.
pub open spec fn pruned_in_place(key: Seq<char>, view_root: Seq<char>, deleted: Seq<char>) -> bool {
    same_path(key, view_root) || path_within(deleted, key)
}

/// The cached scan is dropped by the deletion.
pub open spec fn dropped(key: Seq<char>, view_root: Seq<char>, deleted: Seq<char>) -> bool {
    touched(key, deleted) && !pruned_in_place(key, view_root, deleted)
}

/// What a cached scan counts as freed: the deleted node's size in a scan
/// pruned in place, the whole total of a dropped scan, else nothing.
pub open spec fn freed_by(e: (String, Snapshot), view_root: Seq<char>, deleted: Seq<char>) -> u64 {
    if !touched(e.0@, deleted) {
        0
    } else if pruned_in_place(e.0@, view_root, deleted) {
        size_at(e.1, deleted)
    } else {
        e.1.total_size
    }
}

/// Saturating sum of what the cached scans count as freed.
pub open spec fn freed_total(cache: Seq<(String, Snapshot)>, view_root: Seq<char>, deleted: Seq<char>) -> u64
    decreases cache.len(),
{
    if cache.len() == 0 {
        0
    } else {
        sat_add(freed_total(cache.drop_last(), view_root, deleted), freed_by(cache.last(), view_root, deleted))
    }
}

/// Positions of the cached scans that stay, in order.
pub open spec fn kept_positions(cache: Seq<(String, Snapshot)>, view_root: Seq<char>, deleted: Seq<char>) -> Seq<int>
    decreases cache.len(),
{
    if cache.len() == 0 {
        Seq::empty()
    } else {
        kept_positions(cache.drop_last(), view_root, deleted) + if dropped(cache.last().0@, view_root, deleted) {
            Seq::<int>::empty()
        } else {
            seq![cache.len() - 1]
        }
    }
}

/// A cached scan that stays, after the deletion: same key; pruned when
/// touched, else unchanged.
pub open spec fn entry_after(before: (String, Snapshot), after: (String, Snapshot), deleted: Seq<char>) -> bool {
    &&& after.0@ == before.0@
    &&& if touched(before.0@, deleted) {
        deleted_from(before.1, after.1, deleted)
    } else {
        after.1 == before.1
    }
}

/// The snapshots the browser holds: scans by path, the browsed root, and
/// the tree shown for it with its current node.
pub struct TreeState {
    pub scan_cache: Vec<(String, Snapshot)>,
    pub view_root_path: String,
    pub tree_root: Option<(Snapshot, NodeIndex)>,
}

/// A deletion keeps a snapshot well formed, children after parents.
proof fn lemma_deleted_keeps_shape(before: Snapshot, after: Snapshot, del: Seq<char>)
    requires
        before.wf(),
        before.ordered(),
        deleted_from(before, after, del),
    ensures
        after.wf(),
        after.ordered(),
{
    if let Some(slot) = deletion_slot(before, before.root_path@, del) {
        let t = Snapshot { total_size: before.total_size, ..after };
        assert forall|p: int| #[trigger] after.children_of(p) == t.children_of(p) by {}
    }
}

/// Every snapshot of a cache is well formed with children after parents.
pub open spec fn cache_wf(cache: Seq<(String, Snapshot)>) -> bool {
    forall|i: int| 0 <= i < cache.len() ==> (#[trigger] cache[i]).1.wf() && cache[i].1.ordered()
}

proof fn lemma_kept_positions_range(cache: Seq<(String, Snapshot)>, view_root: Seq<char>, deleted: Seq<char>)
    ensures
        forall|j: int|
            0 <= j < kept_positions(cache, view_root, deleted).len() ==> 0 <= #[trigger] kept_positions(cache, view_root, deleted)[j]
                < cache.len(),
    decreases cache.len(),
{
    if cache.len() > 0 {
        lemma_kept_positions_range(cache.drop_last(), view_root, deleted);
        let prev = kept_positions(cache.drop_last(), view_root, deleted);
        assert forall|j: int| 0 <= j < kept_positions(cache, view_root, deleted).len() implies 0 <= #[trigger] kept_positions(
            cache,
            view_root,
            deleted,
        )[j] < cache.len() by {
            if j < prev.len() {
                assert(kept_positions(cache, view_root, deleted)[j] == prev[j]);
            }
        }
    }
}

/// Applies the deletion of `deleted_path` to the loaded snapshots: scans
/// touched by it are pruned in place or dropped, and the shown tree is
/// pruned; returns the saturating sum of what the scans count as freed.
pub fn apply_deletion_to_state(state: &mut TreeState, deleted_path: &str) -> (total_freed: u64)
    requires
        cache_wf(old(state).scan_cache@),
        old(state).tree_root matches Some(t) ==> t.0.wf() && t.0.ordered(),
    ensures
        total_freed == freed_total(old(state).scan_cache@, old(state).view_root_path@, deleted_path@),
        final(state).view_root_path == old(state).view_root_path,
        final(state).scan_cache@.len() == kept_positions(old(state).scan_cache@, old(state).view_root_path@, deleted_path@).len(),
        forall|j: int|
            0 <= j < final(state).scan_cache@.len() ==> entry_after(
                old(state).scan_cache@[kept_positions(old(state).scan_cache@, old(state).view_root_path@, deleted_path@)[j]],
                #[trigger] final(state).scan_cache@[j],
                deleted_path@,
            ),
        cache_wf(final(state).scan_cache@),
        match old(state).tree_root {
            None => final(state).tree_root is None,
            Some(t) => final(state).tree_root matches Some(u) && u.1 == t.1 && u.0.wf() && u.0.ordered() && match deletion_slot(
                t.0,
                old(state).view_root_path@,
                deleted_path@,
            ) {
                None => u.0 == t.0,
                Some(slot) => pruned_at(t.0, u.0, 0, slot),
            },
        },
{
    let ghost orig = old(state).scan_cache@;
    let ghost view = old(state).view_root_path@;
    let ghost del = deleted_path@;
    let mut rest: Vec<(String, Snapshot)> = Vec::new();
    std::mem::swap(&mut rest, &mut state.scan_cache);
    let mut kept: Vec<(String, Snapshot)> = Vec::new();
    let mut total: u64 = 0;
    let ghost mut i: int = 0;
    proof {
        assert(orig.subrange(0, orig.len() as int) =~= orig);
        assert(orig.take(0) =~= Seq::<(String, Snapshot)>::empty());
    }
    while rest.len() > 0
        invariant
            0 <= i <= orig.len(),
            rest@ == orig.subrange(i, orig.len() as int),
            cache_wf(orig),
            view == state.view_root_path@,
            del == deleted_path@,
            total == freed_total(orig.take(i), view, del),
            kept@.len() == kept_positions(orig.take(i), view, del).len(),
            forall|j: int|
                0 <= j < kept@.len() ==> entry_after(orig[kept_positions(orig.take(i), view, del)[j]], #[trigger] kept@[j], del),
            cache_wf(kept@),
            old(state).tree_root == state.tree_root,
            old(state).view_root_path == state.view_root_path,
        decreases rest@.len(),
    {
        let ghost prev_kept = kept@;
        proof {
            assert(orig.take(i + 1).drop_last() =~= orig.take(i));
            assert(orig.take(i + 1).last() == orig[i]);
            assert(rest@[0] == orig[i]);
            assert(rest@.remove(0) =~= orig.subrange(i + 1, orig.len() as int));
            lemma_kept_positions_range(orig.take(i), view, del);
        }
        let (key, mut snap) = rest.remove(0);
        let within_key = relative_components(key.as_str(), deleted_path).is_some();
        let key_within = relative_components(deleted_path, key.as_str()).is_some();
        if within_key || key_within {
            let same_root = match relative_components(state.view_root_path.as_str(), key.as_str()) {
                Some(v) => {
                    proof {
                        assert(key_view(v).len() == v@.len());
                        if v@.len() == 0 {
                            assert(key_view(v) =~= Seq::<Seq<char>>::empty());
                        }
                    }
                    v.len() == 0
                },
                None => false,
            };
            if same_root || within_key {
                let freed = node_size_in_snapshot(&snap, deleted_path);
                remove_path_from_snapshot(&mut snap, deleted_path);
                total = total.saturating_add(freed);
                kept.push((key, snap));
            } else {
                total = total.saturating_add(snap.total_size);
            }
        } else {
            kept.push((key, snap));
        }
        proof {
            i = i + 1;
            let kp = kept_positions(orig.take(i), view, del);
            let pkp = kept_positions(orig.take(i - 1), view, del);
            assert forall|j: int| 0 <= j < kept@.len() implies entry_after(orig[kp[j]], #[trigger] kept@[j], del) by {
                if j < prev_kept.len() {
                    assert(kp[j] == pkp[j]);
                    assert(kept@[j] == prev_kept[j]);
                } else {
                    assert(kp[j] == i - 1);
                }
            }
            assert forall|j: int| 0 <= j < kept@.len() implies (#[trigger] kept@[j]).1.wf() && kept@[j].1.ordered() by {
                if j < prev_kept.len() {
                    assert(kept@[j] == prev_kept[j]);
                } else {
                    assert(orig[i - 1].1.wf());
                    if touched(orig[i - 1].0@, del) {
                        lemma_deleted_keeps_shape(orig[i - 1].1, kept@[j].1, del);
                    }
                }
            }
        }
    }
    proof {
        assert(orig.take(orig.len() as int) =~= orig);
    }
    state.scan_cache = kept;
    let mut tree: Option<(Snapshot, NodeIndex)> = None;
    std::mem::swap(&mut tree, &mut state.tree_root);
    match tree {
        Some((mut snap, idx)) => {
            remove_path_from_tree(&mut snap, state.view_root_path.as_str(), deleted_path);
            state.tree_root = Some((snap, idx));
        },
        None => {},
    }
    total
}

} // verus!

verus! {

/// `c1` is the cache `c0` after deleting `del`: the scans it touches are
/// pruned or dropped (see `apply_deletion_to_state`).
pub open spec fn cache_deleted(c0: Seq<(String, Snapshot)>, c1: Seq<(String, Snapshot)>, view: Seq<char>, del: Seq<char>) -> bool {
    &&& c1.len() == kept_positions(c0, view, del).len()
    &&& forall|j: int| 0 <= j < c1.len() ==> entry_after(c0[kept_positions(c0, view, del)[j]], #[trigger] c1[j], del)
}

/// `t1` is the shown tree `t0` after deleting `del`: pruned where the
/// deletion lies inside it (see `apply_deletion_to_state`).
pub open spec fn tree_deleted(
    t0: Option<(Snapshot, NodeIndex)>,
    t1: Option<(Snapshot, NodeIndex)>,
    view: Seq<char>,
    del: Seq<char>,
) -> bool {
    match t0 {
        None => t1 is None,
        Some(t) => t1 matches Some(u) && u.1 == t.1 && u.0.wf() && u.0.ordered() && match deletion_slot(t.0, view, del) {
            None => u.0 == t.0,
            Some(slot) => pruned_at(t.0, u.0, 0, slot),
        },
    }
}

/// `roots` are the shown trees between the deletions of `paths`, from
/// `first` to `last`.
pub open spec fn tree_chain(
    roots: Seq<Option<(Snapshot, NodeIndex)>>,
    first: Option<(Snapshot, NodeIndex)>,
    last: Option<(Snapshot, NodeIndex)>,
    view: Seq<char>,
    paths: Seq<String>,
) -> bool {
    &&& roots.len() == paths.len() + 1
    &&& roots[0] == first
    &&& roots[paths.len() as int] == last
    &&& forall|i: int| 1 <= i <= paths.len() ==> tree_deleted(roots[i - 1], #[trigger] roots[i], view, paths[i - 1]@)
}

/// `a + b`, or the largest `u64` when the sum does not fit.
pub open spec fn add_saturating(a: u64, b: u64) -> u64 {
    if a + b <= u64::MAX {
        (a + b) as u64
    } else {
        u64::MAX
    }
}

/// Saturating sum of what deleting the first `n` paths frees, each counted
/// against the cache before its deletion (`caches[i]` before the `i`-th).
pub open spec fn freed_sum(caches: Seq<Seq<(String, Snapshot)>>, view: Seq<char>, paths: Seq<String>, n: int) -> u64
    decreases n,
{
    if n <= 0 {
        0
    } else {
        add_saturating(freed_sum(caches, view, paths, n - 1), freed_total(caches[n - 1], view, paths[n - 1]@))
    }
}

/// `caches` are the caches between the deletions of `paths`, from `first`
/// to `last`.
pub open spec fn deletion_chain(
    caches: Seq<Seq<(String, Snapshot)>>,
    first: Seq<(String, Snapshot)>,
    last: Seq<(String, Snapshot)>,
    view: Seq<char>,
    paths: Seq<String>,
) -> bool {
    &&& caches.len() == paths.len() + 1
    &&& caches[0] == first
    &&& caches[paths.len() as int] == last
    &&& forall|i: int| 1 <= i <= paths.len() ==> cache_deleted(caches[i - 1], #[trigger] caches[i], view, paths[i - 1]@)
}

/// Applies the deletion of each path in turn (see
/// `apply_deletion_to_state`) and returns the saturating sum of what each
/// frees; the snapshots stay well formed and the browsed root stays.
pub fn apply_deletions(state: &mut TreeState, paths: &[String]) -> (total_freed: u64)
    requires
        cache_wf(old(state).scan_cache@),
        old(state).tree_root matches Some(t) ==> t.0.wf() && t.0.ordered(),
    ensures
        cache_wf(final(state).scan_cache@),
        final(state).tree_root matches Some(t) ==> t.0.wf() && t.0.ordered(),
        final(state).tree_root is Some == old(state).tree_root is Some,
        final(state).view_root_path == old(state).view_root_path,
        exists|caches: Seq<Seq<(String, Snapshot)>>|
            #![trigger freed_sum(caches, old(state).view_root_path@, paths@, paths@.len() as int)]
            deletion_chain(caches, old(state).scan_cache@, final(state).scan_cache@, old(state).view_root_path@, paths@)
                && total_freed == freed_sum(caches, old(state).view_root_path@, paths@, paths@.len() as int),
        exists|roots: Seq<Option<(Snapshot, NodeIndex)>>|
            #![trigger tree_chain(roots, old(state).tree_root, final(state).tree_root, old(state).view_root_path@, paths@)]
            tree_chain(roots, old(state).tree_root, final(state).tree_root, old(state).view_root_path@, paths@),
        paths@.len() == 0 ==> total_freed == 0,
        paths@.len() == 1 ==> total_freed == freed_total(
            old(state).scan_cache@,
            old(state).view_root_path@,
            paths@[0]@,
        ),
{
    let mut total: u64 = 0;
    let mut i: usize = 0;
    let ghost view = state.view_root_path;
    let ghost had_tree = state.tree_root is Some;
    let ghost first_cache = state.scan_cache@;
    let ghost mut caches: Seq<Seq<(String, Snapshot)>> = seq![first_cache];
    let ghost mut roots: Seq<Option<(Snapshot, NodeIndex)>> = seq![state.tree_root];
    let ghost first_root = state.tree_root;
    while i < paths.len()
        invariant
            i <= paths@.len(),
            cache_wf(state.scan_cache@),
            state.tree_root matches Some(t) ==> t.0.wf() && t.0.ordered(),
            state.tree_root is Some == had_tree,
            state.view_root_path == view,
            caches.len() == i + 1,
            caches[0] == first_cache,
            roots.len() == i + 1,
            roots[0] == first_root,
            roots[i as int] == state.tree_root,
            forall|j: int| 1 <= j <= i ==> tree_deleted(roots[j - 1], #[trigger] roots[j], view@, paths@[j - 1]@),
            caches[i as int] == state.scan_cache@,
            forall|j: int| 1 <= j <= i ==> cache_deleted(caches[j - 1], #[trigger] caches[j], view@, paths@[j - 1]@),
            total == freed_sum(caches, view@, paths@, i as int),
            i == 0 ==> total == 0 && state.scan_cache@ == first_cache,
            i == 1 ==> total == freed_total(first_cache, view@, paths@[0]@),
        decreases paths@.len() - i,
    {
        let ghost before = caches;
        let ghost before_roots = roots;
        let freed = apply_deletion_to_state(state, paths[i].as_str());
        total = total.saturating_add(freed);
        proof {
            caches = before.push(state.scan_cache@);
            roots = before_roots.push(state.tree_root);
            assert forall|j: int| 1 <= j <= i + 1 implies tree_deleted(roots[j - 1], #[trigger] roots[j], view@, paths@[j - 1]@) by {
                if j <= i {
                    assert(roots[j - 1] == before_roots[j - 1] && roots[j] == before_roots[j]);
                }
            }
            assert forall|j: int| 1 <= j <= i + 1 implies cache_deleted(caches[j - 1], #[trigger] caches[j], view@, paths@[j - 1]@) by {
                if j <= i {
                    assert(caches[j - 1] == before[j - 1] && caches[j] == before[j]);
                }
            }
            assert forall|n: int| 0 <= n <= i implies #[trigger] freed_sum(caches, view@, paths@, n) == freed_sum(before, view@, paths@, n) by {
                lemma_freed_sum_prefix(before, caches, view@, paths@, n);
            }
            assert(freed_sum(caches, view@, paths@, i + 1) == add_saturating(freed_sum(caches, view@, paths@, i as int), freed));
        }
        i = i + 1;
    }
    proof {
        assert(deletion_chain(caches, first_cache, state.scan_cache@, view@, paths@));
        assert(tree_chain(roots, first_root, state.tree_root, view@, paths@));
    }
    total
}

/// The saturating sum over a prefix reads only the caches of that prefix.
proof fn lemma_freed_sum_prefix(
    a: Seq<Seq<(String, Snapshot)>>,
    b: Seq<Seq<(String, Snapshot)>>,
    view: Seq<char>,
    paths: Seq<String>,
    n: int,
)
    requires
        0 <= n <= a.len(),
        n <= b.len(),
        forall|j: int| 0 <= j < n ==> #[trigger] a[j] == b[j],
    ensures
        freed_sum(a, view, paths, n) == freed_sum(b, view, paths, n),
    decreases n,
{
    if n > 0 {
        lemma_freed_sum_prefix(a, b, view, paths, n - 1);
        assert(a[n - 1] == b[n - 1]);
    }
}

/// Key `key` names the place with absoluteness `abs` and components
/// `comps`.
pub open spec fn names_place(key: Seq<char>, abs: bool, comps: Seq<Seq<char>>) -> bool {
    crate::delta_cache::is_absolute(key) == abs && crate::delta_cache::components(key) == comps
}

/// Position of the first entry whose key names the given place.
pub open spec fn cache_position<T>(cache: Seq<(String, T)>, abs: bool, comps: Seq<Seq<char>>) -> Option<int>
    decreases cache.len(),
{
    if cache.len() == 0 {
        None
    } else if names_place(cache[0].0@, abs, comps) {
        Some(0)
    } else {
        match cache_position(cache.drop_first(), abs, comps) {
            Some(i) => Some(i + 1),
            None => None,
        }
    }
}

/// The scan found for a place, trying the place itself and then each
/// ancestor (keeping `m`, then fewer, components): the first cached one,
/// with the node reached in it by the remaining components.
pub open spec fn resolve_from(cache: Seq<(String, Snapshot)>, abs: bool, comps: Seq<Seq<char>>, m: int) -> Option<
    (int, NodeIndex),
>
    decreases m + 1,
{
    if m < 0 {
        None
    } else {
        match cache_position(cache, abs, comps.take(m)) {
            Some(i) => match descend(cache[i].1, 0, comps.skip(m)) {
                Some(node) => Some((i, node)),
                None => None,
            },
            None => resolve_from(cache, abs, comps, m - 1),
        }
    }
}

/// The scan and node that best describe `view_root`: the scan of the
/// path itself, or of its nearest cached ancestor.
pub open spec fn resolved(cache: Seq<(String, Snapshot)>, view_root: Seq<char>) -> Option<(int, NodeIndex)> {
    let comps = crate::delta_cache::components(view_root);
    resolve_from(cache, crate::delta_cache::is_absolute(view_root), comps, comps.len() as int)
}

pub proof fn lemma_cache_position_range<T>(cache: Seq<(String, T)>, abs: bool, comps: Seq<Seq<char>>)
    ensures
        cache_position(cache, abs, comps) matches Some(i) ==> 0 <= i < cache.len() && names_place(cache[i].0@, abs, comps),
    decreases cache.len(),
{
    if cache.len() > 0 && !names_place(cache[0].0@, abs, comps) {
        lemma_cache_position_range(cache.drop_first(), abs, comps);
    }
}

/// Position of the first cached scan whose key names the place with
/// absoluteness `abs` and components `comps[..m]`.
pub(crate) fn find_cached<T>(cache: &[(String, T)], abs: bool, comps: &Vec<Vec<char>>, m: usize) -> (r: Option<usize>)
    requires
        m <= comps@.len(),
    ensures
        match r {
            Some(i) => cache_position(cache@, abs, crate::text::texts(comps@).take(m as int)) == Some(i as int),
            None => cache_position(cache@, abs, crate::text::texts(comps@).take(m as int)) is None,
        },
{
    let ghost want = crate::text::texts(comps@).take(m as int);
    let mut i: usize = 0;
    proof {
        assert(cache@.subrange(0, cache@.len() as int) =~= cache@);
    }
    while i < cache.len()
        invariant
            i <= cache@.len(),
            m <= comps@.len(),
            want == crate::text::texts(comps@).take(m as int),
            cache_position(cache@, abs, want) == match cache_position(cache@.subrange(i as int, cache@.len() as int), abs, want) {
                Some(q) => Some(q + i),
                None => None,
            },
        decreases cache@.len() - i,
    {
        proof {
            assert(cache@.subrange(i as int, cache@.len() as int).drop_first() =~= cache@.subrange(i + 1, cache@.len() as int));
            assert(cache@.subrange(i as int, cache@.len() as int)[0] == cache@[i as int]);
        }
        let key = &cache[i].0;
        let kc = crate::delta_cache::components_of(key.as_str());
        let kcs = crate::text::chars_of(key.as_str());
        let kabs = kcs.len() > 0 && kcs[0] == '/';
        let mut same = kabs == abs && kc.len() == m;
        if same {
            let mut k: usize = 0;
            while k < m
                invariant
                    m <= comps@.len(),
                    kc@.len() == m,
                    k <= m,
                    same ==> forall|t: int| 0 <= t < k ==> (#[trigger] kc@[t])@ == comps@[t]@,
                    !same ==> crate::text::texts(kc@) != want,
                    want == crate::text::texts(comps@).take(m as int),
                decreases m - k,
            {
                if same && !crate::text::chars_eq(kc[k].as_slice(), comps[k].as_slice()) {
                    proof {
                        assert(crate::text::texts(kc@)[k as int] != want[k as int]);
                    }
                    same = false;
                }
                k = k + 1;
            }
            proof {
                if same {
                    assert(crate::text::texts(kc@) =~= want);
                }
            }
        } else {
            proof {
                if kabs == abs {
                    assert(crate::text::texts(kc@).len() != want.len());
                }
            }
        }
        proof {
            assert(kabs == crate::delta_cache::is_absolute(key@));
            assert(same == names_place(key@, abs, want));
        }
        if same {
            return Some(i);
        }
        i = i + 1;
    }
    None
}

/// The node reached from `idx` by the components `comps[from..]`.
fn walk_down(snap: &Snapshot, idx: NodeIndex, comps: &Vec<Vec<char>>, from: usize) -> (r: Option<NodeIndex>)
    requires
        snap.wf(),
        idx < snap.nodes@.len(),
        from <= comps@.len(),
    ensures
        r == descend(*snap, idx as int, crate::text::texts(comps@).skip(from as int)),
        r matches Some(t) ==> (t as int) < snap.nodes@.len(),
{
    let ghost cs = crate::text::texts(comps@);
    let mut cur = idx;
    let mut k = from;
    while k < comps.len()
        invariant
            snap.wf(),
            (cur as int) < snap.nodes@.len(),
            from <= k <= comps@.len(),
            cs == crate::text::texts(comps@),
            descend(*snap, idx as int, cs.skip(from as int)) == descend(*snap, cur as int, cs.skip(k as int)),
        decreases comps@.len() - k,
    {
        let name = crate::text::string_of(comps[k].as_slice());
        proof {
            lemma_first_named_node(*snap, cur as int, cs[k as int]);
            assert(cs.skip(k as int)[0] == cs[k as int]);
            assert(cs.skip(k as int).drop_first() =~= cs.skip(k + 1));
        }
        match snap.child_idx(cur, name.as_str()) {
            Some(c) => {
                cur = c;
            },
            None => {
                return None;
            },
        }
        k = k + 1;
    }
    proof {
        assert(cs.skip(comps@.len() as int) =~= Seq::<Seq<char>>::empty());
    }
    Some(cur)
}

/// The cached scan that best covers `view_root_path` and the node for it:
/// the scan of the path itself at its root, else the nearest cached
/// ancestor's scan at the node reached by the remaining components (none
/// when that node is missing).
pub fn resolve_scan_tree<'a>(scan_cache: &'a [(String, Snapshot)], view_root_path: &str) -> (r: Option<(&'a Snapshot, NodeIndex)>)
    requires
        cache_wf(scan_cache@),
    ensures
        match (r, resolved(scan_cache@, view_root_path@)) {
            (Some(found), Some(want)) => *found.0 == scan_cache@[want.0].1 && found.1 == want.1,
            (None, None) => true,
            _ => false,
        },
        r matches Some(found) ==> (found.1 as int) < found.0.nodes@.len() && found.0.wf(),
{
    let comps = crate::delta_cache::components_of(view_root_path);
    let cs = crate::text::chars_of(view_root_path);
    let abs = cs.len() > 0 && cs[0] == '/';
    let ghost want = crate::text::texts(comps@);
    let mut m: usize = comps.len();
    proof {
        assert(abs == crate::delta_cache::is_absolute(view_root_path@));
    }
    loop
        invariant
            cache_wf(scan_cache@),
            m <= comps@.len(),
            want == crate::text::texts(comps@),
            want == crate::delta_cache::components(view_root_path@),
            abs == crate::delta_cache::is_absolute(view_root_path@),
            resolved(scan_cache@, view_root_path@) == resolve_from(scan_cache@, abs, want, m as int),
        decreases m,
    {
        match find_cached(scan_cache, abs, &comps, m) {
            Some(i) => {
                proof {
                    lemma_cache_position_range(scan_cache@, abs, want.take(m as int));
                }
                let snap = &scan_cache[i].1;
                return match walk_down(snap, ROOT_NODE, &comps, m) {
                    Some(node) => Some((snap, node)),
                    None => None,
                };
            },
            None => {
                if m == 0 {
                    return None;
                }
                m = m - 1;
            },
        }
    }
}

} // verus!

verus! {

/// `base` with each of `parts` appended in turn.
pub open spec fn joined_path(base: Seq<char>, parts: Seq<Seq<char>>) -> Seq<char>
    decreases parts.len(),
{
    if parts.len() == 0 {
        base
    } else {
        crate::paths::join_spec(joined_path(base, parts.drop_last()), parts.last())
    }
}

/// Appends `part` to the path `p` as a component.
pub fn push_path(p: &mut String, part: &str)
    ensures
        final(p)@ == crate::paths::join_spec(old(p)@, part@),
{
    let joined = crate::paths::join(p.as_str(), part);
    *p = joined;
}

/// Size known for the tree path `key` (led by the browsed root's name):
/// the root size of the scan cached for the matching path below
/// `view_root`, else the size of the node at `key` in the resolved scan.
pub open spec fn size_for(
    cache: Seq<(String, Snapshot)>,
    view_root: Seq<char>,
    scan: Option<(Snapshot, NodeIndex)>,
    key: Seq<Seq<char>>,
) -> Option<u64> {
    if key.len() == 0 {
        None
    } else {
        let path = joined_path(view_root, key.drop_first());
        match cache_position(cache, crate::delta_cache::is_absolute(path), crate::delta_cache::components(path)) {
            Some(i) => Some(cache[i].1.nodes@[0].size),
            None => match scan {
                Some(t) => match t.0.path_target(t.1 as int, key) {
                    Some(f) => Some(t.0.nodes@[f as int].size),
                    None => None,
                },
                None => None,
            },
        }
    }
}

/// Known size for a tree path, from the scan cache or the resolved scan.
pub fn size_for_path(
    scan_cache: &[(String, Snapshot)],
    view_root_path: &str,
    root_scan_tree: Option<(&Snapshot, NodeIndex)>,
    path_key: &[String],
) -> (r: Option<u64>)
    requires
        cache_wf(scan_cache@),
        root_scan_tree matches Some(t) ==> t.0.wf() && (t.1 as int) < t.0.nodes@.len(),
    ensures
        r == size_for(
            scan_cache@,
            view_root_path@,
            match root_scan_tree {
                Some(t) => Some((*t.0, t.1)),
                None => None,
            },
            names_view(path_key@),
        ),
{
    let ghost key = names_view(path_key@);
    if path_key.len() == 0 {
        return None;
    }
    let mut path = crate::text::string_from(view_root_path);
    let mut k: usize = 1;
    proof {
        assert(key.drop_first().take(0) =~= Seq::<Seq<char>>::empty());
    }
    while k < path_key.len()
        invariant
            1 <= k <= path_key@.len(),
            key == names_view(path_key@),
            path@ == joined_path(view_root_path@, key.drop_first().take(k - 1)),
        decreases path_key@.len() - k,
    {
        proof {
            let t = key.drop_first().take(k as int);
            assert(t.drop_last() =~= key.drop_first().take(k - 1));
            assert(t.last() == path_key@[k as int]@);
        }
        push_path(&mut path, path_key[k].as_str());
        k = k + 1;
    }
    proof {
        assert(key.drop_first().take(path_key@.len() - 1) =~= key.drop_first());
    }
    let comps = crate::delta_cache::components_of(path.as_str());
    let cs = crate::text::chars_of(path.as_str());
    let abs = cs.len() > 0 && cs[0] == '/';
    proof {
        assert(crate::text::texts(comps@).take(comps@.len() as int) =~= crate::text::texts(comps@));
    }
    match find_cached(scan_cache, abs, &comps, comps.len()) {
        Some(i) => {
            proof {
                lemma_cache_position_range(scan_cache@, abs, crate::text::texts(comps@));
            }
            Some(scan_cache[i].1.node(ROOT_NODE).size())
        },
        None => match root_scan_tree {
            Some((snap, idx)) => match snap.find_node(idx, path_key) {
                Some(found) => {
                    proof {
                        lemma_path_target_node(*snap, idx as int, key);
                    }
                    Some(snap.node(found).size())
                },
                None => None,
            },
            None => None,
        },
    }
}

/// A node reached by a path is a node of the snapshot.
pub proof fn lemma_path_target_node(snap: Snapshot, idx: int, path: Seq<Seq<char>>)
    requires
        snap.wf(),
        0 <= idx < snap.nodes@.len(),
    ensures
        snap.path_target(idx, path) matches Some(f) ==> (f as int) < snap.nodes@.len(),
    decreases path.len(),
{
    if path.len() > 1 && snap.name_of(idx) == path[0] {
        lemma_first_named_node(snap, idx, path[1]);
        if let Some(c) = snap.first_named(snap.children_of(idx), path[1]) {
            lemma_path_target_node(snap, c as int, path.drop_first());
        }
    }
}

} // verus!

verus! {

/// Sizes of all nodes, by index.
pub open spec fn sizes_of(snap: Snapshot) -> Seq<u64> {
    snap.nodes@.map_values(|n: crate::model::FileNode| n.size)
}

/// Sizes after visiting node `idx`, whose parent has tree path `path`
/// (given each node's children, name and directory bit): the node takes
/// the size known for its own tree path when there is one, then a
/// directory's children are visited in order.
pub open spec fn enrich_walk(
    kids: spec_fn(int) -> Seq<NodeIndex>,
    names: spec_fn(int) -> Seq<char>,
    dirs: spec_fn(int) -> bool,
    n: int,
    sizes: Seq<u64>,
    cache: Seq<(String, Snapshot)>,
    view_root: Seq<char>,
    scan: Option<(Snapshot, NodeIndex)>,
    path: Seq<Seq<char>>,
    idx: int,
) -> Seq<u64>
    decreases n - idx, 1int, 0int,
{
    if idx < 0 || idx >= n {
        sizes
    } else {
        let key = path.push(names(idx));
        let s1 = match size_for(cache, view_root, scan, key) {
            Some(v) => sizes.update(idx, v),
            None => sizes,
        };
        if dirs(idx) {
            enrich_kids(kids, names, dirs, n, s1, cache, view_root, scan, key, idx, kids(idx).len() as int)
        } else {
            s1
        }
    }
}

/// Sizes after visiting the first `j` children of `idx`, whose tree path
/// is `key`.
pub open spec fn enrich_kids(
    kids: spec_fn(int) -> Seq<NodeIndex>,
    names: spec_fn(int) -> Seq<char>,
    dirs: spec_fn(int) -> bool,
    n: int,
    sizes: Seq<u64>,
    cache: Seq<(String, Snapshot)>,
    view_root: Seq<char>,
    scan: Option<(Snapshot, NodeIndex)>,
    key: Seq<Seq<char>>,
    idx: int,
    j: int,
) -> Seq<u64>
    decreases n - idx, 0int, j,
{
    if j <= 0 || idx < 0 || idx >= n {
        sizes
    } else {
        let before = enrich_kids(kids, names, dirs, n, sizes, cache, view_root, scan, key, idx, j - 1);
        let c = kids(idx)[j - 1] as int;
        if idx < c < n {
            enrich_walk(kids, names, dirs, n, before, cache, view_root, scan, key, c)
        } else {
            before
        }
    }
}

/// Children of each node of `snap`.
pub open spec fn kids_fn(snap: Snapshot) -> spec_fn(int) -> Seq<NodeIndex> {
    |p: int| snap.children_of(p)
}

/// Name of each node of `snap`.
pub open spec fn names_fn(snap: Snapshot) -> spec_fn(int) -> Seq<char> {
    |u: int| if 0 <= u < snap.nodes@.len() {
        snap.name_of(u)
    } else {
        Seq::empty()
    }
}

/// Directory bit of each node of `snap`.
pub open spec fn dirs_fn(snap: Snapshot) -> spec_fn(int) -> bool {
    |u: int| 0 <= u < snap.nodes@.len() && flags_dir(snap.nodes@[u].flags)
}

/// Snapshots that differ only in node sizes have the same shape functions.
proof fn lemma_same_shape_fns(a: Snapshot, b: Snapshot)
    requires
        b == (Snapshot { nodes: b.nodes, ..a }),
        b.nodes@.len() == a.nodes@.len(),
        forall|u: int| 0 <= u < a.nodes@.len() ==> crate::model::same_shape(#[trigger] b.nodes@[u], a.nodes@[u]),
    ensures
        kids_fn(b) == kids_fn(a),
        names_fn(b) == names_fn(a),
        dirs_fn(b) == dirs_fn(a),
{
    assert(kids_fn(b) =~= kids_fn(a));
    assert forall|u: int| #[trigger] names_fn(b)(u) == names_fn(a)(u) by {
        if 0 <= u < a.nodes@.len() {
            assert(crate::model::same_shape(b.nodes@[u], a.nodes@[u]));
        }
    }
    assert(names_fn(b) =~= names_fn(a));
    assert forall|u: int| #[trigger] dirs_fn(b)(u) == dirs_fn(a)(u) by {
        if 0 <= u < a.nodes@.len() {
            assert(crate::model::same_shape(b.nodes@[u], a.nodes@[u]));
        }
    }
    assert(dirs_fn(b) =~= dirs_fn(a));
}

/// Sets each node's size in the subtree at `idx` (entering directories
/// only) to the size known for its tree path, when one is known; `path`
/// holds the tree path of `idx`'s parent and is given back unchanged.
pub fn enrich_snapshot_sizes(
    snap: &mut Snapshot,
    idx: NodeIndex,
    scan_cache: &[(String, Snapshot)],
    view_root_path: &str,
    root_scan_tree: Option<(&Snapshot, NodeIndex)>,
    path: &mut Vec<String>,
)
    requires
        old(snap).wf(),
        old(snap).ordered(),
        idx < old(snap).nodes@.len(),
        cache_wf(scan_cache@),
        root_scan_tree matches Some(t) ==> t.0.wf() && (t.1 as int) < t.0.nodes@.len(),
    ensures
        *final(snap) == (Snapshot { nodes: final(snap).nodes, ..*old(snap) }),
        final(snap).nodes@.len() == old(snap).nodes@.len(),
        forall|u: int| 0 <= u < old(snap).nodes@.len() ==> crate::model::same_shape(#[trigger] final(snap).nodes@[u], old(snap).nodes@[u]),
        sizes_of(*final(snap)) == enrich_walk(
            kids_fn(*old(snap)),
            names_fn(*old(snap)),
            dirs_fn(*old(snap)),
            old(snap).nodes@.len() as int,
            sizes_of(*old(snap)),
            scan_cache@,
            view_root_path@,
            match root_scan_tree {
                Some(t) => Some((*t.0, t.1)),
                None => None,
            },
            names_view(old(path)@),
            idx as int,
        ),
        final(path)@ == old(path)@,
    decreases old(snap).nodes@.len() - idx,
{
    let ghost orig = *snap;
    let ghost n = orig.nodes@.len() as int;
    let ghost scan = match root_scan_tree {
        Some(t) => Some((*t.0, t.1)),
        None => None,
    };
    let ghost path0 = names_view(path@);
    let name = crate::text::string_from(snap.name(idx));
    path.push(name);
    let ghost pushed = path@;
    let ghost key = path0.push(orig.name_of(idx as int));
    proof {
        assert(names_view(path@) =~= key);
    }
    match size_for_path(scan_cache, view_root_path, root_scan_tree, path.as_slice()) {
        Some(size) => {
            snap.set_size_of(idx, size);
            proof {
                assert(sizes_of(*snap) =~= sizes_of(orig).update(idx as int, size));
            }
        },
        None => {},
    }
    let ghost s1 = sizes_of(*snap);
    proof {
        assert forall|u: int| 0 <= u < n implies crate::model::same_shape(#[trigger] snap.nodes@[u], orig.nodes@[u]) by {}
        lemma_same_shape_fns(orig, *snap);
    }
    if snap.node(idx).is_dir() {
        let children = snap.children_clone(idx);
        let mut j: usize = 0;
        proof {
            lemma_children_in_range(orig, idx as int);
        }
        while j < children.len()
            invariant
                orig.wf(),
                orig.ordered(),
                n == orig.nodes@.len(),
                n == old(snap).nodes@.len(),
                (idx as int) < n,
                children@ == orig.children_of(idx as int),
                forall|i: int| 0 <= i < children@.len() ==> (#[trigger] children@[i] as int) < n,
                j <= children@.len(),
                *snap == (Snapshot { nodes: snap.nodes, ..orig }),
                snap.nodes@.len() == n,
                forall|u: int| 0 <= u < n ==> crate::model::same_shape(#[trigger] snap.nodes@[u], orig.nodes@[u]),
                sizes_of(*snap) == enrich_kids(
                    kids_fn(orig),
                    names_fn(orig),
                    dirs_fn(orig),
                    n,
                    s1,
                    scan_cache@,
                    view_root_path@,
                    scan,
                    key,
                    idx as int,
                    j as int,
                ),
                names_view(path@) == key,
                path@ == pushed,
                pushed.drop_last() == old(path)@,
                cache_wf(scan_cache@),
                root_scan_tree matches Some(t) ==> t.0.wf() && (t.1 as int) < t.0.nodes@.len(),
                scan == match root_scan_tree {
                    Some(t) => Some((*t.0, t.1)),
                    None => None,
                },
            decreases children@.len() - j,
        {
            let c = children[j];
            let ghost before = *snap;
            proof {
                assert(idx < c);
                assert forall|p: int| #[trigger] before.children_of(p) == orig.children_of(p) by {}
                lemma_same_shape_fns(orig, before);
            }
            enrich_snapshot_sizes(snap, c, scan_cache, view_root_path, root_scan_tree, path);
            proof {
                lemma_same_shape_fns(before, *snap);
                assert forall|u: int| 0 <= u < n implies crate::model::same_shape(#[trigger] snap.nodes@[u], orig.nodes@[u]) by {
                    assert(crate::model::same_shape(before.nodes@[u], orig.nodes@[u]));
                }
            }
            j = j + 1;
        }
    }
    proof {
        assert(pushed.drop_last() =~= old(path)@);
    }
    path.pop();
}

} // verus!
