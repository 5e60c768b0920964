//! Edits of a finished snapshot: building one from a builder, copying a
//! node of another snapshot, grafting the listing of a directory under a
//! node, and ordering a node's children by name.
use crate::model::{
    child_list, flags_dir, flags_file_type, flags_inline, name_bytes, name_text, pack_flags, FileNode, NodeIndex,
    Snapshot, SnapshotBuilder, NO_PARENT, ROOT_NODE, SNAPSHOT_VERSION,
};
use vstd::prelude::*;
use crate::browse::{lemma_lex_total, lemma_lex_trans, lex_lt};
use vstd::utf8::{encode_utf8, valid_utf8};

verus! {

/// A stored name re-encodes to at most 65535 bytes.
proof fn lemma_name_text_len(node: FileNode, names: Seq<u8>)
    ensures
        encode_utf8(name_text(node, names)).len() <= 65535,
{
    if valid_utf8(name_bytes(node, names)) {
        vstd::utf8::decode_utf8_encode_utf8(name_bytes(node, names));
    } else {
        vstd::utf8::encode_utf8_decode_utf8(Seq::<char>::empty());
        assert(encode_utf8(Seq::<char>::empty()).len() == 0) by {
            vstd::utf8::decode_utf8_encode_utf8(Seq::<u8>::empty());
            vstd::utf8::encode_utf8_valid_utf8(Seq::<char>::empty());
        }
    }
}

/// Node `j` of `after` copies node `idx` of `other` under `parent`: the
/// same sizes, kind and name.
pub open spec fn copied_node(after: Snapshot, j: int, other: Snapshot, idx: int, parent: NodeIndex) -> bool {
    let n = after.nodes@[j];
    let src = other.nodes@[idx];
    &&& n.size == src.size
    &&& n.disk_usage == src.disk_usage
    &&& n.parent == parent
    &&& flags_dir(n.flags) == flags_dir(src.flags)
    &&& flags_file_type(n.flags) == flags_file_type(src.flags)
    &&& after.name_of(j) == other.name_of(idx)
}

/// The name of node `j` is inline or lies inside the name blob.
pub open spec fn name_in_blob(s: Snapshot, j: int) -> bool {
    let n = s.nodes@[j];
    flags_inline(n.flags) || n.name_off + n.name_len <= s.names@.len()
}

/// `after` is `before` with new nodes added after the old ones: the old
/// nodes, the names they had, and the name blob stay.
pub open spec fn extends(before: Snapshot, after: Snapshot) -> bool {
    &&& after.wf()
    &&& after.nodes@.len() >= before.nodes@.len()
    &&& after.nodes@.subrange(0, before.nodes@.len() as int) == before.nodes@
    &&& forall|j: int| 0 <= j < before.nodes@.len() && name_in_blob(before, j) ==> #[trigger] after.name_of(j) == before.name_of(j)
    &&& after.names@.len() >= before.names@.len()
    &&& after.names@.subrange(0, before.names@.len() as int) == before.names@
}

/// `perm` orders the texts `keys` (code-point order), equal texts keeping
/// their order: it lists each index once.
pub open spec fn stable_by_text(keys: Seq<Seq<char>>, perm: Seq<int>) -> bool {
    &&& perm.len() == keys.len()
    &&& forall|i: int| 0 <= i < perm.len() ==> 0 <= #[trigger] perm[i] < keys.len()
    &&& forall|i: int, j: int| 0 <= i < j < perm.len() ==> #[trigger] perm[i] != #[trigger] perm[j]
    &&& forall|i: int, j: int| 0 <= i < j < perm.len() ==> !lex_lt(keys[#[trigger] perm[j]], keys[#[trigger] perm[i]])
    &&& forall|i: int, j: int|
        0 <= i < j < perm.len() && keys[perm[i]] == keys[perm[j]] ==> #[trigger] perm[i] < #[trigger] perm[j]
}

/// The names of the nodes `kids` of `s`.
pub open spec fn names_of_nodes(s: Snapshot, kids: Seq<NodeIndex>) -> Seq<Seq<char>> {
    Seq::new(kids.len(), |i: int| s.name_of(kids[i] as int))
}

/// `r` holds the nodes `kids` of `s` ordered by name, nodes with the same
/// name keeping their order.
pub open spec fn sorted_by_name(s: Snapshot, kids: Seq<NodeIndex>, r: Seq<NodeIndex>) -> bool {
    exists|perm: Seq<int>|
        #![trigger stable_by_text(names_of_nodes(s, kids), perm)]
        stable_by_text(names_of_nodes(s, kids), perm) && r == Seq::new(perm.len(), |i: int| kids[perm[i]])
}

/// The positions `0..keys.len()` ordered by their texts, equal texts
/// keeping their order.
#[verifier::spinoff_prover]
#[verifier::rlimit(50)]
fn order_by_text(keys: &Vec<Vec<char>>) -> (order: Vec<usize>)
    ensures
        stable_by_text(keys@.map_values(|k: Vec<char>| k@), order@.map_values(|x: usize| x as int)),
{
    let ghost ks = keys@.map_values(|k: Vec<char>| k@);
    let mut order: Vec<usize> = Vec::new();
    let ghost mut perm: Seq<int> = Seq::empty();
    let mut k: usize = 0;
    while k < keys.len()
        invariant
            k <= keys@.len(),
            ks == keys@.map_values(|c: Vec<char>| c@),
            perm.len() == k,
            order@.len() == k,
            forall|i: int| 0 <= i < k ==> #[trigger] order@[i] as int == perm[i],
            forall|i: int| 0 <= i < perm.len() ==> 0 <= #[trigger] perm[i] < k,
            forall|i: int, j: int| 0 <= i < j < perm.len() ==> #[trigger] perm[i] != #[trigger] perm[j],
            forall|i: int, j: int| 0 <= i < j < perm.len() ==> !lex_lt(ks[#[trigger] perm[j]], ks[#[trigger] perm[i]]),
            forall|i: int, j: int|
                0 <= i < j < perm.len() && ks[perm[i]] == ks[perm[j]] ==> #[trigger] perm[i] < #[trigger] perm[j],
        decreases keys@.len() - k,
    {
        let ghost e = ks[k as int];
        let mut p: usize = order.len();
        while p > 0 && crate::browse::chars_lt(keys[k].as_slice(), keys[order[p - 1]].as_slice())
            invariant
                p <= order@.len(),
                order@.len() == k,
                k < keys@.len(),
                ks == keys@.map_values(|c: Vec<char>| c@),
                e == ks[k as int],
                forall|i: int| 0 <= i < k ==> #[trigger] order@[i] as int == perm[i],
                forall|i: int| 0 <= i < perm.len() ==> 0 <= #[trigger] perm[i] < k,
                perm.len() == k,
                forall|i: int| p <= i < order@.len() ==> lex_lt(e, ks[#[trigger] perm[i]]),
            decreases p,
        {
            proof {
                assert(order@[p - 1] as int == perm[p - 1]);
                assert(keys@[order@[p - 1] as int]@ == ks[perm[p - 1]]);
            }
            p = p - 1;
        }
        let ghost pb = perm;
        order.insert(p, k);
        proof {
            perm = pb.insert(p as int, k as int);
            assert forall|i: int| 0 <= i < k + 1 implies #[trigger] order@[i] as int == perm[i] by {
                if i < p {
                    assert(order@[i] as int == pb[i]);
                } else if i > p {
                    assert(perm[i] == pb[i - 1]);
                }
            }
            assert forall|i: int| 0 <= i < perm.len() implies 0 <= #[trigger] perm[i] < k + 1 by {
                if i < p {
                    assert(perm[i] == pb[i]);
                } else if i > p {
                    assert(perm[i] == pb[i - 1]);
                }
            }
            assert forall|i: int, j: int| 0 <= i < j < perm.len() implies #[trigger] perm[i] != #[trigger] perm[j] by {
                if i < p && j > p {
                    assert(perm[i] == pb[i] && perm[j] == pb[j - 1]);
                } else if i > p {
                    assert(perm[i] == pb[i - 1] && perm[j] == pb[j - 1]);
                } else if j < p {
                    assert(perm[i] == pb[i] && perm[j] == pb[j]);
                } else if i == p {
                    assert(perm[j] == pb[j - 1]);
                } else {
                    assert(perm[i] == pb[i]);
                }
            }
            assert forall|i: int, j: int| 0 <= i < j < perm.len() implies !lex_lt(
                ks[#[trigger] perm[j]],
                ks[#[trigger] perm[i]],
            ) by {
                if i < p && j > p {
                    assert(perm[i] == pb[i] && perm[j] == pb[j - 1]);
                    if p > 0 {
                        lemma_lex_total(e, ks[pb[p - 1]]);
                        if i < p - 1 {
                            assert(pb[i] != pb[p - 1]);
                            lemma_lex_total(ks[pb[i]], ks[pb[p - 1]]);
                            lemma_lex_total(ks[pb[i]], e);
                            if lex_lt(e, ks[pb[i]]) {
                                lemma_lex_trans(e, ks[pb[i]], ks[pb[p - 1]]);
                            }
                        }
                    }
                    lemma_lex_total(e, ks[pb[j - 1]]);
                    lemma_lex_total(ks[pb[i]], e);
                    if lex_lt(ks[pb[j - 1]], ks[pb[i]]) {
                        lemma_lex_trans(e, ks[pb[j - 1]], ks[pb[i]]);
                    }
                } else if i > p {
                    assert(perm[i] == pb[i - 1] && perm[j] == pb[j - 1]);
                } else if j < p {
                    assert(perm[i] == pb[i] && perm[j] == pb[j]);
                } else if i == p {
                    assert(perm[j] == pb[j - 1]);
                    lemma_lex_total(e, ks[pb[j - 1]]);
                } else {
                    assert(perm[i] == pb[i]);
                    if p > 0 {
                        lemma_lex_total(e, ks[pb[p - 1]]);
                        if i < p - 1 {
                            assert(pb[i] != pb[p - 1]);
                            lemma_lex_total(ks[pb[i]], ks[pb[p - 1]]);
                            lemma_lex_total(ks[pb[i]], e);
                            if lex_lt(e, ks[pb[i]]) {
                                lemma_lex_trans(e, ks[pb[i]], ks[pb[p - 1]]);
                            }
                        }
                    }
                }
            }
            assert forall|i: int, j: int|
                0 <= i < j < perm.len() && ks[perm[i]] == ks[perm[j]] implies #[trigger] perm[i] < #[trigger] perm[j] by {
                if i < p && j > p {
                    assert(perm[i] == pb[i] && perm[j] == pb[j - 1]);
                } else if i > p {
                    assert(perm[i] == pb[i - 1] && perm[j] == pb[j - 1]);
                } else if j < p {
                    assert(perm[i] == pb[i] && perm[j] == pb[j]);
                } else if i == p {
                    assert(perm[j] == pb[j - 1]);
                    lemma_lex_total(e, ks[pb[j - 1]]);
                } else {
                    assert(perm[i] == pb[i]);
                }
            }
        }
        k = k + 1;
    }
    proof {
        assert(order@.map_values(|x: usize| x as int) =~= perm);
    }
    order
}

impl Snapshot {
    /// The snapshot a finished builder gives (see `SnapshotBuilder::finish`).
    pub fn from_builder(root_path: String, builder: SnapshotBuilder, total_size: u64, total_disk_usage: u64) -> (snap: Snapshot)
        requires
            builder.wf(),
        ensures
            snap.wf(),
            snap.ordered(),
            snap.version == SNAPSHOT_VERSION,
            snap.root_path@ == root_path@,
            snap.total_size == total_size,
            snap.total_disk_usage == total_disk_usage,
            snap.nodes@ == builder.nodes@,
            snap.names@ == builder.names@,
            forall|p: int|
                0 <= p < builder.nodes@.len() ==> #[trigger] snap.children_of(p) == child_list(
                    builder.parents(),
                    p,
                    builder.nodes@.len() as int,
                ),
    {
        builder.finish(root_path, total_size, total_disk_usage)
    }

    /// Copies node `idx` of `other` (its sizes, kind and name) as a new
    /// childless node under `parent`; returns its index.
    pub fn clone_node_from(&mut self, other: &Snapshot, idx: NodeIndex, parent: NodeIndex) -> (r: NodeIndex)
        requires
            old(self).wf(),
            idx < other.nodes@.len(),
            old(self).nodes@.len() < NO_PARENT as int,
            old(self).names@.len() + 65535 <= 4294967295,
        ensures
            extends(*old(self), *final(self)),
            r as int == old(self).nodes@.len(),
            final(self).nodes@.len() == old(self).nodes@.len() + 1,
            copied_node(*final(self), r as int, *other, idx as int, parent),
            name_in_blob(*final(self), r as int),
            final(self).children_of(r as int) == Seq::<NodeIndex>::empty(),
            forall|p: int| 0 <= p < old(self).nodes@.len() ==> #[trigger] final(self).children_of(p) == old(self).children_of(p),
            final(self).child_index@ == old(self).child_index@,
            final(self).names@.len() <= old(self).names@.len() + 65535,
    {
        let src = *other.node(idx);
        let name = other.name(idx);
        proof {
            lemma_name_text_len(other.nodes@[idx as int], other.names@);
        }
        let ghost names0 = self.names@;
        let (off, len, name_flags, inline) = crate::model::alloc_name_into(&mut self.names, name);
        let flags = pack_flags(src.is_dir(), src.file_type(), name_flags != 0);
        let node = FileNode {
            size: src.size,
            disk_usage: src.disk_usage,
            parent,
            name_off: off,
            name_len: len,
            flags,
            inline_name: inline,
        };
        proof {
            if name_flags == 0 {
                assert(self.names@.subrange(off as int, off + len) =~= encode_utf8(name@));
            }
            crate::model::lemma_name_roundtrip(node, self.names@, name@);
        }
        let ghost mid = *self;
        let r = self.push_node(node);
        proof {
            assert(self.nodes@.subrange(0, old(self).nodes@.len() as int) =~= old(self).nodes@);
            assert(self.names@.subrange(0, names0.len() as int) =~= names0);
            assert forall|j: int| 0 <= j < old(self).nodes@.len() && name_in_blob(*old(self), j) implies #[trigger] self.name_of(j)
                == old(self).name_of(j) by {
                let nd = old(self).nodes@[j];
                assert(self.nodes@[j] == nd);
                if !flags_inline(nd.flags) {
                    assert(name_bytes(nd, self.names@) =~= name_bytes(nd, names0));
                }
            }
        }
        r
    }

    /// Copies every child of `listed`'s root (sizes, kind and name) as a
    /// new childless node appended to `target`'s children, in order.
    pub fn graft_children_from(&mut self, target: NodeIndex, listed: &Snapshot)
        requires
            old(self).wf(),
            listed.wf(),
            target < old(self).nodes@.len(),
            old(self).nodes@.len() + listed.children_of(0).len() < NO_PARENT as int,
            old(self).names@.len() + 65535 * listed.children_of(0).len() <= 4294967295,
            old(self).child_index@.len() + listed.children_of(0).len() * (old(self).child_count@[target as int]
                + listed.children_of(0).len()) <= 4294967295,
        ensures
            extends(*old(self), *final(self)),
            final(self).nodes@.len() == old(self).nodes@.len() + listed.children_of(0).len(),
            final(self).children_of(target as int) == old(self).children_of(target as int) + Seq::new(
                listed.children_of(0).len(),
                |i: int| (old(self).nodes@.len() + i) as NodeIndex,
            ),
            forall|i: int|
                0 <= i < listed.children_of(0).len() ==> copied_node(
                    *final(self),
                    old(self).nodes@.len() + i,
                    *listed,
                    #[trigger] listed.children_of(0)[i] as int,
                    target,
                ),
            forall|i: int|
                0 <= i < listed.children_of(0).len() ==> #[trigger] final(self).children_of(old(self).nodes@.len() + i)
                    == Seq::<NodeIndex>::empty(),
            forall|p: int|
                0 <= p < old(self).nodes@.len() && p != target ==> #[trigger] final(self).children_of(p) == old(self).children_of(p),
    {
        let kids = listed.children(ROOT_NODE);
        let k = kids.len();
        let ghost n0 = self.nodes@.len();
        let ghost o = *self;
        let ghost cnt0 = self.child_count@[target as int] as int;
        let mut i: usize = 0;
        proof {
            assert(self.nodes@.subrange(0, n0 as int) =~= self.nodes@);
            assert(self.names@.subrange(0, self.names@.len() as int) =~= self.names@);
            assert(self.children_of(target as int) =~= o.children_of(target as int) + Seq::new(0, |j: int| (n0 + j) as NodeIndex));
        }
        while i < k
            invariant
                kids@ == listed.children_of(0),
                k == kids@.len(),
                listed.wf(),
                i <= k,
                o == *old(self),
                n0 == o.nodes@.len(),
                cnt0 == o.child_count@[target as int],
                target < n0,
                n0 + k < NO_PARENT as int,
                o.names@.len() + 65535 * k <= 4294967295,
                o.child_index@.len() + k * (cnt0 + k) <= 4294967295,
                self.wf(),
                extends(o, *self),
                self.nodes@.len() == n0 + i,
                self.names@.len() <= o.names@.len() + 65535 * i,
                self.child_index@.len() <= o.child_index@.len() + i * (cnt0 + i),
                self.child_count@[target as int] == cnt0 + i,
                self.children_of(target as int) == o.children_of(target as int) + Seq::new(
                    i as nat,
                    |j: int| (n0 + j) as NodeIndex,
                ),
                forall|q: int|
                    0 <= q < i ==> copied_node(*self, n0 + q, *listed, #[trigger] kids@[q] as int, target) && name_in_blob(
                        *self,
                        n0 + q,
                    ),
                forall|q: int| 0 <= q < i ==> #[trigger] self.children_of(n0 + q) == Seq::<NodeIndex>::empty(),
                forall|p: int| 0 <= p < n0 && p != target ==> #[trigger] self.children_of(p) == o.children_of(p),
            decreases k - i,
        {
            assert(kids@[i as int] < listed.nodes@.len());
            let ghost before = *self;
            proof {
                assert(65535 * i + 65535 <= 65535 * k) by (nonlinear_arith)
                    requires
                        i < k,
                ;
            }
            let new_idx = self.clone_node_from(listed, kids[i], target);
            let ghost mid = *self;
            proof {
                assert(mid.children_of(target as int) == before.children_of(target as int));
                assert(before.children_of(target as int).len() == before.child_count@[target as int]);
                assert(mid.children_of(target as int).len() == mid.child_count@[target as int]);
                assert(mid.child_count@[target as int] == cnt0 + i);
                assert(i * (cnt0 + i) + cnt0 + i + 1 <= (i + 1) * (cnt0 + i + 1)) by (nonlinear_arith)
                    requires
                        cnt0 >= 0,
                        i >= 0,
                ;
                assert((i + 1) * (cnt0 + i + 1) <= k * (cnt0 + k)) by (nonlinear_arith)
                    requires
                        cnt0 >= 0,
                        i + 1 <= k,
                ;
            }
            self.push_child(target, new_idx);
            proof {
                assert(self.children_of(target as int) =~= o.children_of(target as int) + Seq::new(
                    (i + 1) as nat,
                    |j: int| (n0 + j) as NodeIndex,
                ));
                assert(self.child_count@[target as int] == cnt0 + i + 1) by {
                    assert(self.children_of(target as int).len() == cnt0 + i + 1);
                }
                assert(self.nodes@.subrange(0, n0 as int) =~= o.nodes@) by {
                    assert(self.nodes@ == mid.nodes@);
                    assert(mid.nodes@.subrange(0, before.nodes@.len() as int) == before.nodes@);
                }
                assert(self.names@.subrange(0, o.names@.len() as int) =~= o.names@) by {
                    assert(self.names@ == mid.names@);
                    assert(mid.names@.subrange(0, before.names@.len() as int) == before.names@);
                    assert(before.names@.subrange(0, o.names@.len() as int) == o.names@);
                }
                assert forall|j: int| 0 <= j < n0 && name_in_blob(o, j) implies #[trigger] self.name_of(j) == o.name_of(j) by {
                    assert(before.name_of(j) == o.name_of(j));
                    assert(before.nodes@[j] == o.nodes@[j]);
                    assert(name_in_blob(before, j));
                    assert(mid.name_of(j) == before.name_of(j));
                }
                assert forall|q: int| 0 <= q < i + 1 implies copied_node(*self, n0 + q, *listed, #[trigger] kids@[q] as int, target)
                    && name_in_blob(*self, n0 + q) by {
                    if q < i {
                        assert(mid.nodes@[n0 + q] == before.nodes@[n0 + q]);
                        assert(copied_node(before, n0 + q, *listed, kids@[q] as int, target));
                        assert(name_in_blob(before, n0 + q));
                        assert(mid.name_of(n0 + q) == before.name_of(n0 + q));
                    }
                }
                assert forall|q: int| 0 <= q < i + 1 implies #[trigger] self.children_of(n0 + q) == Seq::<NodeIndex>::empty() by {
                    assert(self.children_of(n0 + q) == mid.children_of(n0 + q));
                    if q < i {
                        assert(mid.children_of(n0 + q) == before.children_of(n0 + q));
                    }
                }
                assert forall|p: int| 0 <= p < n0 && p != target implies #[trigger] self.children_of(p) == o.children_of(p) by {
                    assert(self.children_of(p) == mid.children_of(p));
                    assert(mid.children_of(p) == before.children_of(p));
                }
            }
            i = i + 1;
        }
    }

    /// Orders `parent`'s children by name (code-point order); children
    /// with the same name keep their order.
    pub fn sort_children(&mut self, parent: NodeIndex)
        requires
            old(self).wf(),
            parent < old(self).nodes@.len(),
        ensures
            final(self).wf(),
            final(self).nodes@ == old(self).nodes@,
            final(self).names@ == old(self).names@,
            final(self).child_start@ == old(self).child_start@,
            final(self).child_count@ == old(self).child_count@,
            sorted_by_name(*old(self), old(self).children_of(parent as int), final(self).children_of(parent as int)),
            forall|p: int| 0 <= p < old(self).nodes@.len() && p != parent ==> #[trigger] final(self).children_of(p) == old(self).children_of(p),
    {
        let ghost o = *self;
        let kids = self.children_clone(parent);
        let start = self.child_start[parent as usize] as usize;
        let count = self.child_count[parent as usize] as usize;
        let ghost ks = names_of_nodes(o, kids@);
        let mut keys: Vec<Vec<char>> = Vec::new();
        let mut i: usize = 0;
        while i < count
            invariant
                o == *old(self),
                *self == o,
                kids@ == o.children_of(parent as int),
                count == kids@.len(),
                o.wf(),
                i <= count,
                keys@.len() == i,
                forall|j: int| 0 <= j < i ==> (#[trigger] keys@[j])@ == ks[j],
                ks == names_of_nodes(o, kids@),
            decreases count - i,
        {
            let nm = crate::text::chars_of(self.name(kids[i]));
            keys.push(nm);
            i = i + 1;
        }
        proof {
            assert(keys@.map_values(|k: Vec<char>| k@) =~= ks);
        }
        let order = order_by_text(&keys);
        let ghost perm = order@.map_values(|x: usize| x as int);
        let mut t: usize = 0;
        while t < count
            invariant
                o == *old(self),
                kids@ == o.children_of(parent as int),
                count == kids@.len(),
                start == o.child_start@[parent as int],
                count == o.child_count@[parent as int],
                o.wf(),
                parent < o.nodes@.len(),
                stable_by_text(ks, perm),
                perm == order@.map_values(|x: usize| x as int),
                perm.len() == count,
                t <= count,
                self.nodes@ == o.nodes@,
                self.names@ == o.names@,
                self.child_start@ == o.child_start@,
                self.child_count@ == o.child_count@,
                self.child_index@.len() == o.child_index@.len(),
                forall|j: int|
                    0 <= j < self.child_index@.len() ==> #[trigger] self.child_index@[j] == if start <= j < start + t {
                        kids@[perm[j - start]]
                    } else {
                        o.child_index@[j]
                    },
            decreases count - t,
        {
            proof {
                assert(0 <= perm[t as int] < count);
                assert(o.child_start@[parent as int] + o.child_count@[parent as int] <= o.child_index@.len());
                assert(start + t < self.child_index@.len());
            }
            let c = kids[order[t]];
            let len = self.child_index.len();
            assert(start + t < len);
            let pos: usize = start + t;
            self.child_index.set(pos, c);
            t = t + 1;
        }
        proof {
            assert forall|i: int| 0 <= i < self.child_index@.len() implies (#[trigger] self.child_index@[i] as int) < self.nodes@.len() by {
                if start <= i < start + count {
                    let q = perm[i - start];
                    assert(0 <= q < count);
                    assert(kids@[q] == o.child_index@[start + q]);
                }
            }
            assert(self.children_of(parent as int) =~= Seq::new(perm.len(), |i: int| kids@[perm[i]]));
            assert forall|p: int| 0 <= p < o.nodes@.len() && p != parent implies #[trigger] self.children_of(p) == o.children_of(p) by {
                assert(Snapshot::disjoint(
                    o.child_start@[p] as int,
                    o.child_count@[p] as int,
                    o.child_start@[parent as int] as int,
                    o.child_count@[parent as int] as int,
                ));
                assert(self.children_of(p) =~= o.children_of(p));
            }
            assert(stable_by_text(names_of_nodes(o, o.children_of(parent as int)), perm));
        }
    }
}

} // verus!
