//! Trees of size changes between two scans: each node carries its current
//! size and how much it grew or shrank, directories summing their children.
//! Queries: whether anything changed enough, the part of the tree above a
//! threshold, a subtree by path, and the files and extensions below a node.
use vstd::prelude::*;

verus! {

/// A node of a change tree. Its children have distinct names
/// (`names_distinct`), which filtering and aggregation keep.
#[derive(Debug)]
pub struct DiffNode {
    pub name: String,
    pub is_dir: bool,
    pub current_size: u64,
    pub size_delta: i64,
    pub children: Vec<DiffNode>,
}

/// Sibling names are distinct in every directory of the tree: a node's
/// children are keyed by their names.
pub open spec fn names_distinct(n: DiffNode) -> bool
    decreases n,
{
    &&& sibling_names_distinct(n.children@)
    &&& forall|i: int| 0 <= i < n.children@.len() ==> names_distinct(#[trigger] n.children@[i])
}

/// No two nodes of `cs` share a name.
pub open spec fn sibling_names_distinct(cs: Seq<DiffNode>) -> bool {
    forall|i: int, j: int| 0 <= i < j < cs.len() ==> (#[trigger] cs[i]).name@ != (#[trigger] cs[j]).name@
}

/// The names of `cs`, in order.
pub open spec fn names_of(cs: Seq<DiffNode>) -> Seq<Seq<char>> {
    cs.map_values(|c: DiffNode| c.name@)
}

/// `|d|` (meaningful away from `i64::MIN`, whose magnitude has no `i64`).
pub open spec fn abs_delta(d: i64) -> int {
    if d < 0 {
        -(d as int)
    } else {
        d as int
    }
}

/// No delta in the tree is `i64::MIN` (whose magnitude has no `i64`).
pub open spec fn deltas_bounded(n: DiffNode) -> bool
    decreases n,
{
    &&& n.size_delta != i64::MIN
    &&& forall|i: int| 0 <= i < n.children@.len() ==> deltas_bounded(#[trigger] n.children@[i])
}

/// The node or one below it changed by at least `threshold` (compared as a
/// signed 64-bit number).
pub open spec fn significant(n: DiffNode, threshold: u64) -> bool
    decreases n,
{
    abs_delta(n.size_delta) >= (threshold as i64) as int || exists|i: int|
        0 <= i < n.children@.len() && significant(#[trigger] n.children@[i], threshold)
}

/// Whether the node or anything below it changed by at least `threshold`.
pub fn has_significant_changes(node: &DiffNode, threshold: u64) -> (b: bool)
    requires
        deltas_bounded(*node),
    ensures
        b == significant(*node, threshold),
    decreases node,
{
    let t = threshold as i64;
    let mag = if node.size_delta < 0 { -node.size_delta } else { node.size_delta };
    if mag >= t {
        return true;
    }
    let mut i: usize = 0;
    while i < node.children.len()
        invariant
            i <= node.children@.len(),
            deltas_bounded(*node),
            forall|j: int| 0 <= j < i ==> !significant(#[trigger] node.children@[j], threshold),
        decreases node.children@.len() - i,
    {
        proof {
            assert(deltas_bounded(node.children@[i as int]));
        }
        if has_significant_changes(&node.children[i], threshold) {
            return true;
        }
        i = i + 1;
    }
    false
}

/// The node stays in a tree filtered at `threshold`: something below it
/// stays, or it changed, by at least the threshold (any change for 0).
pub open spec fn kept(n: DiffNode, threshold: u64) -> bool
    decreases n, 1nat,
{
    any_kept(n.children@, threshold) || (n.size_delta != 0 && (threshold == 0 || abs_delta(n.size_delta) >= (
    threshold as i64) as int))
}

/// Some node of `cs` stays.
pub open spec fn any_kept(cs: Seq<DiffNode>, threshold: u64) -> bool
    decreases cs, 0nat,
{
    if cs.len() == 0 {
        false
    } else {
        kept(cs[cs.len() - 1], threshold) || any_kept(cs.subrange(0, cs.len() - 1), threshold)
    }
}

/// `r` is `n` filtered at `threshold`: the same node, with exactly the
/// children that stay, each filtered in turn, in order.
pub open spec fn filtered_as(n: DiffNode, threshold: u64, r: DiffNode) -> bool
    decreases n, 1nat,
{
    &&& r.name@ == n.name@
    &&& r.is_dir == n.is_dir
    &&& r.current_size == n.current_size
    &&& r.size_delta == n.size_delta
    &&& filtered_seq(n.children@, threshold, r.children@)
}

/// `rs` are the nodes of `cs` that stay, each filtered, in order.
pub open spec fn filtered_seq(cs: Seq<DiffNode>, threshold: u64, rs: Seq<DiffNode>) -> bool
    decreases cs, 0nat,
{
    if cs.len() == 0 {
        rs.len() == 0
    } else if kept(cs[cs.len() - 1], threshold) {
        &&& rs.len() > 0
        &&& filtered_as(cs[cs.len() - 1], threshold, rs[rs.len() - 1])
        &&& filtered_seq(cs.subrange(0, cs.len() - 1), threshold, rs.subrange(0, rs.len() - 1))
    } else {
        filtered_seq(cs.subrange(0, cs.len() - 1), threshold, rs)
    }
}

/// Filtering keeps sibling names distinct: a filtered node has the names
/// of the original below it.
pub proof fn lemma_filtered_names(n: DiffNode, threshold: u64, r: DiffNode)
    requires
        filtered_as(n, threshold, r),
        names_distinct(n),
    ensures
        names_distinct(r),
    decreases n, 1nat,
{
    assert(decreases_to!(n => n.children));
    assert(decreases_to!(n.children => n.children@));
    lemma_filtered_seq_names(n.children@, threshold, r.children@);
}

/// The filtered nodes of `cs` keep distinct names, each taken from `cs`.
proof fn lemma_filtered_seq_names(cs: Seq<DiffNode>, threshold: u64, rs: Seq<DiffNode>)
    requires
        filtered_seq(cs, threshold, rs),
        sibling_names_distinct(cs),
        forall|i: int| 0 <= i < cs.len() ==> names_distinct(#[trigger] cs[i]),
    ensures
        sibling_names_distinct(rs),
        forall|k: int| 0 <= k < rs.len() ==> names_distinct(#[trigger] rs[k]),
        forall|k: int| 0 <= k < rs.len() ==> names_of(cs).contains(#[trigger] rs[k].name@),
    decreases cs, 0nat,
{
    if cs.len() > 0 {
        let last = cs[cs.len() - 1];
        let front = cs.subrange(0, cs.len() - 1);
        assert(decreases_to!(cs => front));
        assert(forall|i: int| 0 <= i < front.len() ==> #[trigger] front[i] == cs[i]);
        assert forall|k: int| 0 <= k < front.len() implies names_of(cs).contains(#[trigger] names_of(front)[k]) by {
            assert(names_of(cs)[k] == names_of(front)[k]);
        }
        if kept(last, threshold) {
            let rfront = rs.subrange(0, rs.len() - 1);
            lemma_filtered_seq_names(front, threshold, rfront);
            assert(decreases_to!(cs => last));
            lemma_filtered_names(last, threshold, rs[rs.len() - 1]);
            assert(forall|k: int| 0 <= k < rfront.len() ==> #[trigger] rfront[k] == rs[k]);
            assert(names_of(cs)[cs.len() - 1] == last.name@);
            assert(filtered_as(last, threshold, rs[rs.len() - 1]));
            assert(rs[rs.len() - 1].name@ == last.name@);
            assert forall|k: int| 0 <= k < rs.len() implies names_distinct(#[trigger] rs[k]) by {
                if k < rs.len() - 1 {
                    assert(rfront[k] == rs[k]);
                }
            }
            assert forall|k: int| 0 <= k < rs.len() implies names_of(cs).contains(#[trigger] rs[k].name@) by {
                if k < rs.len() - 1 {
                    assert(rfront[k] == rs[k]);
                    let w = choose|w: int| 0 <= w < names_of(front).len() && names_of(front)[w] == rfront[k].name@;
                    assert(names_of(cs)[w] == names_of(front)[w]);
                } else {
                    assert(names_of(cs)[cs.len() - 1] == rs[k].name@);
                }
            }
            assert forall|i: int, j: int| 0 <= i < j < rs.len() implies (#[trigger] rs[i]).name@ != (
            #[trigger] rs[j]).name@ by {
                if j == rs.len() - 1 {
                    assert(rfront[i] == rs[i]);
                    let w = choose|w: int| 0 <= w < names_of(front).len() && names_of(front)[w] == rfront[i].name@;
                    assert(front[w] == cs[w]);
                    assert(cs[w].name@ != cs[cs.len() - 1].name@);
                } else {
                    assert(rfront[i] == rs[i] && rfront[j] == rs[j]);
                }
            }
        } else {
            lemma_filtered_seq_names(front, threshold, rs);
            assert forall|k: int| 0 <= k < rs.len() implies names_of(cs).contains(#[trigger] rs[k].name@) by {
                let w = choose|w: int| 0 <= w < names_of(front).len() && names_of(front)[w] == rs[k].name@;
                assert(names_of(cs)[w] == names_of(front)[w]);
            }
        }
    }
}

fn copy_name(s: &String) -> (r: String)
    ensures
        r@ == s@,
{
    s.clone()
}

/// The part of the tree that changed by at least `threshold` (any change
/// for 0), keeping the path to every such node; `None` when nothing stays.
pub fn filter_by_threshold(node: &DiffNode, threshold: u64) -> (r: Option<DiffNode>)
    requires
        deltas_bounded(*node),
    ensures
        r is Some <==> kept(*node, threshold),
        r matches Some(m) ==> filtered_as(*node, threshold, m),
        names_distinct(*node) ==> (r matches Some(m) ==> names_distinct(m)),
    decreases node,
{
    let mut children: Vec<DiffNode> = Vec::new();
    let mut i: usize = 0;
    while i < node.children.len()
        invariant
            i <= node.children@.len(),
            deltas_bounded(*node),
            filtered_seq(node.children@.subrange(0, i as int), threshold, children@),
            any_kept(node.children@.subrange(0, i as int), threshold) <==> children@.len() > 0,
        decreases node.children@.len() - i,
    {
        proof {
            assert(deltas_bounded(node.children@[i as int]));
        }
        let ghost before = children@;
        let ghost pre = node.children@.subrange(0, i as int);
        let ghost cur = node.children@.subrange(0, i + 1);
        proof {
            assert(cur.subrange(0, cur.len() - 1) =~= pre);
            assert(cur[cur.len() - 1] == node.children@[i as int]);
        }
        match filter_by_threshold(&node.children[i], threshold) {
            Some(c) => {
                children.push(c);
                proof {
                    assert(children@.subrange(0, children@.len() - 1) =~= before);
                    assert(children@[children@.len() - 1] == c);
                }
            },
            None => {},
        }
        i = i + 1;
    }
    proof {
        assert(node.children@.subrange(0, node.children@.len() as int) =~= node.children@);
    }
    let t = threshold as i64;
    let mag = if node.size_delta < 0 { -node.size_delta } else { node.size_delta };
    let has_visible_children = children.len() > 0;
    let has_real_change = node.size_delta != 0;
    let above_threshold = threshold == 0 || mag >= t;
    if has_visible_children || (has_real_change && above_threshold) {
        let m = DiffNode {
            name: copy_name(&node.name),
            is_dir: node.is_dir,
            current_size: node.current_size,
            size_delta: node.size_delta,
            children,
        };
        proof {
            assert(filtered_as(*node, threshold, m));
            if names_distinct(*node) {
                lemma_filtered_names(*node, threshold, m);
            }
        }
        Some(m)
    } else {
        None
    }
}

/// The first child named `name`.
pub open spec fn child_named(cs: Seq<DiffNode>, name: Seq<char>) -> Option<DiffNode>
    decreases cs.len(),
{
    if cs.len() == 0 {
        None
    } else if cs[0].name@ == name {
        Some(cs[0])
    } else {
        child_named(cs.drop_first(), name)
    }
}

/// The node reached from `n` along `path`, whose first component names `n`
/// itself (an empty path gives `n`).
pub open spec fn subtree_at(n: DiffNode, path: Seq<Seq<char>>) -> Option<DiffNode>
    decreases path.len(),
{
    if path.len() == 0 {
        Some(n)
    } else if path[0] != n.name@ {
        None
    } else if path.len() == 1 {
        Some(n)
    } else {
        match child_named(n.children@, path[1]) {
            None => None,
            Some(c) => subtree_at(c, path.drop_first()),
        }
    }
}

fn find_child<'a>(n: &'a DiffNode, name: &str) -> (r: Option<&'a DiffNode>)
    ensures
        match r {
            Some(c) => child_named(n.children@, name@) == Some(*c),
            None => child_named(n.children@, name@) is None,
        },
{
    let mut i: usize = 0;
    proof {
        assert(n.children@.subrange(0, n.children@.len() as int) =~= n.children@);
    }
    while i < n.children.len()
        invariant
            i <= n.children@.len(),
            child_named(n.children@, name@) == child_named(n.children@.subrange(i as int, n.children@.len() as int), name@),
        decreases n.children@.len() - i,
    {
        let ghost rest = n.children@.subrange(i as int, n.children@.len() as int);
        proof {
            assert(rest[0] == n.children@[i as int]);
            assert(rest.drop_first() =~= n.children@.subrange(i + 1, n.children@.len() as int));
        }
        if crate::model::str_eq(n.children[i].name.as_str(), name) {
            return Some(&n.children[i]);
        }
        i = i + 1;
    }
    None
}

/// The node reached along `components` (the first naming `node` itself).
pub fn find_subtree<'a>(node: &'a DiffNode, components: &[&str]) -> (r: Option<&'a DiffNode>)
    ensures
        match r {
            Some(x) => subtree_at(*node, components@.map_values(|c: &str| c@)) == Some(*x),
            None => subtree_at(*node, components@.map_values(|c: &str| c@)) is None,
        },
    decreases components@.len(),
{
    let ghost path = components@.map_values(|c: &str| c@);
    if components.len() == 0 {
        return Some(node);
    }
    proof {
        assert(path[0] == components@[0]@);
    }
    if !crate::model::str_eq(components[0], node.name.as_str()) {
        return None;
    }
    if components.len() == 1 {
        return Some(node);
    }
    let rest = vstd::slice::slice_subrange(components, 1, components.len());
    proof {
        assert(path[1] == components@[1]@);
        assert(rest@.map_values(|c: &str| c@) =~= path.drop_first());
    }
    match find_child(node, components[1]) {
        None => None,
        Some(child) => find_subtree(child, rest),
    }
}

/// The non-empty files at or below `n` with their current sizes, node
/// first, then each child's in order.
pub open spec fn large_files(n: DiffNode) -> Seq<(Seq<char>, u64)>
    decreases n, 1nat,
{
    (if !n.is_dir && n.current_size > 0 {
        seq![(n.name@, n.current_size)]
    } else {
        Seq::empty()
    }) + large_files_seq(n.children@)
}

/// `large_files` of each node of `cs`, in order.
pub open spec fn large_files_seq(cs: Seq<DiffNode>) -> Seq<(Seq<char>, u64)>
    decreases cs, 0nat,
{
    if cs.len() == 0 {
        Seq::empty()
    } else {
        large_files_seq(cs.subrange(0, cs.len() - 1)) + large_files(cs[cs.len() - 1])
    }
}

/// View of a (name, size) list.
pub open spec fn pairs_view(v: Seq<(String, u64)>) -> Seq<(Seq<char>, u64)> {
    v.map_values(|p: (String, u64)| (p.0@, p.1))
}

/// Appends the non-empty files at or below `node` with their sizes.
pub fn collect_large_files(node: &DiffNode, results: &mut Vec<(String, u64)>)
    ensures
        pairs_view(final(results)@) == pairs_view(old(results)@) + large_files(*node),
    decreases node,
{
    if !node.is_dir && node.current_size > 0 {
        let p = (node.name.clone(), node.current_size);
        proof {
            crate::text::lemma_map_values_push(results@, p, |p: (String, u64)| (p.0@, p.1));
        }
        results.push(p);
    }
    let ghost start = pairs_view(results@);
    let mut i: usize = 0;
    proof {
        assert(node.children@.subrange(0, 0) =~= Seq::<DiffNode>::empty());
        assert(start =~= start + large_files_seq(node.children@.subrange(0, 0)));
    }
    while i < node.children.len()
        invariant
            i <= node.children@.len(),
            pairs_view(results@) == start + large_files_seq(node.children@.subrange(0, i as int)),
        decreases node.children@.len() - i,
    {
        let ghost cur = node.children@.subrange(0, i + 1);
        proof {
            assert(cur.subrange(0, cur.len() - 1) =~= node.children@.subrange(0, i as int));
            assert(cur[cur.len() - 1] == node.children@[i as int]);
        }
        collect_large_files(&node.children[i], results);
        proof {
            assert(pairs_view(results@) =~= start + large_files_seq(cur));
        }
        i = i + 1;
    }
    proof {
        assert(node.children@.subrange(0, node.children@.len() as int) =~= node.children@);
        assert(pairs_view(results@) =~= pairs_view(old(results)@) + large_files(*node));
    }
}

/// Extension of a file name: "." and what follows its last '.', or
/// "(none)" when it has no '.'.
pub open spec fn ext_of(name: Seq<char>) -> Seq<char> {
    if crate::paths::last_dot(name) >= 0 {
        seq!['.'] + name.subrange(crate::paths::last_dot(name) + 1, name.len() as int)
    } else {
        "(none)"@
    }
}

proof fn lemma_last_dot_range(s: Seq<char>)
    ensures
        -1 <= crate::paths::last_dot(s) < s.len(),
        crate::paths::last_dot(s) >= 0 ==> s[crate::paths::last_dot(s)] == '.',
        forall|j: int| crate::paths::last_dot(s) < j < s.len() ==> #[trigger] s[j] != '.',
    decreases s.len(),
{
    if s.len() > 0 && s.last() != '.' {
        lemma_last_dot_range(s.drop_last());
        assert forall|j: int| crate::paths::last_dot(s) < j < s.len() implies #[trigger] s[j] != '.' by {
            if j < s.len() - 1 {
                assert(s[j] == s.drop_last()[j]);
            }
        }
    }
}

proof fn lemma_last_dot_is(s: Seq<char>, k: int)
    requires
        -1 <= k < s.len(),
        k >= 0 ==> s[k] == '.',
        forall|j: int| k < j < s.len() ==> #[trigger] s[j] != '.',
    ensures
        crate::paths::last_dot(s) == k,
    decreases s.len(),
{
    if s.len() > k + 1 {
        assert(s.last() != '.');
        assert forall|j: int| k < j < s.drop_last().len() implies #[trigger] s.drop_last()[j] != '.' by {
            assert(s.drop_last()[j] == s[j]);
        }
        if k >= 0 {
            assert(s.drop_last()[k] == s[k]);
        }
        lemma_last_dot_is(s.drop_last(), k);
    }
}

fn extension(name: &str) -> (e: String)
    ensures
        e@ == ext_of(name@),
{
    let cs = crate::text::chars_of(name);
    let mut k: usize = cs.len();
    while k > 0 && cs[k - 1] != '.'
        invariant
            k <= cs@.len(),
            forall|j: int| k <= j < cs@.len() ==> #[trigger] cs@[j] != '.',
        decreases k,
    {
        k = k - 1;
    }
    proof {
        lemma_last_dot_is(cs@, k - 1);
        reveal_strlit("(none)");
    }
    if k == 0 {
        return crate::text::string_from("(none)");
    }
    let mut v: Vec<char> = Vec::new();
    v.push('.');
    let mut j: usize = k;
    while j < cs.len()
        invariant
            k <= j <= cs@.len(),
            v@ == seq!['.'] + cs@.subrange(k as int, j as int),
        decreases cs@.len() - j,
    {
        v.push(cs[j]);
        proof {
            assert(v@ =~= seq!['.'] + cs@.subrange(k as int, j + 1));
        }
        j = j + 1;
    }
    crate::text::string_of(v.as_slice())
}

/// Total size of the files whose extension is `ext`.
pub open spec fn ext_total(files: Seq<(Seq<char>, u64)>, ext: Seq<char>) -> nat
    decreases files.len(),
{
    if files.len() == 0 {
        0
    } else {
        ext_total(files.drop_last(), ext) + if ext_of(files.last().0) == ext {
            files.last().1 as nat
        } else {
            0nat
        }
    }
}

/// Total size of the files.
pub open spec fn files_total(files: Seq<(Seq<char>, u64)>) -> nat
    decreases files.len(),
{
    if files.len() == 0 {
        0
    } else {
        files_total(files.drop_last()) + files.last().1 as nat
    }
}

/// Value of the entry with key `k`, 0 when there is none.
pub open spec fn amount_of(map: Seq<(String, u64)>, k: Seq<char>) -> nat
    decreases map.len(),
{
    if map.len() == 0 {
        0
    } else if map[0].0@ == k {
        map[0].1 as nat
    } else {
        amount_of(map.drop_first(), k)
    }
}

/// No key occurs twice.
pub open spec fn unique_keys(map: Seq<(String, u64)>) -> bool {
    forall|i: int, j: int| 0 <= i < j < map.len() ==> (#[trigger] map[i]).0@ != (#[trigger] map[j]).0@
}

proof fn lemma_amount_push(s: Seq<(String, u64)>, e: (String, u64), k: Seq<char>)
    requires
        forall|j: int| 0 <= j < s.len() ==> (#[trigger] s[j]).0@ != e.0@,
    ensures
        amount_of(s.push(e), k) == if k == e.0@ {
            e.1 as nat
        } else {
            amount_of(s, k)
        },
    decreases s.len(),
{
    reveal_with_fuel(amount_of, 2);
    if s.len() > 0 {
        assert(s.push(e)[0] == s[0]);
        assert(s.push(e).drop_first() =~= s.drop_first().push(e));
        assert forall|j: int| 0 <= j < s.drop_first().len() implies (#[trigger] s.drop_first()[j]).0@ != e.0@ by {
            assert(s.drop_first()[j] == s[j + 1]);
        }
        lemma_amount_push(s.drop_first(), e, k);
    } else {
        assert(s.push(e)[0] == e);
        assert(s.push(e).drop_first() =~= Seq::<(String, u64)>::empty());
    }
}

proof fn lemma_amount_set(s: Seq<(String, u64)>, i: int, e: (String, u64), k: Seq<char>)
    requires
        0 <= i < s.len(),
        s[i].0@ == e.0@,
        unique_keys(s),
    ensures
        amount_of(s.update(i, e), k) == if k == e.0@ {
            e.1 as nat
        } else {
            amount_of(s, k)
        },
        amount_of(s, e.0@) == s[i].1,
    decreases s.len(),
{
    if i > 0 {
        assert(s.update(i, e).drop_first() =~= s.drop_first().update(i - 1, e));
        assert(s.drop_first()[i - 1] == s[i]);
        assert forall|a: int, b: int| 0 <= a < b < s.drop_first().len() implies (#[trigger] s.drop_first()[a]).0@ != (
        #[trigger] s.drop_first()[b]).0@ by {
            assert(s.drop_first()[a] == s[a + 1]);
            assert(s.drop_first()[b] == s[b + 1]);
        }
        assert(s[0].0@ != s[i].0@);
        lemma_amount_set(s.drop_first(), i - 1, e, k);
    } else {
        assert(s.update(0, e).drop_first() =~= s.drop_first());
    }
}

/// Adds `amt` to the entry with key `key`, creating it when missing.
fn add_amount(map: &mut Vec<(String, u64)>, key: String, amt: u64)
    requires
        unique_keys(old(map)@),
        amount_of(old(map)@, key@) + amt <= u64::MAX,
    ensures
        unique_keys(final(map)@),
        forall|k: Seq<char>| #[trigger] amount_of(final(map)@, k) == amount_of(old(map)@, k) + if k == key@ {
            amt as nat
        } else {
            0nat
        },
{
    let ghost orig = map@;
    let mut i: usize = 0;
    while i < map.len()
        invariant
            map@ == orig,
            orig == old(map)@,
            unique_keys(orig),
            amount_of(orig, key@) + amt <= u64::MAX,
            i <= orig.len(),
            forall|j: int| 0 <= j < i ==> (#[trigger] orig[j]).0@ != key@,
        decreases orig.len() - i,
    {
        if crate::model::str_eq(map[i].0.as_str(), key.as_str()) {
            proof {
                lemma_amount_set(orig, i as int, (map[i as int].0, 0), key@);
            }
            let entry = (map[i].0.clone(), map[i].1 + amt);
            map.set(i, entry);
            proof {
                assert forall|k: Seq<char>| #[trigger] amount_of(map@, k) == amount_of(orig, k) + if k == key@ {
                    amt as nat
                } else {
                    0nat
                } by {
                    lemma_amount_set(orig, i as int, entry, k);
                }
                assert forall|a: int, b: int| 0 <= a < b < map@.len() implies (#[trigger] map@[a]).0@ != (
                #[trigger] map@[b]).0@ by {
                    assert(orig[a].0@ != orig[b].0@);
                }
            }
            return;
        }
        i = i + 1;
    }
    let entry = (key, amt);
    proof {
        assert forall|k: Seq<char>| #[trigger] amount_of(orig.push(entry), k) == amount_of(orig, k) + if k == entry.0@ {
            amt as nat
        } else {
            0nat
        } by {
            lemma_amount_push(orig, entry, k);
            if k == entry.0@ {
                lemma_amount_absent(orig, k);
            }
        }
    }
    map.push(entry);
}

proof fn lemma_amount_absent(s: Seq<(String, u64)>, k: Seq<char>)
    requires
        forall|j: int| 0 <= j < s.len() ==> (#[trigger] s[j]).0@ != k,
    ensures
        amount_of(s, k) == 0,
    decreases s.len(),
{
    if s.len() > 0 {
        assert forall|j: int| 0 <= j < s.drop_first().len() implies (#[trigger] s.drop_first()[j]).0@ != k by {
            assert(s.drop_first()[j] == s[j + 1]);
        }
        lemma_amount_absent(s.drop_first(), k);
    }
}

proof fn lemma_totals_prefix(files: Seq<(Seq<char>, u64)>, i: int, k: Seq<char>)
    requires
        0 <= i <= files.len(),
    ensures
        ext_total(files.take(i), k) <= ext_total(files, k),
        files_total(files.take(i)) <= files_total(files),
    decreases files.len() - i,
{
    if i < files.len() {
        lemma_totals_prefix(files.drop_last(), i, k);
        assert(files.drop_last().take(i) =~= files.take(i));
    } else {
        assert(files.take(i) =~= files);
    }
}

/// Adds the sizes of the non-empty files at or below `node` to `ext_map`
/// by extension and to `total`.
pub fn collect_extensions(node: &DiffNode, ext_map: &mut Vec<(String, u64)>, total: &mut u64)
    requires
        unique_keys(old(ext_map)@),
        *old(total) + files_total(large_files(*node)) <= u64::MAX,
        forall|k: Seq<char>| #[trigger] amount_of(old(ext_map)@, k) + ext_total(large_files(*node), k) <= u64::MAX,
    ensures
        unique_keys(final(ext_map)@),
        forall|k: Seq<char>| #[trigger] amount_of(final(ext_map)@, k) == amount_of(old(ext_map)@, k) + ext_total(
            large_files(*node),
            k,
        ),
        *final(total) == *old(total) + files_total(large_files(*node)),
{
    let mut files: Vec<(String, u64)> = Vec::new();
    collect_large_files(node, &mut files);
    let ghost fs = large_files(*node);
    proof {
        assert(pairs_view(files@) =~= fs);
        assert(fs.take(0) =~= Seq::<(Seq<char>, u64)>::empty());
    }
    let ghost start_map = ext_map@;
    let ghost start_total = *total;
    let mut i: usize = 0;
    while i < files.len()
        invariant
            i <= files@.len(),
            pairs_view(files@) == fs,
            fs == large_files(*node),
            start_map == old(ext_map)@,
            start_total == *old(total),
            unique_keys(ext_map@),
            start_total + files_total(fs) <= u64::MAX,
            forall|k: Seq<char>| #[trigger] amount_of(start_map, k) + ext_total(fs, k) <= u64::MAX,
            forall|k: Seq<char>| #[trigger] amount_of(ext_map@, k) == amount_of(start_map, k) + ext_total(fs.take(i as int), k),
            *total == start_total + files_total(fs.take(i as int)),
        decreases files@.len() - i,
    {
        let ghost t = fs.take(i + 1);
        proof {
            assert(t.drop_last() =~= fs.take(i as int));
            assert(fs[i as int] == (files@[i as int].0@, files@[i as int].1));
            assert(t.last() == fs[i as int]);
            lemma_totals_prefix(fs, i + 1, seq![]);
        }
        let name = &files[i].0;
        let size = files[i].1;
        let e = extension(name.as_str());
        proof {
            lemma_totals_prefix(fs, i + 1, e@);
            assert(amount_of(ext_map@, e@) + size <= u64::MAX);
        }
        let ghost before = ext_map@;
        add_amount(ext_map, e, size);
        *total = *total + size;
        proof {
            assert forall|k: Seq<char>| #[trigger] amount_of(ext_map@, k) == amount_of(start_map, k) + ext_total(t, k) by {
                assert(amount_of(before, k) == amount_of(start_map, k) + ext_total(fs.take(i as int), k));
            }
        }
        i = i + 1;
    }
    proof {
        assert(fs.take(files@.len() as int) =~= fs);
    }
}

/// Text listing the largest files: one "  - <name> (<KiB> KB)" line each,
/// or a note when there are none.
pub open spec fn top_files_text(files: Seq<(Seq<char>, u64)>) -> Seq<char>
    decreases files.len(),
{
    if files.len() == 0 {
        "  (no large file changes)"@
    } else if files.len() == 1 {
        file_line(files[0])
    } else {
        top_files_text(files.drop_last()) + "\n"@ + file_line(files.last())
    }
}

/// One line of the largest-files list.
pub open spec fn file_line(f: (Seq<char>, u64)) -> Seq<char> {
    "  - "@ + f.0 + " ("@ + crate::text::decimal((f.1 / 1024) as nat) + " KB)"@
}

fn push_file_line(s: &mut String, name: &String, size: u64)
    ensures
        final(s)@ == old(s)@ + file_line((name@, size)),
{
    crate::text::push_str(s, "  - ");
    crate::text::push_str(s, name.as_str());
    crate::text::push_str(s, " (");
    crate::text::push_decimal(s, size / 1024);
    crate::text::push_str(s, " KB)");
    proof {
        assert(final(s)@ =~= old(s)@ + file_line((name@, size)));
    }
}

/// Formats the largest-files list of a prompt.
pub fn format_top_large_files(files: &[(String, u64)]) -> (s: String)
    ensures
        s@ == top_files_text(pairs_view(files@)),
{
    let ghost fv = pairs_view(files@);
    if files.len() == 0 {
        proof {
            reveal_strlit("  (no large file changes)");
        }
        return crate::text::string_from("  (no large file changes)");
    }
    let mut s = String::new();
    push_file_line(&mut s, &files[0].0, files[0].1);
    proof {
        assert(fv.take(1).len() == 1);
        assert(fv.take(1)[0] == fv[0]);
        assert(s@ =~= top_files_text(fv.take(1)));
    }
    let mut i: usize = 1;
    while i < files.len()
        invariant
            1 <= i <= files@.len(),
            fv == pairs_view(files@),
            s@ == top_files_text(fv.take(i as int)),
        decreases files@.len() - i,
    {
        crate::text::push_str(&mut s, "\n");
        push_file_line(&mut s, &files[i].0, files[i].1);
        proof {
            let t = fv.take(i + 1);
            assert(t.drop_last() =~= fv.take(i as int));
            assert(t.last() == fv[i as int]);
            assert(s@ =~= top_files_text(t));
        }
        i = i + 1;
    }
    proof {
        assert(fv.take(files@.len() as int) =~= fv);
    }
    s
}

/// The delta a node has after aggregation: a node with children takes the
/// sum of its children's (directories aggregated first); a leaf keeps its own.
pub open spec fn agg_delta(n: DiffNode) -> int
    decreases n, 1nat,
{
    if n.children@.len() == 0 {
        n.size_delta as int
    } else {
        sum_vals(n.children@)
    }
}

/// Sum of the values the children contribute: a directory its aggregated
/// delta, another node its own delta.
pub open spec fn sum_vals(cs: Seq<DiffNode>) -> int
    decreases cs, 0nat,
{
    if cs.len() == 0 {
        0
    } else {
        sum_vals(cs.subrange(0, cs.len() - 1)) + (if cs[cs.len() - 1].is_dir {
            agg_delta(cs[cs.len() - 1])
        } else {
            cs[cs.len() - 1].size_delta as int
        })
    }
}

/// Within the range of `i64`.
pub open spec fn in_i64(v: int) -> bool {
    i64::MIN <= v <= i64::MAX
}

/// Every running sum of the aggregation fits in `i64`.
pub open spec fn agg_fits(n: DiffNode) -> bool
    decreases n,
{
    &&& forall|i: int| 0 <= i < n.children@.len() && (#[trigger] n.children@[i]).is_dir ==> agg_fits(n.children@[i])
    &&& forall|k: int| 0 <= k <= n.children@.len() ==> in_i64(#[trigger] sum_vals(n.children@.subrange(0, k)))
}

/// `r` is `n` aggregated: the same node with each directory child
/// aggregated (other children unchanged) and the aggregated delta.
pub open spec fn aggregated_as(n: DiffNode, r: DiffNode) -> bool
    decreases n,
{
    &&& r.name == n.name
    &&& r.is_dir == n.is_dir
    &&& r.current_size == n.current_size
    &&& r.size_delta as int == agg_delta(n)
    &&& r.children@.len() == n.children@.len()
    &&& forall|i: int|
        0 <= i < n.children@.len() ==> if (#[trigger] n.children@[i]).is_dir {
            aggregated_as(n.children@[i], r.children@[i])
        } else {
            r.children@[i] == n.children@[i]
        }
}

/// Aggregation keeps sibling names distinct: it renames nothing.
pub proof fn lemma_aggregated_names(n: DiffNode, r: DiffNode)
    requires
        aggregated_as(n, r),
        names_distinct(n),
    ensures
        names_distinct(r),
    decreases n,
{
    assert forall|i: int| 0 <= i < n.children@.len() implies #[trigger] r.children@[i].name@ == n.children@[i].name@ by {
        if n.children@[i].is_dir {
            assert(aggregated_as(n.children@[i], r.children@[i]));
        }
    }
    assert forall|i: int| 0 <= i < r.children@.len() implies names_distinct(#[trigger] r.children@[i]) by {
        if n.children@[i].is_dir {
            assert(decreases_to!(n => n.children));
            assert(decreases_to!(n.children => n.children@));
            assert(decreases_to!(n.children@ => n.children@[i]));
            lemma_aggregated_names(n.children@[i], r.children@[i]);
        }
    }
}

/// Sets each directory's delta to the sum of its children's (aggregating
/// child directories first); nodes without children keep theirs.
pub fn aggregate_deltas(node: &mut DiffNode)
    requires
        agg_fits(*old(node)),
    ensures
        aggregated_as(*old(node), *final(node)),
        names_distinct(*old(node)) ==> names_distinct(*final(node)),
    decreases *old(node),
{
    let ghost orig = *node;
    let mut kids: Vec<DiffNode> = Vec::new();
    std::mem::swap(&mut kids, &mut node.children);
    let mut out: Vec<DiffNode> = Vec::new();
    let mut sum: i64 = 0;
    let n = kids.len();
    let mut i: usize = 0;
    while i < n
        invariant
            n == orig.children@.len(),
            orig == *old(node),
            i <= n,
            kids@ == orig.children@.subrange(i as int, n as int),
            out@.len() == i,
            agg_fits(orig),
            sum as int == sum_vals(orig.children@.subrange(0, i as int)),
            forall|j: int|
                0 <= j < i ==> if (#[trigger] orig.children@[j]).is_dir {
                    aggregated_as(orig.children@[j], out@[j])
                } else {
                    out@[j] == orig.children@[j]
                },
        decreases n - i,
    {
        let mut c = kids.remove(0);
        proof {
            assert(c == orig.children@[i as int]);
            assert(kids@ =~= orig.children@.subrange(i + 1, n as int));
            let t = orig.children@.subrange(0, i + 1);
            assert(t.subrange(0, t.len() - 1) =~= orig.children@.subrange(0, i as int));
            assert(t[t.len() - 1] == orig.children@[i as int]);
            assert(in_i64(sum_vals(orig.children@.subrange(0, i + 1))));
        }
        if c.is_dir {
            proof {
                assert(decreases_to!(orig => orig.children));
                assert(decreases_to!(orig.children => orig.children@));
                assert(decreases_to!(orig.children@ => orig.children@[i as int]));
            }
            aggregate_deltas(&mut c);
        }
        sum = sum + c.size_delta;
        out.push(c);
        i = i + 1;
    }
    proof {
        assert(orig.children@.subrange(0, n as int) =~= orig.children@);
    }
    if out.len() > 0 {
        node.size_delta = sum;
    }
    node.children = out;
    proof {
        assert(aggregated_as(orig, *node));
        if names_distinct(orig) {
            lemma_aggregated_names(orig, *node);
        }
    }
}

} // verus!
