//! The listing of the browsed directory: one entry per shown child, with
//! its tree path and sizes, ordered by name, by size or by change.
use crate::delta_cache::{cached, key_view};
use crate::model::{flags_dir, NodeIndex, Snapshot};
use crate::tree_ops::{cache_position, cache_wf, joined_path, names_view, size_for, size_for_path};
use crate::review::RiskLevel;
use crate::ui::SortMode;
use vstd::prelude::*;

verus! {

/// One row of the directory listing.
#[derive(Debug, Clone)]
pub struct DirEntry {
    /// The child's node in the shown snapshot.
    pub node: NodeIndex,
    /// Tree path of the child, led by the browsed root's name.
    pub path: Vec<String>,
    pub has_scan_data: bool,
    pub has_ai: bool,
    pub ai_risk_level: Option<RiskLevel>,
    pub is_dir: bool,
    pub size: u64,
    pub disk_usage: u64,
}

/// `a` comes strictly before `b` in code-point order of their characters.
pub open spec fn lex_lt(a: Seq<char>, b: Seq<char>) -> bool
    decreases a.len(),
{
    if b.len() == 0 {
        false
    } else if a.len() == 0 {
        true
    } else if a[0] != b[0] {
        (a[0] as int) < (b[0] as int)
    } else {
        lex_lt(a.drop_first(), b.drop_first())
    }
}

/// The order on texts is strict and total.
pub proof fn lemma_lex_total(a: Seq<char>, b: Seq<char>)
    ensures
        !(lex_lt(a, b) && lex_lt(b, a)),
        a == b || lex_lt(a, b) || lex_lt(b, a),
    decreases a.len(),
{
    if a.len() > 0 && b.len() > 0 && a[0] == b[0] {
        lemma_lex_total(a.drop_first(), b.drop_first());
        if a.drop_first() == b.drop_first() {
            assert(a =~= seq![a[0]] + a.drop_first());
            assert(b =~= seq![b[0]] + b.drop_first());
        }
    }
    if a.len() == 0 && b.len() == 0 {
        assert(a =~= b);
    }
}

/// The order on texts is transitive.
pub proof fn lemma_lex_trans(a: Seq<char>, b: Seq<char>, c: Seq<char>)
    requires
        lex_lt(a, b),
        lex_lt(b, c),
    ensures
        lex_lt(a, c),
    decreases a.len(),
{
    if a.len() > 0 && a[0] == b[0] && b[0] == c[0] {
        lemma_lex_trans(a.drop_first(), b.drop_first(), c.drop_first());
    }
}

/// Name of a listed entry: the last component of its tree path.
pub open spec fn entry_name(e: DirEntry) -> Seq<char> {
    if e.path@.len() == 0 {
        Seq::empty()
    } else {
        e.path@.last()@
    }
}

/// Magnitude of the change recorded for an entry's tree path.
pub open spec fn entry_change(e: DirEntry, cache: Seq<(Vec<String>, i64)>) -> int {
    let d = cached(cache, key_view(e.path));
    if d < 0 {
        -d
    } else {
        d
    }
}

/// The sort key that goes first: none by name, the disk usage by size,
/// the change magnitude by change (larger first).
pub open spec fn primary(e: DirEntry, mode: SortMode, cache: Seq<(Vec<String>, i64)>) -> int {
    match mode {
        SortMode::Name => 0,
        SortMode::Size => e.disk_usage as int,
        SortMode::Delta => entry_change(e, cache),
    }
}

/// `a` is listed strictly before `b`: larger primary key first, then by
/// name.
pub open spec fn entry_lt(a: DirEntry, b: DirEntry, mode: SortMode, cache: Seq<(Vec<String>, i64)>) -> bool {
    primary(a, mode, cache) > primary(b, mode, cache) || (primary(a, mode, cache) == primary(b, mode, cache) && lex_lt(
        entry_name(a),
        entry_name(b),
    ))
}

/// `a` may be listed before `b`.
pub open spec fn entry_le(a: DirEntry, b: DirEntry, mode: SortMode, cache: Seq<(Vec<String>, i64)>) -> bool {
    !entry_lt(b, a, mode, cache)
}

/// The entries are in listing order.
pub open spec fn listed_in_order(es: Seq<DirEntry>, mode: SortMode, cache: Seq<(Vec<String>, i64)>) -> bool {
    forall|i: int, j: int| 0 <= i < j < es.len() ==> entry_le(#[trigger] es[i], #[trigger] es[j], mode, cache)
}

proof fn lemma_entry_order(a: DirEntry, b: DirEntry, c: DirEntry, mode: SortMode, cache: Seq<(Vec<String>, i64)>)
    ensures
        entry_lt(a, b, mode, cache) ==> entry_le(a, b, mode, cache),
        !entry_lt(a, b, mode, cache) ==> entry_le(b, a, mode, cache),
        entry_le(a, b, mode, cache) && entry_le(b, c, mode, cache) ==> entry_le(a, c, mode, cache),
{
    lemma_lex_total(entry_name(a), entry_name(b));
    lemma_lex_total(entry_name(b), entry_name(c));
    lemma_lex_total(entry_name(a), entry_name(c));
    if lex_lt(entry_name(c), entry_name(b)) && lex_lt(entry_name(b), entry_name(a)) {
        lemma_lex_trans(entry_name(c), entry_name(b), entry_name(a));
    }
    if lex_lt(entry_name(c), entry_name(a)) && lex_lt(entry_name(a), entry_name(b)) {
        lemma_lex_trans(entry_name(c), entry_name(a), entry_name(b));
    }
    if lex_lt(entry_name(b), entry_name(c)) && lex_lt(entry_name(c), entry_name(a)) {
        lemma_lex_trans(entry_name(b), entry_name(c), entry_name(a));
    }
}

/// `a` comes strictly before `b` in code-point order.
pub(crate) fn chars_lt(a: &[char], b: &[char]) -> (r: bool)
    ensures
        r == lex_lt(a@, b@),
{
    let mut i: usize = 0;
    proof {
        assert(a@.skip(0) =~= a@);
        assert(b@.skip(0) =~= b@);
    }
    while i < a.len() && i < b.len()
        invariant
            i <= a@.len(),
            i <= b@.len(),
            lex_lt(a@, b@) == lex_lt(a@.skip(i as int), b@.skip(i as int)),
        decreases a@.len() - i,
    {
        proof {
            assert(a@.skip(i as int)[0] == a@[i as int]);
            assert(b@.skip(i as int)[0] == b@[i as int]);
            assert(a@.skip(i as int).drop_first() =~= a@.skip(i + 1));
            assert(b@.skip(i as int).drop_first() =~= b@.skip(i + 1));
        }
        if a[i] != b[i] {
            return a[i] < b[i];
        }
        i = i + 1;
    }
    proof {
        if i == b@.len() {
            assert(b@.skip(i as int).len() == 0);
        } else {
            assert(a@.skip(i as int).len() == 0);
            assert(b@.skip(i as int).len() > 0);
        }
    }
    i < b.len()
}

/// Name of a listed entry.
fn name_chars(e: &DirEntry) -> (v: Vec<char>)
    ensures
        v@ == entry_name(*e),
{
    if e.path.len() == 0 {
        Vec::new()
    } else {
        crate::text::chars_of(e.path[e.path.len() - 1].as_str())
    }
}

/// Change recorded for a tree path (the last entry with that key), 0 when
/// none.
pub fn lookup_delta(cache: &[(Vec<String>, i64)], key: &Vec<String>) -> (d: i64)
    ensures
        d as int == cached(cache@, key_view(*key)),
{
    let mut i: usize = cache.len();
    proof {
        assert(cache@.take(cache@.len() as int) =~= cache@);
    }
    while i > 0
        invariant
            i <= cache@.len(),
            cached(cache@, key_view(*key)) == cached(cache@.take(i as int), key_view(*key)),
        decreases i,
    {
        proof {
            let t = cache@.take(i as int);
            assert(t.drop_last() =~= cache@.take(i - 1));
            assert(t.last() == cache@[i - 1]);
        }
        if crate::delta_cache::key_eq(&cache[i - 1].0, key) {
            return cache[i - 1].1;
        }
        i = i - 1;
    }
    0
}

/// Magnitude of the change recorded for an entry.
fn change_of(e: &DirEntry, cache: &[(Vec<String>, i64)]) -> (m: u64)
    requires
        forall|i: int| 0 <= i < cache@.len() ==> (#[trigger] cache@[i]).1 != i64::MIN,
    ensures
        m as int == entry_change(*e, cache@),
{
    let d = lookup_delta(cache, &e.path);
    proof {
        lemma_cached_value(cache@, key_view(e.path));
    }
    if d < 0 {
        (-d) as u64
    } else {
        d as u64
    }
}

proof fn lemma_cached_value(cache: Seq<(Vec<String>, i64)>, k: Seq<Seq<char>>)
    requires
        forall|i: int| 0 <= i < cache.len() ==> (#[trigger] cache[i]).1 != i64::MIN,
    ensures
        cached(cache, k) != i64::MIN as int,
        i64::MIN <= cached(cache, k) <= i64::MAX,
    decreases cache.len(),
{
    if cache.len() > 0 {
        assert(cache[cache.len() - 1].1 != i64::MIN);
        assert forall|i: int| 0 <= i < cache.drop_last().len() implies (#[trigger] cache.drop_last()[i]).1 != i64::MIN by {
            assert(cache.drop_last()[i] == cache[i]);
        }
        lemma_cached_value(cache.drop_last(), k);
    }
}

/// `a` is listed strictly before `b`.
fn entry_before(a: &DirEntry, b: &DirEntry, mode: SortMode, cache: &[(Vec<String>, i64)]) -> (r: bool)
    requires
        forall|i: int| 0 <= i < cache@.len() ==> (#[trigger] cache@[i]).1 != i64::MIN,
    ensures
        r == entry_lt(*a, *b, mode, cache@),
{
    let (ka, kb): (u64, u64) = match mode {
        SortMode::Name => (0, 0),
        SortMode::Size => (a.disk_usage, b.disk_usage),
        SortMode::Delta => (change_of(a, cache), change_of(b, cache)),
    };
    if ka != kb {
        return ka > kb;
    }
    let na = name_chars(a);
    let nb = name_chars(b);
    chars_lt(na.as_slice(), nb.as_slice())
}

/// Orders the listing: by name; by disk usage, larger first, then name;
/// or by the magnitude of the recorded change, larger first, then name.
pub fn sort_children(children: &mut Vec<DirEntry>, mode: SortMode, delta_cache: &[(Vec<String>, i64)])
    requires
        forall|i: int| 0 <= i < delta_cache@.len() ==> (#[trigger] delta_cache@[i]).1 != i64::MIN,
    ensures
        final(children)@.to_multiset() == old(children)@.to_multiset(),
        listed_in_order(final(children)@, mode, delta_cache@),
{
    let ghost orig = children@;
    let mut rest: Vec<DirEntry> = Vec::new();
    std::mem::swap(&mut rest, children);
    let mut out: Vec<DirEntry> = Vec::new();
    let ghost mut k: int = 0;
    proof {
        assert(orig.subrange(0, orig.len() as int) =~= orig);
        assert(orig.take(0) =~= Seq::<DirEntry>::empty());
    }
    while rest.len() > 0
        invariant
            0 <= k <= orig.len(),
            rest@ == orig.subrange(k, orig.len() as int),
            out@.to_multiset() == orig.take(k).to_multiset(),
            listed_in_order(out@, mode, delta_cache@),
            forall|i: int| 0 <= i < delta_cache@.len() ==> (#[trigger] delta_cache@[i]).1 != i64::MIN,
        decreases rest@.len(),
    {
        proof {
            assert(rest@.remove(0) =~= orig.subrange(k + 1, orig.len() as int));
        }
        let e = rest.remove(0);
        let mut p: usize = 0;
        while p < out.len() && !entry_before(&e, &out[p], mode, delta_cache)
            invariant
                p <= out@.len(),
                forall|i: int| 0 <= i < p ==> entry_le(#[trigger] out@[i], e, mode, delta_cache@),
                forall|i: int| 0 <= i < delta_cache@.len() ==> (#[trigger] delta_cache@[i]).1 != i64::MIN,
            decreases out@.len() - p,
        {
            proof {
                lemma_entry_order(e, out@[p as int], e, mode, delta_cache@);
            }
            p = p + 1;
        }
        let ghost before = out@;
        proof {
            if p < out@.len() {
                assert(entry_lt(e, out@[p as int], mode, delta_cache@));
            }
        }
        out.insert(p, e);
        proof {
            assert(out@ == before.insert(p as int, e));
            before.insert_ensures(p as int, e);
            assert forall|i: int, j: int| 0 <= i < j < out@.len() implies entry_le(#[trigger] out@[i], #[trigger] out@[j], mode, delta_cache@) by {
                if j < p {
                    assert(out@[i] == before[i] && out@[j] == before[j]);
                } else if i < p && j == p {
                } else if i < p && j > p {
                    assert(out@[j] == before[j - 1]);
                    assert(entry_le(before[i], before[j - 1], mode, delta_cache@));
                } else if i == p {
                    assert(out@[j] == before[j - 1]);
                    lemma_entry_order(e, before[p as int], before[j - 1], mode, delta_cache@);
                    if j - 1 > p {
                        assert(entry_le(before[p as int], before[j - 1], mode, delta_cache@));
                    }
                } else {
                    assert(out@[i] == before[i - 1]);
                    assert(out@[j] == before[j - 1]);
                }
            }
            vstd::seq_lib::to_multiset_insert(before, p as int, e);
            let t = orig.take(k + 1);
            assert(t =~= orig.take(k).push(orig[k]));
            vstd::seq_lib::to_multiset_build(orig.take(k), orig[k]);
            k = k + 1;
        }
    }
    proof {
        assert(orig.take(orig.len() as int) =~= orig);
    }
    *children = out;
}

/// A child named `name` is listed: hidden names (starting with '.') only
/// when they are shown.
pub open spec fn shown(name: Seq<char>, show_hidden: bool) -> bool {
    show_hidden || !(name.len() > 0 && name[0] == '.')
}

/// The children among `kids` that are listed, in order.
pub open spec fn listed_children(snap: Snapshot, kids: Seq<NodeIndex>, show_hidden: bool) -> Seq<NodeIndex>
    decreases kids.len(),
{
    if kids.len() == 0 {
        Seq::empty()
    } else {
        listed_children(snap, kids.drop_last(), show_hidden) + if shown(snap.name_of(kids.last() as int), show_hidden) {
            seq![kids.last()]
        } else {
            Seq::<NodeIndex>::empty()
        }
    }
}

/// `e` is the row of child `c` of a directory with tree path `dir_path`:
/// the child's tree path, sizes and kind; scan data known for a file, and
/// for a directory when a size is known for its tree path; no review yet.
pub open spec fn entry_of(
    e: DirEntry,
    snap: Snapshot,
    c: NodeIndex,
    dir_path: Seq<Seq<char>>,
    cache: Seq<(String, Snapshot)>,
    view_root: Seq<char>,
    scan: Option<(Snapshot, NodeIndex)>,
) -> bool {
    let node = snap.nodes@[c as int];
    &&& e.node == c
    &&& names_view(e.path@) == dir_path.push(snap.name_of(c as int))
    &&& e.is_dir == flags_dir(node.flags)
    &&& e.size == node.size
    &&& e.disk_usage == node.disk_usage
    &&& e.has_scan_data == (!flags_dir(node.flags) || size_for(cache, view_root, scan, names_view(e.path@)) is Some)
    &&& !e.has_ai
    &&& e.ai_risk_level is None
}

/// Copies a list of names.
fn copy_names(v: &[String]) -> (r: Vec<String>)
    ensures
        names_view(r@) == names_view(v@),
{
    let mut r: Vec<String> = Vec::new();
    let mut i: usize = 0;
    while i < v.len()
        invariant
            i <= v@.len(),
            names_view(r@) == names_view(v@).take(i as int),
        decreases v@.len() - i,
    {
        let s = v[i].clone();
        proof {
            crate::text::lemma_map_values_push(r@, s, |s: String| s@);
            assert(names_view(v@).take(i + 1) =~= names_view(v@).take(i as int).push(v@[i as int]@));
        }
        r.push(s);
        i = i + 1;
    }
    proof {
        assert(names_view(v@).take(v@.len() as int) =~= names_view(v@));
    }
    r
}

/// The rows of the listed children of `dir_idx`, in child order; hidden
/// names are skipped unless `show_hidden`.
pub fn collect_dir_entries(
    snap: &Snapshot,
    dir_idx: NodeIndex,
    current_dir_path: &[String],
    show_hidden: bool,
    scan_cache: &[(String, Snapshot)],
    view_root_path: &str,
    root_scan_tree: Option<(&Snapshot, NodeIndex)>,
) -> (entries: Vec<DirEntry>)
    requires
        snap.wf(),
        dir_idx < snap.nodes@.len(),
        cache_wf(scan_cache@),
        root_scan_tree matches Some(t) ==> t.0.wf() && (t.1 as int) < t.0.nodes@.len(),
    ensures
        entries@.len() == listed_children(*snap, snap.children_of(dir_idx as int), show_hidden).len(),
        forall|i: int|
            0 <= i < entries@.len() ==> entry_of(
                #[trigger] entries@[i],
                *snap,
                listed_children(*snap, snap.children_of(dir_idx as int), show_hidden)[i],
                names_view(current_dir_path@),
                scan_cache@,
                view_root_path@,
                match root_scan_tree {
                    Some(t) => Some((*t.0, t.1)),
                    None => None,
                },
            ),
{
    let ghost scan = match root_scan_tree {
        Some(t) => Some((*t.0, t.1)),
        None => None,
    };
    let kids = snap.children(dir_idx);
    let mut entries: Vec<DirEntry> = Vec::new();
    let mut i: usize = 0;
    proof {
        crate::tree_ops::lemma_children_in_range(*snap, dir_idx as int);
        assert(kids@.take(0) =~= Seq::<NodeIndex>::empty());
    }
    while i < kids.len()
        invariant
            snap.wf(),
            kids@ == snap.children_of(dir_idx as int),
            forall|t: int| 0 <= t < kids@.len() ==> (#[trigger] kids@[t] as int) < snap.nodes@.len(),
            i <= kids@.len(),
            cache_wf(scan_cache@),
            root_scan_tree matches Some(t) ==> t.0.wf() && (t.1 as int) < t.0.nodes@.len(),
            scan == match root_scan_tree {
                Some(t) => Some((*t.0, t.1)),
                None => None,
            },
            entries@.len() == listed_children(*snap, kids@.take(i as int), show_hidden).len(),
            forall|t: int|
                0 <= t < entries@.len() ==> entry_of(
                    #[trigger] entries@[t],
                    *snap,
                    listed_children(*snap, kids@.take(i as int), show_hidden)[t],
                    names_view(current_dir_path@),
                    scan_cache@,
                    view_root_path@,
                    scan,
                ),
        decreases kids@.len() - i,
    {
        let c = kids[i];
        let ghost prev = listed_children(*snap, kids@.take(i as int), show_hidden);
        proof {
            let t = kids@.take(i + 1);
            assert(t.drop_last() =~= kids@.take(i as int));
            assert(t.last() == c);
        }
        let name = snap.name(c);
        let nc = crate::text::chars_of(name);
        let hidden = nc.len() > 0 && nc[0] == '.';
        if show_hidden || !hidden {
            let node = snap.node(c);
            let mut child_path = copy_names(current_dir_path);
            let owned = crate::text::string_from(name);
            proof {
                crate::text::lemma_map_values_push(child_path@, owned, |s: String| s@);
            }
            child_path.push(owned);
            let is_dir = node.is_dir();
            let has_scan = if is_dir {
                size_for_path(scan_cache, view_root_path, root_scan_tree, child_path.as_slice()).is_some()
            } else {
                true
            };
            let e = DirEntry {
                node: c,
                path: child_path,
                has_scan_data: has_scan,
                has_ai: false,
                ai_risk_level: None,
                is_dir,
                size: node.size(),
                disk_usage: node.disk_usage(),
            };
            entries.push(e);
            proof {
                assert forall|t: int| 0 <= t < entries@.len() implies entry_of(
                    #[trigger] entries@[t],
                    *snap,
                    listed_children(*snap, kids@.take(i + 1), show_hidden)[t],
                    names_view(current_dir_path@),
                    scan_cache@,
                    view_root_path@,
                    scan,
                ) by {
                    if t < prev.len() {
                        assert(listed_children(*snap, kids@.take(i + 1), show_hidden)[t] == prev[t]);
                    }
                }
            }
        } else {
            proof {
                assert(listed_children(*snap, kids@.take(i + 1), show_hidden) =~= prev);
            }
        }
        i = i + 1;
    }
    proof {
        assert(kids@.take(kids@.len() as int) =~= kids@);
    }
    entries
}

/// Full path of a tree path: the browsed root joined with the components
/// after the root's name.
pub open spec fn full_path_of(view_root: Seq<char>, path: Seq<Seq<char>>) -> Seq<char> {
    if path.len() == 0 {
        view_root
    } else {
        joined_path(view_root, path.drop_first())
    }
}

/// The review recorded for a full path, if any.
pub open spec fn review_of(reviews: Seq<(String, RiskLevel)>, full: Seq<char>) -> Option<RiskLevel> {
    match cache_position(reviews, crate::delta_cache::is_absolute(full), crate::delta_cache::components(full)) {
        Some(i) => Some(reviews[i].1),
        None => None,
    }
}

/// Marks each row with the review recorded for its full path.
pub fn mark_reviewed(entries: &mut Vec<DirEntry>, view_root_path: &str, ai_analyzed: &[(String, RiskLevel)])
    ensures
        final(entries)@.len() == old(entries)@.len(),
        forall|i: int|
            0 <= i < old(entries)@.len() ==> #[trigger] final(entries)@[i] == (DirEntry {
                has_ai: review_of(ai_analyzed@, full_path_of(view_root_path@, names_view(old(entries)@[i].path@))) is Some,
                ai_risk_level: review_of(ai_analyzed@, full_path_of(view_root_path@, names_view(old(entries)@[i].path@))),
                ..old(entries)@[i]
            }),
{
    let ghost orig = entries@;
    let mut rest: Vec<DirEntry> = Vec::new();
    std::mem::swap(&mut rest, entries);
    let mut out: Vec<DirEntry> = Vec::new();
    while rest.len() > 0
        invariant
            out@.len() + rest@.len() == orig.len(),
            rest@ == orig.subrange(out@.len() as int, orig.len() as int),
            forall|i: int|
                0 <= i < out@.len() ==> #[trigger] out@[i] == (DirEntry {
                    has_ai: review_of(ai_analyzed@, full_path_of(view_root_path@, names_view(orig[i].path@))) is Some,
                    ai_risk_level: review_of(ai_analyzed@, full_path_of(view_root_path@, names_view(orig[i].path@))),
                    ..orig[i]
                }),
        decreases rest@.len(),
    {
        let ghost k = out@.len() as int;
        proof {
            assert(rest@.remove(0) =~= orig.subrange(k + 1, orig.len() as int));
        }
        let mut e = rest.remove(0);
        let ghost names = names_view(e.path@);
        let mut full = crate::text::string_from(view_root_path);
        if e.path.len() > 0 {
            let mut j: usize = 1;
            proof {
                assert(names.drop_first().take(0) =~= Seq::<Seq<char>>::empty());
            }
            while j < e.path.len()
                invariant
                    1 <= j <= e.path@.len(),
                    names == names_view(e.path@),
                    full@ == joined_path(view_root_path@, names.drop_first().take(j - 1)),
                decreases e.path@.len() - j,
            {
                proof {
                    let t = names.drop_first().take(j as int);
                    assert(t.drop_last() =~= names.drop_first().take(j - 1));
                    assert(t.last() == e.path@[j as int]@);
                }
                crate::tree_ops::push_path(&mut full, e.path[j].as_str());
                j = j + 1;
            }
            proof {
                assert(names.drop_first().take(names.len() - 1) =~= names.drop_first());
            }
        }
        let comps = crate::delta_cache::components_of(full.as_str());
        let cs = crate::text::chars_of(full.as_str());
        let abs = cs.len() > 0 && cs[0] == '/';
        proof {
            assert(crate::text::texts(comps@).take(comps@.len() as int) =~= crate::text::texts(comps@));
        }
        match crate::tree_ops::find_cached(ai_analyzed, abs, &comps, comps.len()) {
            Some(i) => {
                proof {
                    crate::tree_ops::lemma_cache_position_range(ai_analyzed@, abs, crate::text::texts(comps@));
                }
                e.has_ai = true;
                e.ai_risk_level = Some(ai_analyzed[i].1);
            },
            None => {
                e.has_ai = false;
                e.ai_risk_level = None;
            },
        }
        out.push(e);
    }
    *entries = out;
}

/// The browsed directory and its totals.
pub struct DirTotals {
    pub dir_idx: NodeIndex,
    pub total: u64,
    pub disk_usage: u64,
    pub items: u64,
    pub parent_total: u64,
}

/// The node of the browsed directory: the shown node itself for a path of
/// at most one component, else the node the tree path leads to from it.
pub open spec fn current_dir_of(snap: Snapshot, root_idx: NodeIndex, path: Seq<Seq<char>>) -> Option<NodeIndex> {
    if path.len() <= 1 {
        Some(root_idx)
    } else {
        snap.path_target(root_idx as int, path)
    }
}

/// Finds the browsed directory and its totals: its size and disk usage,
/// its number of children, and its parent's size (its own at the top, or
/// when the parent cannot be found); `None` when the path leads nowhere.
pub fn locate_current_dir(snap: &Snapshot, root_idx: NodeIndex, current_dir_path: &[String]) -> (r: Option<DirTotals>)
    requires
        snap.wf(),
        root_idx < snap.nodes@.len(),
    ensures
        match current_dir_of(*snap, root_idx, names_view(current_dir_path@)) {
            None => r is None,
            Some(d) => r matches Some(t) && {
                let node = snap.nodes@[d as int];
                let path = names_view(current_dir_path@);
                &&& t.dir_idx == d
                &&& t.total == node.size
                &&& t.disk_usage == node.disk_usage
                &&& t.items == snap.children_of(d as int).len()
                &&& t.parent_total == if path.len() <= 1 {
                    node.size
                } else {
                    match snap.path_target(root_idx as int, path.drop_last()) {
                        Some(p) => snap.nodes@[p as int].size,
                        None => node.size,
                    }
                }
            },
        },
{
    let ghost path = names_view(current_dir_path@);
    let dir_idx = if current_dir_path.len() <= 1 {
        root_idx
    } else {
        match snap.find_node(root_idx, current_dir_path) {
            Some(idx) => idx,
            None => {
                return None;
            },
        }
    };
    proof {
        crate::tree_ops::lemma_path_target_node(*snap, root_idx as int, path);
        assert(snap.children_of(dir_idx as int).len() == snap.child_count@[dir_idx as int]);
    }
    let node = snap.node(dir_idx);
    let total = node.size();
    let items = snap.children_len(dir_idx) as u64;
    let parent_total = if current_dir_path.len() <= 1 {
        total
    } else {
        let parent = vstd::slice::slice_subrange(current_dir_path, 0, current_dir_path.len() - 1);
        proof {
            assert(names_view(parent@) =~= path.drop_last());
            crate::tree_ops::lemma_path_target_node(*snap, root_idx as int, path.drop_last());
        }
        match snap.find_node(root_idx, parent) {
            Some(p) => snap.node(p).size(),
            None => total,
        }
    };
    Some(DirTotals { dir_idx, total, disk_usage: node.disk_usage(), items, parent_total })
}

/// Copies a list of names.
pub fn copy_names_pub(v: &[String]) -> (r: Vec<String>)
    ensures
        names_view(r@) == names_view(v@),
{
    copy_names(v)
}

/// The full path of a tree path below the browsed root.
pub fn full_path(view_root_path: &str, path: &[String]) -> (full: String)
    ensures
        full@ == full_path_of(view_root_path@, names_view(path@)),
{
    let ghost names = names_view(path@);
    let mut full = crate::text::string_from(view_root_path);
    if path.len() > 0 {
        let mut j: usize = 1;
        proof {
            assert(names.drop_first().take(0) =~= Seq::<Seq<char>>::empty());
        }
        while j < path.len()
            invariant
                1 <= j <= path@.len(),
                names == names_view(path@),
                full@ == joined_path(view_root_path@, names.drop_first().take(j - 1)),
            decreases path@.len() - j,
        {
            proof {
                let t = names.drop_first().take(j as int);
                assert(t.drop_last() =~= names.drop_first().take(j - 1));
                assert(t.last() == path@[j as int]@);
            }
            crate::tree_ops::push_path(&mut full, path[j].as_str());
            j = j + 1;
        }
        proof {
            assert(names.drop_first().take(names.len() - 1) =~= names.drop_first());
        }
    }
    full
}

/// The row passes the change filter: with value 0 only growth counts;
/// otherwise the change, read as an unsigned 64-bit number (so a shrink
/// reads as a huge number), must reach value times the unit.
pub open spec fn passes_filter(e: DirEntry, f: crate::browser_state::DeltaFilter, cache: Seq<(Vec<String>, i64)>) -> bool {
    let d = cached(cache, key_view(e.path));
    if f.value == 0 {
        d > 0
    } else {
        (d as u64) >= f.value * crate::ui::unit_bytes(f.unit)
    }
}

/// Rows shown: all rows, or with an active filter those that pass it, in
/// order.
pub open spec fn filtered_rows(
    children: Seq<DirEntry>,
    f: crate::browser_state::DeltaFilter,
    cache: Seq<(Vec<String>, i64)>,
) -> Seq<usize>
    decreases children.len(),
{
    if children.len() == 0 {
        Seq::empty()
    } else {
        filtered_rows(children.drop_last(), f, cache) + if !f.active || passes_filter(children.last(), f, cache) {
            seq![(children.len() - 1) as usize]
        } else {
            Seq::<usize>::empty()
        }
    }
}

/// The cursor kept on a shown row: the last one when it is past the end,
/// 0 when there is none.
pub open spec fn clamped_cursor(cursor: usize, len: nat) -> usize {
    if len == 0 {
        0
    } else if cursor >= len {
        (len - 1) as usize
    } else {
        cursor
    }
}

/// Applies the change filter to the listing and keeps the cursor on a
/// shown row; returns the indices of the shown rows.
pub fn refresh_current_filtered(
    children: &[DirEntry],
    filter: &crate::browser_state::DeltaFilter,
    delta_cache: &[(Vec<String>, i64)],
    cursor: &mut usize,
) -> (rows: Vec<usize>)
    requires
        filter.active ==> filter.value * crate::ui::unit_bytes(filter.unit) <= u64::MAX,
    ensures
        rows@ == filtered_rows(children@, *filter, delta_cache@),
        *final(cursor) == clamped_cursor(*old(cursor), rows@.len()),
{
    let mut rows: Vec<usize> = Vec::new();
    let threshold: u64 = if filter.active {
        filter.value * crate::ui::delta_unit_multiplier(filter.unit)
    } else {
        0
    };
    let strict = filter.value == 0;
    let mut i: usize = 0;
    proof {
        assert(children@.take(0) =~= Seq::<DirEntry>::empty());
    }
    while i < children.len()
        invariant
            i <= children@.len(),
            filter.active ==> threshold == filter.value * crate::ui::unit_bytes(filter.unit),
            strict == (filter.value == 0),
            rows@ == filtered_rows(children@.take(i as int), *filter, delta_cache@),
        decreases children@.len() - i,
    {
        proof {
            let t = children@.take(i + 1);
            assert(t.drop_last() =~= children@.take(i as int));
            assert(t.last() == children@[i as int]);
        }
        let keep = if filter.active {
            let d = lookup_delta(delta_cache, &children[i].path);
            if strict {
                d > 0
            } else {
                (d as u64) >= threshold
            }
        } else {
            true
        };
        if keep {
            rows.push(i);
        }
        i = i + 1;
    }
    proof {
        assert(children@.take(children@.len() as int) =~= children@);
    }
    let n = rows.len();
    if n == 0 {
        *cursor = 0;
    } else if *cursor >= n {
        *cursor = n - 1;
    }
    rows
}

} // verus!
