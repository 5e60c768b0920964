//! Change totals per directory of the browsed tree: every recorded change
//! below the browsed root counts toward the path of the changed entry and
//! toward each of its ancestors up to the root.
use crate::paths::file_name_spec;
use crate::text::{split_chars, split_on, texts};
use crate::ui::DeltaEntry;
use vstd::prelude::*;

verus! {

/// The normal components of the pieces of a path: empty pieces and "."
/// dropped.
pub open spec fn normal_pieces(ps: Seq<Seq<char>>) -> Seq<Seq<char>>
    decreases ps.len(),
{
    if ps.len() == 0 {
        Seq::empty()
    } else {
        normal_pieces(ps.drop_last()) + if ps.last().len() == 0 || ps.last() == seq!['.'] {
            Seq::<Seq<char>>::empty()
        } else {
            seq![ps.last()]
        }
    }
}

/// Components of a path (not counting the root of an absolute path).
pub open spec fn components(p: Seq<char>) -> Seq<Seq<char>> {
    normal_pieces(split_on(p, '/'))
}

/// The path is absolute.
pub open spec fn is_absolute(p: Seq<char>) -> bool {
    p.len() > 0 && p[0] == '/'
}

/// `path` lies at or below `root` (component-wise), and the components of
/// `path` below `root`.
pub open spec fn relative_to(path: Seq<char>, root: Seq<char>) -> Option<Seq<Seq<char>>> {
    let pc = components(path);
    let rc = components(root);
    if is_absolute(path) == is_absolute(root) && rc.len() <= pc.len() && pc.subrange(0, rc.len() as int) == rc {
        Some(pc.subrange(rc.len() as int, pc.len() as int))
    } else {
        None
    }
}

/// Name of the browsed root (empty when it has none).
pub open spec fn root_label(root: Seq<char>) -> Seq<char> {
    match file_name_spec(root) {
        Some(n) => n,
        None => Seq::empty(),
    }
}

/// The tree path of a change: the root's name, then the components below
/// the root; `None` when the change is outside the root.
pub open spec fn tree_path(path: Seq<char>, root: Seq<char>) -> Option<Seq<Seq<char>>> {
    match relative_to(path, root) {
        Some(rel) => Some(seq![root_label(root)] + rel),
        None => None,
    }
}

/// `k` is a non-empty prefix of `p`.
pub open spec fn is_prefix_key(k: Seq<Seq<char>>, p: Seq<Seq<char>>) -> bool {
    1 <= k.len() <= p.len() && p.subrange(0, k.len() as int) == k
}

/// The change lies at or below tree path `k`.
pub open spec fn counts_toward(e: DeltaEntry, root: Seq<char>, k: Seq<Seq<char>>) -> bool {
    match tree_path(e.path@, root) {
        Some(p) => is_prefix_key(k, p),
        None => false,
    }
}

/// How much a change counts toward tree path `k`.
pub open spec fn contribution(e: DeltaEntry, root: Seq<char>, k: Seq<Seq<char>>) -> int {
    if counts_toward(e, root, k) {
        e.delta_size as int
    } else {
        0
    }
}

/// Total change at or below tree path `k`.
pub open spec fn total_under(entries: Seq<DeltaEntry>, root: Seq<char>, k: Seq<Seq<char>>) -> int
    decreases entries.len(),
{
    if entries.len() == 0 {
        0
    } else {
        total_under(entries.drop_last(), root, k) + contribution(entries.last(), root, k)
    }
}

/// Some change lies at or below tree path `k`.
pub open spec fn has_key(entries: Seq<DeltaEntry>, root: Seq<char>, k: Seq<Seq<char>>) -> bool {
    exists|i: int| 0 <= i < entries.len() && counts_toward(#[trigger] entries[i], root, k)
}

/// Sum of the magnitudes of the changes.
pub open spec fn magnitude_total(entries: Seq<DeltaEntry>) -> int
    decreases entries.len(),
{
    if entries.len() == 0 {
        0
    } else {
        magnitude_total(entries.drop_last()) + if entries.last().delta_size < 0 {
            -(entries.last().delta_size as int)
        } else {
            entries.last().delta_size as int
        }
    }
}

/// Key of a cache entry, as texts.
pub open spec fn key_view(k: Vec<String>) -> Seq<Seq<char>> {
    k@.map_values(|s: String| s@)
}

/// Value of the cache entry with key `k`, 0 when there is none.
pub open spec fn cached(cache: Seq<(Vec<String>, i64)>, k: Seq<Seq<char>>) -> int
    decreases cache.len(),
{
    if cache.len() == 0 {
        0
    } else if key_view(cache.last().0) == k {
        cache.last().1 as int
    } else {
        cached(cache.drop_last(), k)
    }
}

/// The cache holds an entry with key `k`.
pub open spec fn in_cache(cache: Seq<(Vec<String>, i64)>, k: Seq<Seq<char>>) -> bool {
    exists|i: int| 0 <= i < cache.len() && key_view(#[trigger] cache[i].0) == k
}

/// No key occurs twice.
pub open spec fn distinct_keys(cache: Seq<(Vec<String>, i64)>) -> bool {
    forall|i: int, j: int| 0 <= i < j < cache.len() ==> key_view((#[trigger] cache[i]).0) != key_view((#[trigger] cache[j]).0)
}

fn keep_piece(p: &Vec<char>) -> (b: bool)
    ensures
        b == !(p@.len() == 0 || p@ == seq!['.']),
{
    if p.len() == 0 {
        return false;
    }
    if p.len() == 1 && p[0] == '.' {
        proof {
            assert(p@ =~= seq!['.']);
        }
        return false;
    }
    proof {
        if p@.len() == 1 {
            assert(p@[0] != '.');
        }
        assert(p@ != seq!['.']);
    }
    true
}

/// The components of `path`, as texts.
pub(crate) fn components_of(path: &str) -> (v: Vec<Vec<char>>)
    ensures
        texts(v@) == components(path@),
{
    let cs = crate::text::chars_of(path);
    let pieces = split_chars(cs.as_slice(), '/');
    let mut out: Vec<Vec<char>> = Vec::new();
    let mut i: usize = 0;
    proof {
        assert(texts(pieces@).take(0) =~= Seq::<Seq<char>>::empty());
        assert(texts(out@) =~= Seq::<Seq<char>>::empty());
    }
    while i < pieces.len()
        invariant
            i <= pieces@.len(),
            texts(pieces@) == split_on(path@, '/'),
            texts(out@) == normal_pieces(texts(pieces@).take(i as int)),
        decreases pieces@.len() - i,
    {
        let ghost t = texts(pieces@).take(i + 1);
        proof {
            assert(t.drop_last() =~= texts(pieces@).take(i as int));
            assert(t.last() == pieces@[i as int]@);
        }
        if keep_piece(&pieces[i]) {
            let p = pieces[i].clone();
            proof {
                crate::text::lemma_map_values_push(out@, p, |w: Vec<char>| w@);
            }
            out.push(p);
        }
        i = i + 1;
    }
    proof {
        assert(texts(pieces@).take(pieces@.len() as int) =~= texts(pieces@));
    }
    out
}

fn chars_vec_eq(a: &Vec<char>, b: &Vec<char>) -> (r: bool)
    ensures
        r == (a@ == b@),
{
    crate::text::chars_eq(a.as_slice(), b.as_slice())
}

/// The components of `path` below `root_comps` (the root's components);
/// `None` when it is not at or below the root.
fn relative_path_of(
    path: &str,
    root_abs: bool,
    root_comps: &Vec<Vec<char>>,
    Ghost(root): Ghost<Seq<char>>,
) -> (r: Option<Vec<String>>)
    requires
        root_abs == is_absolute(root),
        texts(root_comps@) == components(root),
    ensures
        match r {
            Some(v) => relative_to(path@, root) == Some(key_view(v)),
            None => relative_to(path@, root) is None,
        },
{
    let pc = components_of(path);
    let cs = crate::text::chars_of(path);
    let abs = cs.len() > 0 && cs[0] == '/';
    proof {
        assert(abs == is_absolute(path@));
    }
    if abs != root_abs || root_comps.len() > pc.len() {
        return None;
    }
    let n = root_comps.len();
    let mut i: usize = 0;
    while i < n
        invariant
            n == root_comps@.len(),
            n <= pc@.len(),
            i <= n,
            texts(pc@) == components(path@),
            texts(root_comps@) == components(root),
            root_abs == is_absolute(root),
            abs == is_absolute(path@),
            abs == root_abs,
            forall|j: int| 0 <= j < i ==> (#[trigger] pc@[j])@ == root_comps@[j]@,
        decreases n - i,
    {
        if !chars_vec_eq(&pc[i], &root_comps[i]) {
            proof {
                assert(texts(pc@).subrange(0, n as int)[i as int] == pc@[i as int]@);
                assert(texts(root_comps@)[i as int] == root_comps@[i as int]@);
                assert(texts(pc@).subrange(0, n as int) != texts(root_comps@));
            }
            return None;
        }
        i = i + 1;
    }
    proof {
        assert(texts(pc@).subrange(0, n as int) =~= texts(root_comps@));
    }
    let mut key: Vec<String> = Vec::new();
    let mut j: usize = n;
    proof {
        assert(key_view(key) =~= texts(pc@).subrange(n as int, n as int));
    }
    while j < pc.len()
        invariant
            n <= j <= pc@.len(),
            key_view(key) == texts(pc@).subrange(n as int, j as int),
        decreases pc@.len() - j,
    {
        let s = crate::text::string_of(pc[j].as_slice());
        proof {
            crate::text::lemma_map_values_push(key@, s, |s: String| s@);
            assert(texts(pc@).subrange(n as int, j + 1) =~= texts(pc@).subrange(n as int, j as int).push(pc@[j as int]@));
        }
        key.push(s);
        j = j + 1;
    }
    Some(key)
}

/// The components of `full` below `base`; `None` when `full` is not at or
/// below `base`.
pub fn relative_components(base: &str, full: &str) -> (r: Option<Vec<String>>)
    ensures
        match r {
            Some(v) => relative_to(full@, base@) == Some(key_view(v)),
            None => relative_to(full@, base@) is None,
        },
{
    let root_comps = components_of(base);
    let rc = crate::text::chars_of(base);
    let root_abs = rc.len() > 0 && rc[0] == '/';
    relative_path_of(full, root_abs, &root_comps, Ghost(base@))
}

/// The tree path of a change below `root_comps` (the root's components),
/// led by `label`; `None` when it is not below.
fn tree_path_of(
    path: &str,
    root_abs: bool,
    root_comps: &Vec<Vec<char>>,
    label: &Vec<char>,
    Ghost(root): Ghost<Seq<char>>,
) -> (r: Option<Vec<String>>)
    requires
        root_abs == is_absolute(root),
        texts(root_comps@) == components(root),
        label@ == root_label(root),
    ensures
        match r {
            Some(v) => tree_path(path@, root) == Some(key_view(v)),
            None => tree_path(path@, root) is None,
        },
{
    let rel = match relative_path_of(path, root_abs, root_comps, Ghost(root)) {
        Some(v) => v,
        None => {
            return None;
        },
    };
    let mut key: Vec<String> = Vec::new();
    key.push(crate::text::string_of(label.as_slice()));
    let mut j: usize = 0;
    proof {
        assert(key_view(key) =~= seq![root_label(root)] + key_view(rel).take(0));
    }
    while j < rel.len()
        invariant
            j <= rel@.len(),
            key_view(key) == seq![root_label(root)] + key_view(rel).take(j as int),
        decreases rel@.len() - j,
    {
        let s = rel[j].clone();
        proof {
            crate::text::lemma_map_values_push(key@, s, |s: String| s@);
            assert(key_view(rel).take(j + 1) =~= key_view(rel).take(j as int).push(rel@[j as int]@));
            assert(seq![root_label(root)] + key_view(rel).take(j + 1) =~= (seq![root_label(root)] + key_view(rel).take(j as int)).push(rel@[j as int]@));
        }
        key.push(s);
        j = j + 1;
    }
    proof {
        assert(key_view(rel).take(rel@.len() as int) =~= key_view(rel));
    }
    Some(key)
}

pub(crate) fn key_eq(a: &Vec<String>, b: &Vec<String>) -> (r: bool)
    ensures
        r == (key_view(*a) == key_view(*b)),
{
    if a.len() != b.len() {
        proof {
            assert(key_view(*a).len() != key_view(*b).len());
        }
        return false;
    }
    let mut i: usize = 0;
    while i < a.len()
        invariant
            a@.len() == b@.len(),
            i <= a@.len(),
            forall|j: int| 0 <= j < i ==> (#[trigger] a@[j])@ == b@[j]@,
        decreases a@.len() - i,
    {
        if !crate::model::str_eq(a[i].as_str(), b[i].as_str()) {
            proof {
                assert(key_view(*a)[i as int] != key_view(*b)[i as int]);
            }
            return false;
        }
        i = i + 1;
    }
    proof {
        assert(key_view(*a) =~= key_view(*b));
    }
    true
}

proof fn lemma_cached_unique(cache: Seq<(Vec<String>, i64)>, i: int)
    requires
        distinct_keys(cache),
        0 <= i < cache.len(),
    ensures
        cached(cache, key_view(cache[i].0)) == cache[i].1,
    decreases cache.len(),
{
    if i < cache.len() - 1 {
        assert(key_view(cache.last().0) != key_view(cache[i].0));
        assert(cache.drop_last()[i] == cache[i]);
        assert forall|a: int, b: int| 0 <= a < b < cache.drop_last().len() implies key_view((#[trigger] cache.drop_last()[a]).0)
            != key_view((#[trigger] cache.drop_last()[b]).0) by {
            assert(cache.drop_last()[a] == cache[a] && cache.drop_last()[b] == cache[b]);
        }
        lemma_cached_unique(cache.drop_last(), i);
    }
}

proof fn lemma_cached_update(cache: Seq<(Vec<String>, i64)>, i: int, e: (Vec<String>, i64), k: Seq<Seq<char>>)
    requires
        distinct_keys(cache),
        0 <= i < cache.len(),
        key_view(e.0) == key_view(cache[i].0),
    ensures
        cached(cache.update(i, e), k) == if k == key_view(e.0) {
            e.1 as int
        } else {
            cached(cache, k)
        },
    decreases cache.len(),
{
    let u = cache.update(i, e);
    if i < cache.len() - 1 {
        assert(u.last() == cache.last());
        assert(u.drop_last() =~= cache.drop_last().update(i, e));
        assert(cache.drop_last()[i] == cache[i]);
        assert(key_view(cache.last().0) != key_view(cache[i].0));
        assert forall|a: int, b: int| 0 <= a < b < cache.drop_last().len() implies key_view((#[trigger] cache.drop_last()[a]).0)
            != key_view((#[trigger] cache.drop_last()[b]).0) by {
            assert(cache.drop_last()[a] == cache[a] && cache.drop_last()[b] == cache[b]);
        }
        lemma_cached_update(cache.drop_last(), i, e, k);
    } else {
        assert(u.last() == e);
        assert(u.drop_last() =~= cache.drop_last());
        if k == key_view(e.0) {
        } else {
        }
    }
}

proof fn lemma_cached_absent(cache: Seq<(Vec<String>, i64)>, k: Seq<Seq<char>>)
    requires
        !in_cache(cache, k),
    ensures
        cached(cache, k) == 0,
    decreases cache.len(),
{
    if cache.len() > 0 {
        assert(key_view(cache[cache.len() - 1].0) != k);
        assert forall|i: int| 0 <= i < cache.drop_last().len() implies key_view((#[trigger] cache.drop_last()[i]).0) != k by {
            assert(cache.drop_last()[i] == cache[i]);
        }
        lemma_cached_absent(cache.drop_last(), k);
    }
}

/// Adds `delta` to the entry with key `key`, creating it when missing.
fn add_to_key(cache: &mut Vec<(Vec<String>, i64)>, key: Vec<String>, delta: i64)
    requires
        distinct_keys(old(cache)@),
        i64::MIN <= cached(old(cache)@, key_view(key)) + delta <= i64::MAX,
    ensures
        distinct_keys(final(cache)@),
        forall|k: Seq<Seq<char>>| #[trigger] cached(final(cache)@, k) == cached(old(cache)@, k) + if k == key_view(key) {
            delta as int
        } else {
            0
        },
        forall|k: Seq<Seq<char>>| #[trigger] in_cache(final(cache)@, k) <==> (in_cache(old(cache)@, k) || k == key_view(key)),
{
    let ghost orig = cache@;
    let mut i: usize = 0;
    while i < cache.len()
        invariant
            cache@ == orig,
            orig == old(cache)@,
            distinct_keys(orig),
            i64::MIN <= cached(orig, key_view(key)) + delta <= i64::MAX,
            i <= orig.len(),
            forall|j: int| 0 <= j < i ==> key_view((#[trigger] orig[j]).0) != key_view(key),
        decreases orig.len() - i,
    {
        if key_eq(&cache[i].0, &key) {
            proof {
                lemma_cached_unique(orig, i as int);
            }
            let entry = (key, cache[i].1 + delta);
            cache.set(i, entry);
            proof {
                assert forall|k: Seq<Seq<char>>| #[trigger] cached(cache@, k) == cached(orig, k) + if k == key_view(entry.0) {
                    delta as int
                } else {
                    0
                } by {
                    lemma_cached_update(orig, i as int, entry, k);
                }
                assert forall|a: int, b: int| 0 <= a < b < cache@.len() implies key_view((#[trigger] cache@[a]).0) != key_view(
                    (#[trigger] cache@[b]).0,
                ) by {
                    assert(key_view(orig[a].0) != key_view(orig[b].0));
                }
                assert forall|k: Seq<Seq<char>>| #[trigger] in_cache(cache@, k) <==> (in_cache(orig, k) || k == key_view(entry.0)) by {
                    if in_cache(orig, k) {
                        let w = choose|w: int| 0 <= w < orig.len() && key_view(#[trigger] orig[w].0) == k;
                        assert(key_view(cache@[w].0) == k);
                    }
                    if k == key_view(entry.0) {
                        assert(key_view(cache@[i as int].0) == k);
                    }
                    if in_cache(cache@, k) {
                        let w = choose|w: int| 0 <= w < cache@.len() && key_view(#[trigger] cache@[w].0) == k;
                        if w != i {
                            assert(cache@[w] == orig[w]);
                        }
                    }
                }
            }
            return;
        }
        i = i + 1;
    }
    let ghost kv = key_view(key);
    proof {
        assert(!in_cache(orig, kv));
        lemma_cached_absent(orig, kv);
    }
    let entry = (key, delta);
    cache.push(entry);
    proof {
        assert(cache@.drop_last() =~= orig);
        assert forall|a: int, b: int| 0 <= a < b < cache@.len() implies key_view((#[trigger] cache@[a]).0) != key_view(
            (#[trigger] cache@[b]).0,
        ) by {
            if b < orig.len() {
                assert(key_view(orig[a].0) != key_view(orig[b].0));
            }
        }
        assert forall|k: Seq<Seq<char>>| #[trigger] in_cache(cache@, k) <==> (in_cache(orig, k) || k == kv) by {
            if in_cache(orig, k) {
                let w = choose|w: int| 0 <= w < orig.len() && key_view(#[trigger] orig[w].0) == k;
                assert(cache@[w] == orig[w]);
            }
            if k == kv {
                assert(key_view(cache@[orig.len() as int].0) == k);
            }
            if in_cache(cache@, k) {
                let w = choose|w: int| 0 <= w < cache@.len() && key_view(#[trigger] cache@[w].0) == k;
                if w < orig.len() {
                    assert(cache@[w] == orig[w]);
                }
            }
        }
    }
}

proof fn lemma_magnitude_bounds(entries: Seq<DeltaEntry>, root: Seq<char>, k: Seq<Seq<char>>)
    ensures
        -magnitude_total(entries) <= total_under(entries, root, k) <= magnitude_total(entries),
        magnitude_total(entries) >= 0,
    decreases entries.len(),
{
    if entries.len() > 0 {
        lemma_magnitude_bounds(entries.drop_last(), root, k);
    }
}

pub(crate) proof fn lemma_magnitude_prefix(entries: Seq<DeltaEntry>, i: int)
    requires
        0 <= i <= entries.len(),
    ensures
        magnitude_total(entries.take(i)) <= magnitude_total(entries),
    decreases entries.len() - i,
{
    if i < entries.len() {
        lemma_magnitude_prefix(entries.drop_last(), i);
        assert(entries.drop_last().take(i) =~= entries.take(i));
        let _ = entries;
    } else {
        assert(entries.take(i) =~= entries);
    }
}

fn key_prefix(key: &Vec<String>, m: usize) -> (r: Vec<String>)
    requires
        m <= key@.len(),
    ensures
        key_view(r) == key_view(*key).subrange(0, m as int),
{
    let mut r: Vec<String> = Vec::new();
    let mut j: usize = 0;
    while j < m
        invariant
            m <= key@.len(),
            j <= m,
            key_view(r) == key_view(*key).subrange(0, j as int),
        decreases m - j,
    {
        let s = key[j].clone();
        proof {
            crate::text::lemma_map_values_push(r@, s, |s: String| s@);
            assert(key_view(*key).subrange(0, j + 1) =~= key_view(*key).subrange(0, j as int).push(key@[j as int]@));
        }
        r.push(s);
        j = j + 1;
    }
    r
}

/// Change totals per tree path below `view_root`: each change counts toward
/// the tree path of its entry and every ancestor up to the root (the root
/// written as its name). Changes outside the root are ignored.
pub fn build_delta_cache(view_root: &str, entries: &[DeltaEntry]) -> (cache: Vec<(Vec<String>, i64)>)
    requires
        magnitude_total(entries@) <= i64::MAX,
    ensures
        distinct_keys(cache@),
        forall|k: Seq<Seq<char>>| #[trigger] cached(cache@, k) == total_under(entries@, view_root@, k),
        forall|k: Seq<Seq<char>>| #[trigger] in_cache(cache@, k) <==> has_key(entries@, view_root@, k),
{
    let ghost root = view_root@;
    let root_comps = components_of(view_root);
    let rc = crate::text::chars_of(view_root);
    let root_abs = rc.len() > 0 && rc[0] == '/';
    let label_text = match crate::paths::file_name(view_root) {
        Some(n) => n,
        None => String::new(),
    };
    let label = crate::text::chars_of(label_text.as_str());
    let mut cache: Vec<(Vec<String>, i64)> = Vec::new();
    let mut i: usize = 0;
    proof {
        assert(root_abs == is_absolute(root));
        assert(entries@.take(0) =~= Seq::<DeltaEntry>::empty());
    }
    while i < entries.len()
        invariant
            i <= entries@.len(),
            root == view_root@,
            root_abs == is_absolute(root),
            texts(root_comps@) == components(root),
            label@ == root_label(root),
            magnitude_total(entries@) <= i64::MAX,
            distinct_keys(cache@),
            forall|k: Seq<Seq<char>>| #[trigger] cached(cache@, k) == total_under(entries@.take(i as int), root, k),
            forall|k: Seq<Seq<char>>| #[trigger] in_cache(cache@, k) <==> has_key(entries@.take(i as int), root, k),
        decreases entries@.len() - i,
    {
        let e = &entries[i];
        let ghost before = entries@.take(i as int);
        let ghost after = entries@.take(i + 1);
        proof {
            assert(after.drop_last() =~= before);
            assert(after.last() == entries@[i as int]);
            lemma_magnitude_prefix(entries@, i + 1);
            assert forall|k: Seq<Seq<char>>| #[trigger] has_key(after, root, k) <==> (has_key(before, root, k) || counts_toward(
                entries@[i as int],
                root,
                k,
            )) by {
                if has_key(before, root, k) {
                    let w = choose|w: int| 0 <= w < before.len() && counts_toward(#[trigger] before[w], root, k);
                    assert(after[w] == before[w]);
                }
                if counts_toward(entries@[i as int], root, k) {
                    assert(after[i as int] == entries@[i as int]);
                }
                if has_key(after, root, k) {
                    let w = choose|w: int| 0 <= w < after.len() && counts_toward(#[trigger] after[w], root, k);
                    if w < i {
                        assert(after[w] == before[w]);
                    }
                }
            }
        }
        match tree_path_of(e.path.as_str(), root_abs, &root_comps, &label, Ghost(root)) {
            None => {
                proof {
                    assert forall|k: Seq<Seq<char>>| #[trigger] cached(cache@, k) == total_under(after, root, k) by {
                    }
                }
            },
            Some(key) => {
                let ghost p = key_view(key);
                let mut m: usize = 0;
                while m < key.len()
                    invariant
                        m <= key@.len(),
                        p == key_view(key),
                        tree_path(e.path@, root) == Some(p),
                        e == entries@[i as int],
                        after.len() == i + 1,
                        after.last() == *e,
                        after.drop_last() == before,
                        magnitude_total(after) <= i64::MAX,
                        distinct_keys(cache@),
                        forall|k: Seq<Seq<char>>| #[trigger] cached(cache@, k) == total_under(before, root, k) + if is_prefix_key(k, p)
                            && k.len() <= m {
                            e.delta_size as int
                        } else {
                            0
                        },
                        forall|k: Seq<Seq<char>>| #[trigger] in_cache(cache@, k) <==> (has_key(before, root, k) || (is_prefix_key(k, p)
                            && k.len() <= m)),
                    decreases key@.len() - m,
                {
                    let pre = key_prefix(&key, m + 1);
                    let ghost kp = key_view(pre);
                    proof {
                        assert(key_view(key).len() == key@.len());
                        assert(is_prefix_key(kp, p));
                        assert(kp.len() == m + 1);
                        assert(counts_toward(*e, root, kp));
                        lemma_magnitude_bounds(after, root, kp);
                        assert(total_under(after, root, kp) == total_under(before, root, kp) + e.delta_size);
                    }
                    add_to_key(&mut cache, pre, e.delta_size);
                    proof {
                        assert forall|k: Seq<Seq<char>>| #[trigger] in_cache(cache@, k) <==> (has_key(before, root, k) || (
                        is_prefix_key(k, p) && k.len() <= m + 1)) by {
                            if is_prefix_key(k, p) && k.len() == m + 1 {
                                assert(k =~= kp);
                            }
                        }
                        assert forall|k: Seq<Seq<char>>| #[trigger] cached(cache@, k) == total_under(before, root, k) + if is_prefix_key(
                            k,
                            p,
                        ) && k.len() <= m + 1 {
                            e.delta_size as int
                        } else {
                            0
                        } by {
                            if is_prefix_key(k, p) && k.len() == m + 1 {
                                assert(k =~= kp);
                            }
                        }
                    }
                    m = m + 1;
                }
                proof {
                    assert forall|k: Seq<Seq<char>>| #[trigger] cached(cache@, k) == total_under(after, root, k) by {
                        assert(total_under(after, root, k) == total_under(before, root, k) + contribution(*e, root, k));
                        if is_prefix_key(k, p) {
                            assert(k.len() <= m);
                        }
                    }
                    assert forall|k: Seq<Seq<char>>| #[trigger] in_cache(cache@, k) <==> has_key(after, root, k) by {
                        if is_prefix_key(k, p) {
                            assert(k.len() <= m);
                        }
                    }
                }
            },
        }
        i = i + 1;
    }
    proof {
        assert(entries@.take(entries@.len() as int) =~= entries@);
    }
    cache
}

} // verus!
