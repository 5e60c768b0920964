//! Application uninstalling: the installed applications, the files they
//! leave behind, data no installed application owns, and the items an
//! uninstall removes.
use crate::cleaning::CleanItem;
use crate::paths::{file_name_spec, join_spec};
use crate::safety::RiskLevel;
use crate::search::unicode_lowercase;
use crate::text::{contains_seq, first_occurrence};
use crate::tree_ops::same_path;
use vstd::prelude::*;

verus! {

/// An installed application.
#[derive(Debug)]
pub struct AppInfo {
    /// Bundle identifier ("unknown.<name>" when it cannot be read).
    pub id: String,
    pub name: String,
    pub path: String,
    pub size: u64,
    /// When it was last used, in milliseconds since the epoch.
    pub last_used: Option<i64>,
    pub is_from_app_store: bool,
}

/// The files an application left behind.
#[derive(Debug)]
pub struct AppLeftovers {
    pub app: AppInfo,
    pub leftover_paths: Vec<String>,
    pub total_leftover_bytes: u64,
}

/// Data that no installed application owns.
#[derive(Debug)]
pub struct OrphanedData {
    pub paths: Vec<String>,
    pub total_bytes: u64,
    pub item_count: usize,
}

/// `b` is a copy of `a`.
pub open spec fn same_app(a: AppInfo, b: AppInfo) -> bool {
    &&& b.id@ == a.id@
    &&& b.name@ == a.name@
    &&& b.path@ == a.path@
    &&& b.size == a.size
    &&& b.last_used == a.last_used
    &&& b.is_from_app_store == a.is_from_app_store
}

impl AppInfo {
    /// A copy of the record.
    pub fn copy(&self) -> (c: AppInfo)
        ensures
            same_app(*self, c),
    {
        AppInfo {
            id: self.id.clone(),
            name: self.name.clone(),
            path: self.path.clone(),
            size: self.size,
            last_used: self.last_used,
            is_from_app_store: self.is_from_app_store,
        }
    }
}

/// The directories searched for applications.
pub fn app_dirs() -> (v: Vec<&'static str>)
    ensures
        v@.map_values(|s: &str| s@) == seq!["/Applications"@, "/Applications/Utilities"@, "/System/Applications"@],
{
    let v = vec!["/Applications", "/Applications/Utilities", "/System/Applications"];
    proof {
        assert(v@.map_values(|s: &str| s@) =~= seq![
            "/Applications"@,
            "/Applications/Utilities"@,
            "/System/Applications"@,
        ]);
    }
    v
}

/// The places below the home directory where applications keep data,
/// in search order.
pub open spec fn leftover_rel(k: int) -> Seq<char> {
    if k == 0 {
        "Library/Application Support"@
    } else if k == 1 {
        "Library/Caches"@
    } else if k == 2 {
        "Library/Preferences"@
    } else if k == 3 {
        "Library/Logs"@
    } else if k == 4 {
        "Library/WebKit"@
    } else if k == 5 {
        "Library/Cookies"@
    } else if k == 6 {
        "Library/Saved Application State"@
    } else {
        "Library/Containers"@
    }
}

/// The places below the home directory where applications keep data.
pub fn leftover_relative_paths() -> (v: Vec<&'static str>)
    ensures
        v@.len() == 8,
        forall|k: int| 0 <= k < 8 ==> (#[trigger] v@[k])@ == leftover_rel(k),
{
    vec![
        "Library/Application Support",
        "Library/Caches",
        "Library/Preferences",
        "Library/Logs",
        "Library/WebKit",
        "Library/Cookies",
        "Library/Saved Application State",
        "Library/Containers",
    ]
}

/// The bundle identifier in the text of an `Info.plist`: the text
/// between the first "<string>" and the next "</string>" that follow the
/// first "<key>CFBundleIdentifier</key>" and one more character.
pub open spec fn plist_bundle_id(content: Seq<char>) -> Option<Seq<char>> {
    match first_occurrence(content, "<key>CFBundleIdentifier</key>"@) {
        None => None,
        Some(p) => {
            let after = content.skip(p + 30);
            match first_occurrence(after, "<string>"@) {
                None => None,
                Some(q) => {
                    let from = after.skip(q + 8);
                    match first_occurrence(from, "</string>"@) {
                        None => None,
                        Some(e) => Some(from.take(e)),
                    }
                },
            }
        },
    }
}

/// The key is followed by at least one character, taking one byte.
pub open spec fn plist_readable(content: Seq<char>) -> bool {
    first_occurrence(content, "<key>CFBundleIdentifier</key>"@) matches Some(p) ==> p + 29 < content.len()
        && (content[p + 29] as u32) < 128
}

/// Reads the bundle identifier from the text of an `Info.plist`.
pub fn bundle_id_from_plist(content: &str) -> (r: Option<String>)
    requires
        plist_readable(content@),
    ensures
        match plist_bundle_id(content@) {
            Some(id) => r matches Some(s) && s@ == id,
            None => r is None,
        },
{
    let cs = crate::text::chars_of(content);
    let key = crate::text::chars_of("<key>CFBundleIdentifier</key>");
    let open = crate::text::chars_of("<string>");
    let close = crate::text::chars_of("</string>");
    proof {
        reveal_strlit("<key>CFBundleIdentifier</key>");
        reveal_strlit("<string>");
        reveal_strlit("</string>");
    }
    let p = match crate::text::find_chars(cs.as_slice(), key.as_slice()) {
        None => {
            return None;
        },
        Some(p) => p,
    };
    proof {
        assert(cs@ == content@);
        assert(key@ == "<key>CFBundleIdentifier</key>"@);
        assert(first_occurrence(content@, "<key>CFBundleIdentifier</key>"@) == Some(p as int));
        assert(p + 29 < content@.len());
        assert(p + 29 < cs@.len());
    }
    let len = cs.len();
    let after = vstd::slice::slice_subrange(cs.as_slice(), p + 30, len);
    proof {
        assert(after@ =~= cs@.skip(p + 30));
    }
    let q = match crate::text::find_chars(after, open.as_slice()) {
        None => {
            return None;
        },
        Some(q) => q,
    };
    proof {
        crate::text::lemma_first_occurrence_within(after@, open@);
    }
    let from = vstd::slice::slice_subrange(after, q + 8, after.len());
    proof {
        assert(from@ =~= after@.skip(q + 8));
    }
    match crate::text::find_chars(from, close.as_slice()) {
        None => None,
        Some(e) => {
            proof {
                crate::text::lemma_first_occurrence_within(from@, close@);
            }
            let id = vstd::slice::slice_subrange(from, 0, e);
            proof {
                assert(id@ =~= from@.take(e as int));
            }
            Some(crate::text::string_of(id))
        },
    }
}

/// The identifier of an application: from its `Info.plist` text when it
/// could be read and names one, else "unknown." and its name.
pub open spec fn app_id_of(plist: Option<Seq<char>>, name: Seq<char>) -> Seq<char> {
    match plist {
        Some(c) => match plist_bundle_id(c) {
            Some(id) => id,
            None => "unknown."@ + name,
        },
        None => "unknown."@ + name,
    }
}

/// The identifier of an application (see `app_id_of`).
pub fn app_id(plist: Option<&str>, name: &str) -> (id: String)
    requires
        plist matches Some(c) ==> plist_readable(c@),
    ensures
        id@ == app_id_of(
            match plist {
                Some(c) => Some(c@),
                None => None,
            },
            name@,
        ),
{
    let found = match plist {
        Some(c) => bundle_id_from_plist(c),
        None => None,
    };
    match found {
        Some(id) => id,
        None => {
            let mut id = crate::text::string_from("unknown.");
            crate::text::push_str(&mut id, name);
            proof {
                reveal_strlit("unknown.");
            }
            id
        },
    }
}

/// Whether a directory entry is an application bundle (extension "app").
pub fn is_app_bundle(path: &str) -> (b: bool)
    ensures
        b == (crate::paths::extension_spec(path@) == Some("app"@)),
{
    crate::paths::has_extension(path, "app")
}

/// What was read of one application bundle: its path and size, the text
/// of its `Info.plist` when it could be read, and when it was last used.
pub struct BundleProbe {
    pub path: String,
    pub size: u64,
    pub plist: Option<String>,
    pub last_used: Option<i64>,
}

/// The record of a probed bundle: named by its file stem, identified by
/// its `Info.plist` (see `app_id_of`), not from the App Store.
pub open spec fn bundle_app(p: BundleProbe, a: AppInfo) -> bool {
    let name = match crate::paths::file_stem_spec(p.path@) {
        Some(s) => s,
        None => "Unknown"@,
    };
    &&& a.name@ == name
    &&& a.id@ == app_id_of(
        match p.plist {
            Some(c) => Some(c@),
            None => None,
        },
        name,
    )
    &&& a.path@ == p.path@
    &&& a.size == p.size
    &&& a.last_used == p.last_used
    &&& !a.is_from_app_store
}

/// Sizes of the applications, in order.
pub open spec fn app_sizes(apps: Seq<AppInfo>) -> Seq<u64> {
    apps.map_values(|a: AppInfo| a.size)
}

/// Larger applications first.
pub open spec fn by_size_desc(apps: Seq<AppInfo>) -> bool {
    forall|i: int, j: int| 0 <= i < j < apps.len() ==> apps[i].size >= apps[j].size
}

/// The installed applications from the probed bundles: one record per
/// bundle, largest first; bundles of equal size keep their order.
pub fn collect_installed_apps(probes: &[BundleProbe]) -> (apps: Vec<AppInfo>)
    requires
        forall|i: int|
            0 <= i < probes@.len() ==> ((#[trigger] probes@[i]).plist matches Some(c) ==> plist_readable(c@)),
    ensures
        apps@.len() == probes@.len(),
        by_size_desc(apps@),
        exists|perm: Seq<int>|
            #![trigger perm.len()]
            perm.len() == apps@.len() && (forall|i: int|
                0 <= i < perm.len() ==> 0 <= #[trigger] perm[i] < probes@.len() && bundle_app(
                    probes@[perm[i]],
                    apps@[i],
                )) && (forall|i: int, j: int|
                0 <= i < j < perm.len() ==> #[trigger] perm[i] != #[trigger] perm[j]) && (forall|i: int, j: int|
                0 <= i < j < perm.len() && apps@[i].size == apps@[j].size ==> perm[i] < perm[j]),
{
    let mut apps: Vec<AppInfo> = Vec::new();
    let ghost mut perm: Seq<int> = Seq::empty();
    let mut k: usize = 0;
    while k < probes.len()
        invariant
            k <= probes@.len(),
            forall|i: int|
                0 <= i < probes@.len() ==> ((#[trigger] probes@[i]).plist matches Some(c) ==> plist_readable(c@)),
            apps@.len() == k,
            perm.len() == k,
            by_size_desc(apps@),
            forall|i: int| 0 <= i < perm.len() ==> 0 <= #[trigger] perm[i] < k && bundle_app(probes@[perm[i]], apps@[i]),
            forall|i: int, j: int| 0 <= i < j < perm.len() ==> #[trigger] perm[i] != #[trigger] perm[j],
            forall|i: int, j: int| 0 <= i < j < perm.len() && apps@[i].size == apps@[j].size ==> perm[i] < perm[j],
        decreases probes@.len() - k,
    {
        let p = &probes[k];
        let name = crate::maintenance::app_name_from_path(p.path.as_str());
        let id = app_id(
            match &p.plist {
                Some(c) => Some(c.as_str()),
                None => None,
            },
            name.as_str(),
        );
        let a = AppInfo {
            id,
            name,
            path: p.path.clone(),
            size: p.size,
            last_used: p.last_used,
            is_from_app_store: false,
        };
        // Place it after every application at least as large.
        let mut pos: usize = apps.len();
        while pos > 0 && apps[pos - 1].size < a.size
            invariant
                pos <= apps@.len(),
                by_size_desc(apps@),
                forall|i: int| pos <= i < apps@.len() ==> apps@[i].size < a.size,
            decreases pos,
        {
            pos = pos - 1;
        }
        let ghost before = apps@;
        let ghost pb = perm;
        apps.insert(pos, a);
        proof {
            perm = pb.insert(pos as int, k as int);
            assert forall|i: int, j: int| 0 <= i < j < apps@.len() implies apps@[i].size >= apps@[j].size by {
                if i < pos && j > pos {
                    assert(before[i].size >= before[j - 1].size || j - 1 <= i);
                }
            }
            assert forall|i: int| 0 <= i < perm.len() implies 0 <= #[trigger] perm[i] < k + 1 && bundle_app(
                probes@[perm[i]],
                apps@[i],
            ) by {
                if i < pos {
                    assert(perm[i] == pb[i]);
                } else if i > pos {
                    assert(perm[i] == pb[i - 1]);
                }
            }
            assert forall|i: int, j: int| 0 <= i < j < perm.len() implies #[trigger] perm[i] != #[trigger] perm[j] by {
                if i < pos && j > pos {
                    assert(perm[j] == pb[j - 1]);
                } else if i > pos {
                    assert(perm[i] == pb[i - 1] && perm[j] == pb[j - 1]);
                } else if j < pos {
                } else if i == pos {
                    assert(perm[j] == pb[j - 1]);
                } else {
                    assert(perm[i] == pb[i]);
                }
            }
            assert forall|i: int, j: int|
                0 <= i < j < perm.len() && apps@[i].size == apps@[j].size implies perm[i] < perm[j] by {
                if i < pos && j > pos {
                    assert(perm[j] == pb[j - 1]);
                } else if i > pos {
                    assert(perm[i] == pb[i - 1] && perm[j] == pb[j - 1]);
                } else if j < pos {
                } else if i == pos {
                    assert(perm[j] == pb[j - 1]);
                    assert(apps@[j].size < a.size);
                } else {
                    assert(perm[i] == pb[i]);
                }
            }
        }
        k = k + 1;
    }
    apps
}

/// The lower-case name of a listed entry (empty when it has none).
pub open spec fn entry_name_lower(path: Seq<char>) -> Seq<char> {
    match file_name_spec(path) {
        Some(n) => unicode_lowercase(n),
        None => Seq::empty(),
    }
}

fn entry_name_lower_of(path: &str) -> (s: String)
    ensures
        s@ == entry_name_lower(path@),
{
    match crate::paths::file_name(path) {
        Some(n) => crate::search::to_lowercase(n.as_str()),
        None => String::new(),
    }
}

/// `s` without its dots.
pub open spec fn without_dots(s: Seq<char>) -> Seq<char>
    decreases s.len(),
{
    if s.len() == 0 {
        Seq::empty()
    } else {
        without_dots(s.drop_last()) + if s.last() == '.' {
            Seq::<char>::empty()
        } else {
            seq![s.last()]
        }
    }
}

fn remove_dots(s: &str) -> (r: String)
    ensures
        r@ == without_dots(s@),
{
    let cs = crate::text::chars_of(s);
    let mut out: Vec<char> = Vec::new();
    let mut i: usize = 0;
    proof {
        assert(cs@.take(0) =~= Seq::<char>::empty());
    }
    while i < cs.len()
        invariant
            i <= cs@.len(),
            out@ == without_dots(cs@.take(i as int)),
        decreases cs@.len() - i,
    {
        proof {
            assert(cs@.take(i + 1).drop_last() =~= cs@.take(i as int));
        }
        if cs[i] != '.' {
            out.push(cs[i]);
        }
        proof {
            assert(out@ =~= without_dots(cs@.take(i + 1)));
        }
        i = i + 1;
    }
    proof {
        assert(cs@.take(cs@.len() as int) =~= cs@);
    }
    crate::text::string_of(out.as_slice())
}

/// Where leftovers of an application are first looked for: below each
/// data place, a directory named by its identifier, then one named by
/// its name.
pub open spec fn leftover_candidate(home: Seq<char>, id: Seq<char>, name: Seq<char>, i: int) -> Seq<char> {
    join_spec(
        join_spec(home, leftover_rel(i / 2)),
        if i % 2 == 0 {
            id
        } else {
            name
        },
    )
}

/// The places where leftovers of `app` are first looked for (see
/// `leftover_candidate`), in order.
pub fn leftover_candidates(home: &str, app: &AppInfo) -> (v: Vec<String>)
    ensures
        v@.len() == 16,
        forall|i: int| 0 <= i < 16 ==> (#[trigger] v@[i])@ == leftover_candidate(home@, app.id@, app.name@, i),
{
    let rels = leftover_relative_paths();
    let mut v: Vec<String> = Vec::new();
    let mut k: usize = 0;
    while k < 8
        invariant
            k <= 8,
            rels@.len() == 8,
            forall|j: int| 0 <= j < 8 ==> (#[trigger] rels@[j])@ == leftover_rel(j),
            v@.len() == 2 * k,
            forall|i: int| 0 <= i < 2 * k ==> (#[trigger] v@[i])@ == leftover_candidate(home@, app.id@, app.name@, i),
        decreases 8 - k,
    {
        let base = crate::paths::join(home, rels[k]);
        let by_id = crate::paths::join(base.as_str(), app.id.as_str());
        let by_name = crate::paths::join(base.as_str(), app.name.as_str());
        proof {
            assert((2 * k) / 2 == k && (2 * k) % 2 == 0) by (nonlinear_arith);
            assert((2 * k + 1) / 2 == k && (2 * k + 1) % 2 == 1) by (nonlinear_arith);
        }
        v.push(by_id);
        v.push(by_name);
        k = k + 1;
    }
    v
}

/// A directory entry as read: its path, whether it exists, and its size.
pub struct ListedEntry {
    pub path: String,
    pub exists: bool,
    pub size: u64,
}

/// A lower-case entry name names the application: it holds the
/// lower-case name, or the lower-case identifier without its dots.
pub open spec fn names_app(fname: Seq<char>, name_l: Seq<char>, id_l: Seq<char>) -> bool {
    contains_seq(fname, name_l) || contains_seq(fname, without_dots(id_l))
}

/// One of the found paths names `p`.
pub open spec fn has_path(found: Seq<(Seq<char>, u64)>, p: Seq<char>) -> bool {
    exists|i: int| 0 <= i < found.len() && same_path(#[trigger] found[i].0, p)
}

/// The candidates that exist, with their sizes, in order.
pub open spec fn existing_candidates(cands: Seq<Seq<char>>, probes: Seq<Option<u64>>) -> Seq<(Seq<char>, u64)>
    decreases probes.len(),
{
    if probes.len() == 0 || cands.len() < probes.len() {
        Seq::empty()
    } else {
        existing_candidates(cands, probes.drop_last()) + match probes.last() {
            Some(size) => seq![(cands[probes.len() - 1], size)],
            None => Seq::empty(),
        }
    }
}

/// `found` extended with the support entries that name the application
/// and exist, skipping those already found.
pub open spec fn with_support(
    found: Seq<(Seq<char>, u64)>,
    entries: Seq<ListedEntry>,
    name_l: Seq<char>,
    id_l: Seq<char>,
) -> Seq<(Seq<char>, u64)>
    decreases entries.len(),
{
    if entries.len() == 0 {
        found
    } else {
        let acc = with_support(found, entries.drop_last(), name_l, id_l);
        let e = entries.last();
        if !has_path(acc, e.path@) && names_app(entry_name_lower(e.path@), name_l, id_l) && e.exists {
            acc.push((e.path@, e.size))
        } else {
            acc
        }
    }
}

/// Sum of the sizes.
pub open spec fn pairs_total(ps: Seq<(Seq<char>, u64)>) -> int
    decreases ps.len(),
{
    if ps.len() == 0 {
        0
    } else {
        pairs_total(ps.drop_last()) + ps.last().1
    }
}

proof fn lemma_pairs_total_prefix(ps: Seq<(Seq<char>, u64)>, n: int)
    requires
        0 <= n <= ps.len(),
    ensures
        pairs_total(ps.take(n)) <= pairs_total(ps),
    decreases ps.len() - n,
{
    if n < ps.len() {
        lemma_pairs_total_prefix(ps, n + 1);
        assert(ps.take(n + 1).drop_last() =~= ps.take(n));
    } else {
        assert(ps.take(n) =~= ps);
    }
}

proof fn lemma_with_support_extends(
    found: Seq<(Seq<char>, u64)>,
    entries: Seq<ListedEntry>,
    name_l: Seq<char>,
    id_l: Seq<char>,
)
    ensures
        with_support(found, entries, name_l, id_l).len() >= found.len(),
        with_support(found, entries, name_l, id_l).take(found.len() as int) == found,
    decreases entries.len(),
{
    if entries.len() > 0 {
        lemma_with_support_extends(found, entries.drop_last(), name_l, id_l);
        let acc = with_support(found, entries.drop_last(), name_l, id_l);
        assert(acc.push((entries.last().path@, entries.last().size)).take(found.len() as int) =~= acc.take(
            found.len() as int,
        ));
    }
}

proof fn lemma_with_support_prefix(
    found: Seq<(Seq<char>, u64)>,
    entries: Seq<ListedEntry>,
    name_l: Seq<char>,
    id_l: Seq<char>,
    k: int,
)
    requires
        0 <= k <= entries.len(),
    ensures
        pairs_total(with_support(found, entries.take(k), name_l, id_l)) <= pairs_total(
            with_support(found, entries, name_l, id_l),
        ),
    decreases entries.len() - k,
{
    if k < entries.len() {
        lemma_with_support_prefix(found, entries, name_l, id_l, k + 1);
        assert(entries.take(k + 1).drop_last() =~= entries.take(k));
        let acc = with_support(found, entries.take(k), name_l, id_l);
        assert(acc.push((entries[k].path@, entries[k].size)).drop_last() =~= acc);
    } else {
        assert(entries.take(k) =~= entries);
    }
}

fn found_has(found: &Vec<String>, p: &str, Ghost(pairs): Ghost<Seq<(Seq<char>, u64)>>) -> (r: bool)
    requires
        found@.map_values(|s: String| s@) == pairs.map_values(|q: (Seq<char>, u64)| q.0),
    ensures
        r == has_path(pairs, p@),
{
    let mut i: usize = 0;
    while i < found.len()
        invariant
            i <= found@.len(),
            found@.map_values(|s: String| s@) == pairs.map_values(|q: (Seq<char>, u64)| q.0),
            forall|j: int| 0 <= j < i ==> !same_path(#[trigger] pairs[j].0, p@),
        decreases found@.len() - i,
    {
        proof {
            assert(found@.map_values(|s: String| s@).len() == found@.len());
            assert(pairs.map_values(|q: (Seq<char>, u64)| q.0).len() == pairs.len());
            assert(found@.map_values(|s: String| s@)[i as int] == found@[i as int]@);
            assert(pairs.map_values(|q: (Seq<char>, u64)| q.0)[i as int] == pairs[i as int].0);
        }
        if crate::review_keys::path_is(found[i].as_str(), p) {
            return true;
        }
        i = i + 1;
    }
    proof {
        assert(found@.map_values(|s: String| s@).len() == found@.len());
        assert(pairs.map_values(|q: (Seq<char>, u64)| q.0).len() == pairs.len());
    }
    false
}

/// What is found of an application's leftovers, given whether each place
/// of `leftover_candidates` exists (with its size) and the entries listed
/// in "Library/Application Support": the existing places, then the
/// support entries that name it and are not found yet.
pub open spec fn leftovers_found(
    home: Seq<char>,
    app: AppInfo,
    probes: Seq<Option<u64>>,
    support: Seq<ListedEntry>,
) -> Seq<(Seq<char>, u64)> {
    let cands = Seq::new(16, |i: int| leftover_candidate(home, app.id@, app.name@, i));
    with_support(
        existing_candidates(cands, probes),
        support,
        unicode_lowercase(app.name@),
        unicode_lowercase(app.id@),
    )
}

/// The leftovers of `app` (see `leftovers_found`) and their total size.
pub fn assemble_leftovers(
    app: &AppInfo,
    home: &str,
    probes: &[Option<u64>],
    support: &[ListedEntry],
) -> (r: AppLeftovers)
    requires
        probes@.len() == 16,
        pairs_total(leftovers_found(home@, *app, probes@, support@)) <= u64::MAX,
    ensures
        same_app(*app, r.app),
        r.leftover_paths@.map_values(|s: String| s@) == leftovers_found(home@, *app, probes@, support@).map_values(
            |q: (Seq<char>, u64)| q.0,
        ),
        r.total_leftover_bytes == pairs_total(leftovers_found(home@, *app, probes@, support@)),
{
    let ghost cands = Seq::new(16, |i: int| leftover_candidate(home@, app.id@, app.name@, i));
    let ghost name_l = unicode_lowercase(app.name@);
    let ghost id_l = unicode_lowercase(app.id@);
    let ghost all = leftovers_found(home@, *app, probes@, support@);
    let cand = leftover_candidates(home, app);
    let mut found: Vec<String> = Vec::new();
    let mut total: u64 = 0;
    let mut i: usize = 0;
    proof {
        assert(probes@.take(0) =~= Seq::<Option<u64>>::empty());
        lemma_with_support_extends(existing_candidates(cands, probes@), support@, name_l, id_l);
    }
    while i < 16
        invariant
            i <= 16,
            probes@.len() == 16,
            cand@.len() == 16,
            forall|j: int| 0 <= j < 16 ==> (#[trigger] cand@[j])@ == cands[j],
            cands.len() == 16,
            all == with_support(existing_candidates(cands, probes@), support@, name_l, id_l),
            all.take(existing_candidates(cands, probes@).len() as int) == existing_candidates(cands, probes@),
            all.len() >= existing_candidates(cands, probes@).len(),
            pairs_total(all) <= u64::MAX,
            found@.map_values(|s: String| s@) == existing_candidates(cands, probes@.take(i as int)).map_values(
                |q: (Seq<char>, u64)| q.0,
            ),
            total == pairs_total(existing_candidates(cands, probes@.take(i as int))),
        decreases 16 - i,
    {
        let ghost before = existing_candidates(cands, probes@.take(i as int));
        proof {
            assert(probes@.take(i + 1).drop_last() =~= probes@.take(i as int));
            lemma_existing_prefix(cands, probes@, i + 1);
            let m = existing_candidates(cands, probes@.take(i + 1)).len() as int;
            let mm = existing_candidates(cands, probes@).len() as int;
            lemma_pairs_total_prefix(all, m);
            assert(all.take(m) =~= all.take(mm).take(m));
            assert(all.take(m) == existing_candidates(cands, probes@.take(i + 1)));
            assert(probes@.take(i + 1).last() == probes@[i as int]);
        }
        match probes[i] {
            Some(size) => {
                let p = cand[i].clone();
                proof {
                    crate::text::lemma_map_values_push(found@, p, |s: String| s@);
                    crate::text::lemma_map_values_push(before, (cands[i as int], size), |q: (Seq<char>, u64)| q.0);
                    assert(existing_candidates(cands, probes@.take(i + 1)) =~= before.push((cands[i as int], size)));
                    assert(before.push((cands[i as int], size)).drop_last() =~= before);
                }
                found.push(p);
                total = total + size;
            },
            None => {
                proof {
                    assert(existing_candidates(cands, probes@.take(i + 1)) =~= before);
                }
            },
        }
        i = i + 1;
    }
    proof {
        assert(probes@.take(16) =~= probes@);
    }
    let ghost start = existing_candidates(cands, probes@);
    let mut k: usize = 0;
    proof {
        assert(support@.take(0) =~= Seq::<ListedEntry>::empty());
    }
    while k < support.len()
        invariant
            k <= support@.len(),
            all == with_support(start, support@, name_l, id_l),
            pairs_total(all) <= u64::MAX,
            name_l == unicode_lowercase(app.name@),
            id_l == unicode_lowercase(app.id@),
            found@.map_values(|s: String| s@) == with_support(start, support@.take(k as int), name_l, id_l).map_values(
                |q: (Seq<char>, u64)| q.0,
            ),
            total == pairs_total(with_support(start, support@.take(k as int), name_l, id_l)),
        decreases support@.len() - k,
    {
        let ghost acc = with_support(start, support@.take(k as int), name_l, id_l);
        proof {
            assert(support@.take(k + 1).drop_last() =~= support@.take(k as int));
            lemma_with_support_prefix(start, support@, name_l, id_l, k + 1);
        }
        let e = &support[k];
        if !found_has(&found, e.path.as_str(), Ghost(acc)) {
            let fname = entry_name_lower_of(e.path.as_str());
            let name_lower = crate::search::to_lowercase(app.name.as_str());
            let id_lower = crate::search::to_lowercase(app.id.as_str());
            let id_plain = remove_dots(id_lower.as_str());
            let fc = crate::text::chars_of(fname.as_str());
            let nc = crate::text::chars_of(name_lower.as_str());
            let ic = crate::text::chars_of(id_plain.as_str());
            let matches = crate::text::contains_exec(fc.as_slice(), nc.as_slice()) || crate::text::contains_exec(
                fc.as_slice(),
                ic.as_slice(),
            );
            if matches && e.exists {
                let p = e.path.clone();
                proof {
                    crate::text::lemma_map_values_push(found@, p, |s: String| s@);
                    crate::text::lemma_map_values_push(acc, (e.path@, e.size), |q: (Seq<char>, u64)| q.0);
                    assert(acc.push((e.path@, e.size)).drop_last() =~= acc);
                }
                found.push(p);
                total = total + e.size;
            }
        }
        k = k + 1;
    }
    proof {
        assert(support@.take(support@.len() as int) =~= support@);
    }
    AppLeftovers { app: app.copy(), leftover_paths: found, total_leftover_bytes: total }
}

proof fn lemma_existing_prefix(cands: Seq<Seq<char>>, probes: Seq<Option<u64>>, n: int)
    requires
        0 <= n <= probes.len(),
        cands.len() >= probes.len(),
    ensures
        existing_candidates(cands, probes.take(n)).len() <= existing_candidates(cands, probes).len(),
        existing_candidates(cands, probes).take(existing_candidates(cands, probes.take(n)).len() as int)
            == existing_candidates(cands, probes.take(n)),
    decreases probes.len() - n,
{
    if n < probes.len() {
        lemma_existing_prefix(cands, probes, n + 1);
        assert(probes.take(n + 1).drop_last() =~= probes.take(n));
        let a = existing_candidates(cands, probes.take(n));
        let b = existing_candidates(cands, probes.take(n + 1));
        assert(b.take(a.len() as int) =~= a);
        assert(existing_candidates(cands, probes).take(a.len() as int) =~= existing_candidates(cands, probes).take(
            b.len() as int,
        ).take(a.len() as int));
    } else {
        assert(probes.take(n) =~= probes);
        assert(existing_candidates(cands, probes).take(existing_candidates(cands, probes).len() as int)
            =~= existing_candidates(cands, probes));
    }
}

/// The names an installed application is known by: its lower-case name
/// and its lower-case identifier without dots, for each application.
pub open spec fn known_of(apps: Seq<AppInfo>, i: int) -> Seq<char> {
    if i % 2 == 0 {
        unicode_lowercase(apps[i / 2].name@)
    } else {
        without_dots(unicode_lowercase(apps[i / 2].id@))
    }
}

/// The names the applications are known by (see `known_of`).
pub fn known_names(apps: &[AppInfo]) -> (v: Vec<String>)
    requires
        apps@.len() * 2 <= usize::MAX,
    ensures
        v@.len() == 2 * apps@.len(),
        forall|i: int| 0 <= i < v@.len() ==> (#[trigger] v@[i])@ == known_of(apps@, i),
{
    let mut v: Vec<String> = Vec::new();
    let mut k: usize = 0;
    while k < apps.len()
        invariant
            k <= apps@.len(),
            v@.len() == 2 * k,
            forall|i: int| 0 <= i < v@.len() ==> (#[trigger] v@[i])@ == known_of(apps@, i),
        decreases apps@.len() - k,
    {
        let name_l = crate::search::to_lowercase(apps[k].name.as_str());
        let id_l = crate::search::to_lowercase(apps[k].id.as_str());
        proof {
            assert((2 * k) / 2 == k && (2 * k) % 2 == 0) by (nonlinear_arith);
            assert((2 * k + 1) / 2 == k && (2 * k + 1) % 2 == 1) by (nonlinear_arith);
        }
        v.push(name_l);
        v.push(remove_dots(id_l.as_str()));
        k = k + 1;
    }
    v
}

/// An entry name is known when, both lower-cased, it equals a known name,
/// holds one, or is held by one.
pub open spec fn is_known(known: Seq<String>, fname: Seq<char>) -> bool {
    let fc = unicode_lowercase(fname);
    exists|i: int|
        0 <= i < known.len() && {
            let kc = unicode_lowercase(#[trigger] known[i]@);
            fc == kc || contains_seq(fc, kc) || contains_seq(kc, fc)
        }
}

fn known_entry(known: &[String], fname: &str) -> (r: bool)
    ensures
        r == is_known(known@, fname@),
{
    let fc = crate::search::to_lowercase(fname);
    let fcs = crate::text::chars_of(fc.as_str());
    let mut i: usize = 0;
    while i < known.len()
        invariant
            i <= known@.len(),
            fcs@ == unicode_lowercase(fname@),
            forall|j: int|
                0 <= j < i ==> {
                    let kc = unicode_lowercase(#[trigger] known@[j]@);
                    !(fcs@ == kc || contains_seq(fcs@, kc) || contains_seq(kc, fcs@))
                },
        decreases known@.len() - i,
    {
        let kc = crate::search::to_lowercase(known[i].as_str());
        let kcs = crate::text::chars_of(kc.as_str());
        if crate::text::chars_eq(fcs.as_slice(), kcs.as_slice()) || crate::text::contains_exec(
            fcs.as_slice(),
            kcs.as_slice(),
        ) || crate::text::contains_exec(kcs.as_slice(), fcs.as_slice()) {
            return true;
        }
        i = i + 1;
    }
    false
}

/// The orphaned entries among `entries` (listed in the data places): the
/// ones whose lower-case name does not start with '.' and is not known.
pub open spec fn orphans(known: Seq<String>, entries: Seq<(String, u64)>) -> Seq<(Seq<char>, u64)>
    decreases entries.len(),
{
    if entries.len() == 0 {
        Seq::empty()
    } else {
        let e = entries.last();
        let fname = entry_name_lower(e.0@);
        orphans(known, entries.drop_last()) + if !(fname.len() > 0 && fname[0] == '.') && !is_known(known, fname) {
            seq![(e.0@, e.1)]
        } else {
            Seq::<(Seq<char>, u64)>::empty()
        }
    }
}

proof fn lemma_orphans_prefix(known: Seq<String>, entries: Seq<(String, u64)>, k: int)
    requires
        0 <= k <= entries.len(),
    ensures
        pairs_total(orphans(known, entries.take(k))) <= pairs_total(orphans(known, entries)),
    decreases entries.len() - k,
{
    if k < entries.len() {
        lemma_orphans_prefix(known, entries, k + 1);
        assert(entries.take(k + 1).drop_last() =~= entries.take(k));
        let a = orphans(known, entries.take(k));
        assert(a.push((entries[k].0@, entries[k].1)).drop_last() =~= a);
        assert(a + Seq::<(Seq<char>, u64)>::empty() =~= a);
        assert(a + seq![(entries[k].0@, entries[k].1)] =~= a.push((entries[k].0@, entries[k].1)));
    } else {
        assert(entries.take(k) =~= entries);
    }
}

/// The data no installed application owns among the entries listed in
/// the data places (see `orphans`), with their total size and count.
pub fn orphaned_data(known: &[String], entries: &[(String, u64)]) -> (r: OrphanedData)
    requires
        pairs_total(orphans(known@, entries@)) <= u64::MAX,
    ensures
        r.paths@.map_values(|s: String| s@) == orphans(known@, entries@).map_values(|q: (Seq<char>, u64)| q.0),
        r.total_bytes == pairs_total(orphans(known@, entries@)),
        r.item_count == r.paths@.len(),
{
    let mut paths: Vec<String> = Vec::new();
    let mut total: u64 = 0;
    let mut k: usize = 0;
    proof {
        assert(entries@.take(0) =~= Seq::<(String, u64)>::empty());
    }
    while k < entries.len()
        invariant
            k <= entries@.len(),
            pairs_total(orphans(known@, entries@)) <= u64::MAX,
            paths@.map_values(|s: String| s@) == orphans(known@, entries@.take(k as int)).map_values(
                |q: (Seq<char>, u64)| q.0,
            ),
            total == pairs_total(orphans(known@, entries@.take(k as int))),
        decreases entries@.len() - k,
    {
        let ghost before = orphans(known@, entries@.take(k as int));
        proof {
            assert(entries@.take(k + 1).drop_last() =~= entries@.take(k as int));
            lemma_orphans_prefix(known@, entries@, k + 1);
        }
        let fname = entry_name_lower_of(entries[k].0.as_str());
        let fcs = crate::text::chars_of(fname.as_str());
        let hidden = fcs.len() > 0 && fcs[0] == '.';
        if !hidden && !known_entry(known, fname.as_str()) {
            let p = entries[k].0.clone();
            proof {
                crate::text::lemma_map_values_push(paths@, p, |s: String| s@);
                crate::text::lemma_map_values_push(before, (entries@[k as int].0@, entries@[k as int].1), |q: (Seq<char>, u64)| q.0);
                assert(orphans(known@, entries@.take(k + 1)) =~= before.push((entries@[k as int].0@, entries@[k as int].1)));
                assert(before.push((entries@[k as int].0@, entries@[k as int].1)).drop_last() =~= before);
            }
            paths.push(p);
            total = total + entries[k].1;
        } else {
            proof {
                assert(orphans(known@, entries@.take(k + 1)) =~= before);
            }
        }
        k = k + 1;
    }
    proof {
        assert(entries@.take(entries@.len() as int) =~= entries@);
        assert(paths@.map_values(|s: String| s@).len() == paths@.len());
    }
    let n = paths.len();
    OrphanedData { paths, total_bytes: total, item_count: n }
}

/// The items an uninstall removes: the application bundle, then (when
/// asked) each leftover with its size, all at low risk.
pub fn uninstall_items(app: &AppInfo, leftovers: Option<&[(String, u64)]>) -> (items: Vec<CleanItem>)
    ensures
        items@.len() == 1 + match leftovers {
            Some(l) => l@.len(),
            None => 0,
        },
        items@[0].path@ == app.path@ && items@[0].size == app.size && items@[0].risk == RiskLevel::Low
            && items@[0].target_id@ == "uninstall"@,
        leftovers matches Some(l) ==> forall|i: int|
            0 <= i < l@.len() ==> {
                let it = #[trigger] items@[i + 1];
                it.path@ == l@[i].0@ && it.size == l@[i].1 && it.risk == RiskLevel::Low && it.target_id@
                    == "uninstall-leftover"@
            },
{
    let mut items: Vec<CleanItem> = Vec::new();
    items.push(
        CleanItem {
            path: app.path.clone(),
            size: app.size,
            risk: RiskLevel::Low,
            target_id: crate::text::string_from("uninstall"),
        },
    );
    match leftovers {
        None => {},
        Some(l) => {
            let mut k: usize = 0;
            while k < l.len()
                invariant
                    k <= l@.len(),
                    items@.len() == 1 + k,
                    items@[0].path@ == app.path@ && items@[0].size == app.size && items@[0].risk == RiskLevel::Low
                        && items@[0].target_id@ == "uninstall"@,
                    forall|i: int|
                        0 <= i < k ==> {
                            let it = #[trigger] items@[i + 1];
                            it.path@ == l@[i].0@ && it.size == l@[i].1 && it.risk == RiskLevel::Low
                                && it.target_id@ == "uninstall-leftover"@
                        },
                decreases l@.len() - k,
            {
                items.push(
                    CleanItem {
                        path: l[k].0.clone(),
                        size: l[k].1,
                        risk: RiskLevel::Low,
                        target_id: crate::text::string_from("uninstall-leftover"),
                    },
                );
                k = k + 1;
            }
        },
    }
    items
}

/// The failure recorded when moving an uninstalled item to the trash
/// fails.
pub fn trash_failure(err: &str) -> (m: String)
    ensures
        m@ == "trash: "@ + err@,
{
    let mut m = crate::text::string_from("trash: ");
    crate::text::push_str(&mut m, err);
    m
}

} // verus!
