//! What the application does with the messages its background work sends:
//! scan progress and results, daemon connection changes, change data,
//! deletion progress and results, review answers, and the results of the
//! cleanup and uninstall popups' scans. Each message changes the state
//! and tells the surrounding program which outside work follows (keeping a
//! daemon connection, rebuilding the tree, reloading the listing, writing
//! the log).
use crate::browse::{lemma_lex_total, lemma_lex_trans, lex_lt};
use crate::browser_state::TimeWindow;
use crate::browsing::BrowseState;
use crate::cleaning::{CleanItem, CleanReport};
use crate::cleanup_view::{CleanupState, UninstallState};
use crate::model::Snapshot;
use crate::review::{AiPathVerdict, AiReviewState, AiStatus};
use crate::flat::shown_path;
use crate::summary::joined_with;
use crate::text::decimal;
use crate::model::NodeIndex;
use crate::tree_ops::{
    apply_deletions, cache_wf, deletion_chain, freed_sum, freed_total, names_view, same_path, tree_chain, TreeState,
};
use crate::uninstall::{AppInfo, AppLeftovers};
use vstd::prelude::*;

verus! {

/// The status line: its text, whether it reports an error, and for how
/// many seconds it shows.
pub struct StatusLine {
    pub text: String,
    pub is_error: bool,
    pub secs: u64,
}

/// Totals of the last finished scan.
pub struct ScanTotals {
    pub root_path: String,
    pub total_size: u64,
    pub total_disk_usage: u64,
    pub total_files: u64,
}

/// The application state that messages change.
pub struct AppState {
    /// Cached scans, the browsed root and its tree.
    pub tree: TreeState,
    /// Mode, multi-select and the other browsing state.
    pub browse: BrowseState,
    /// The shown directory, as tree components from the root.
    pub current_dir_path: Vec<String>,
    pub window: TimeWindow,
    pub scanning: bool,
    /// Files and bytes seen so far by the running scan.
    pub scan_progress: Option<(u64, u64)>,
    pub scan_current_path: Option<String>,
    pub last_scan: Option<ScanTotals>,
    pub server_mode: bool,
    pub server_connected: bool,
    pub delta_cache: Vec<(Vec<String>, i64)>,
    pub delta_filter_active: bool,
    pub delta_pending: bool,
    pub deleting: bool,
    pub delete_progress: Option<(u64, u64)>,
    pub deleted_bytes: u64,
    pub cleanup: Option<CleanupState>,
    pub uninstall: Option<UninstallState>,
    pub ai: Option<AiReviewState>,
    pub status: Option<StatusLine>,
}

/// The cached scans are well formed and so is the shown tree.
pub open spec fn app_wf(s: AppState) -> bool {
    &&& cache_wf(s.tree.scan_cache@)
    &&& s.tree.tree_root matches Some(t) ==> t.0.wf() && t.0.ordered()
}

/// A message from background work. A daemon connection and a loaded
/// change-detail popup stay with the surrounding program, which hands the
/// bare message on.
pub enum AppMessage {
    ScanProgress { file_count: u64, total_bytes: u64, current_path: Option<String> },
    ScanComplete(Snapshot),
    Error(String),
    DaemonConnected,
    DaemonDisconnected,
    /// Change data; `client_returned` when the connection came back with it.
    DeltaData { deltas: Vec<(Vec<String>, i64)>, client_returned: bool },
    DeltaDetailLoaded,
    Info(String),
    DeleteProgress { current: u64, total: u64 },
    DeleteComplete { errors: Vec<String>, paths: Vec<String> },
    AiAnalysisComplete(Vec<AiPathVerdict>),
    AiAnalysisError(String),
    CleanupScanComplete { items: Vec<CleanItem>, total_bytes: u64 },
    CleanupExecComplete(CleanReport),
    CleanupScanProgress(String),
    CleanupDetailReady(Vec<(String, u64)>),
    AppListReady(Vec<AppInfo>),
    UninstallScanProgress(String),
    UninstallLeftoversReady(AppLeftovers),
    UninstallComplete(CleanReport),
}

/// The outside work that follows a message.
pub struct MessageEffects {
    /// Keep the daemon connection that came with the message.
    pub keep_client: bool,
    pub drop_client: bool,
    /// Note when the scan ended (its duration is measured outside).
    pub scan_finished: bool,
    /// Forget when the scan started.
    pub scan_aborted: bool,
    /// Build the tree of the browsed root again and forget the way back.
    pub rebuild: bool,
    pub reload_listing: bool,
    pub refilter_listing: bool,
    pub request_deltas: bool,
    /// Show the loaded change-detail popup.
    pub show_detail: bool,
    /// Remember the review answers now listed in the review state.
    pub remember_verdicts: bool,
    /// Append the status text to the log.
    pub log_status: bool,
}

/// No outside work.
pub open spec fn quiet() -> MessageEffects {
    MessageEffects {
        keep_client: false,
        drop_client: false,
        scan_finished: false,
        scan_aborted: false,
        rebuild: false,
        reload_listing: false,
        refilter_listing: false,
        request_deltas: false,
        show_detail: false,
        remember_verdicts: false,
        log_status: false,
    }
}

fn quiet_exec() -> (e: MessageEffects)
    ensures
        e == quiet(),
{
    MessageEffects {
        keep_client: false,
        drop_client: false,
        scan_finished: false,
        scan_aborted: false,
        rebuild: false,
        reload_listing: false,
        refilter_listing: false,
        request_deltas: false,
        show_detail: false,
        remember_verdicts: false,
        log_status: false,
    }
}

/// The status line a text sets: an error or a notice, shown `secs` seconds.
pub open spec fn status_is(s: Option<StatusLine>, text: Seq<char>, is_error: bool, secs: u64) -> bool {
    s matches Some(l) && l.text@ == text && l.is_error == is_error && l.secs == secs
}

/// Position of the first cached scan whose key names `path` (the number of
/// entries when none does).
pub open spec fn key_index(cache: Seq<(String, Snapshot)>, path: Seq<char>) -> int
    decreases cache.len(),
{
    if cache.len() == 0 {
        0
    } else if same_path(cache[0].0@, path) {
        0
    } else {
        1 + key_index(cache.drop_first(), path)
    }
}

/// `new` is the cache after storing `snap` under `path`: the scan of the
/// first key naming the same path is replaced (the key stays), else the
/// scan is added last under `path`.
pub open spec fn cache_put(old: Seq<(String, Snapshot)>, new: Seq<(String, Snapshot)>, path: Seq<char>, snap: Snapshot) -> bool {
    let k = key_index(old, path);
    if k < old.len() {
        new == old.update(k, (old[k].0, snap))
    } else {
        &&& new.len() == old.len() + 1
        &&& new.drop_last() == old
        &&& new.last().0@ == path
        &&& new.last().1 == snap
    }
}

proof fn lemma_key_index(cache: Seq<(String, Snapshot)>, path: Seq<char>, i: int)
    requires
        0 <= i <= cache.len(),
        forall|j: int| 0 <= j < i ==> !same_path(#[trigger] cache[j].0@, path),
    ensures
        i < cache.len() && same_path(cache[i].0@, path) ==> key_index(cache, path) == i,
        i == cache.len() ==> key_index(cache, path) == cache.len(),
        0 <= key_index(cache, path) <= cache.len(),
    decreases cache.len(),
{
    if cache.len() > 0 {
        if i > 0 {
            assert(!same_path(cache[0].0@, path));
            assert forall|j: int| 0 <= j < i - 1 implies !same_path(#[trigger] cache.drop_first()[j].0@, path) by {
                assert(cache.drop_first()[j] == cache[j + 1]);
            }
            lemma_key_index(cache.drop_first(), path, i - 1);
        } else {
            lemma_key_index(cache.drop_first(), path, 0);
        }
    }
}

/// Stores a finished scan in the cache under its root path.
fn cache_insert(cache: &mut Vec<(String, Snapshot)>, path: String, snap: Snapshot)
    ensures
        cache_put(old(cache)@, final(cache)@, path@, snap),
{
    let mut i: usize = 0;
    while i < cache.len()
        invariant
            i <= cache@.len(),
            cache@ == old(cache)@,
            forall|j: int| 0 <= j < i ==> !same_path(#[trigger] cache@[j].0@, path@),
        decreases cache@.len() - i,
    {
        if crate::review_keys::path_is(cache[i].0.as_str(), path.as_str()) {
            proof {
                lemma_key_index(cache@, path@, i as int);
            }
            let ghost before = cache@;
            let (key, _) = cache.remove(i);
            cache.insert(i, (key, snap));
            proof {
                assert(cache@ =~= before.update(i as int, (before[i as int].0, snap)));
            }
            return;
        }
        i = i + 1;
    }
    proof {
        lemma_key_index(cache@, path@, i as int);
    }
    let ghost before = cache@;
    cache.push((path, snap));
    proof {
        assert(cache@.drop_last() =~= before);
    }
}

/// `a` comes strictly before `b` in code-point order.
fn path_lt(a: &String, b: &String) -> (r: bool)
    ensures
        r == lex_lt(a@, b@),
{
    let ca = crate::text::chars_of(a.as_str());
    let cb = crate::text::chars_of(b.as_str());
    crate::browse::chars_lt(ca.as_slice(), cb.as_slice())
}

/// `perm` orders `vs` by path, entries with the same path keeping their
/// order: it lists each index once.
pub open spec fn stable_by_path(vs: Seq<AiPathVerdict>, perm: Seq<int>) -> bool {
    &&& perm.len() == vs.len()
    &&& forall|i: int| 0 <= i < perm.len() ==> 0 <= #[trigger] perm[i] < vs.len()
    &&& forall|i: int, j: int| 0 <= i < j < perm.len() ==> #[trigger] perm[i] != #[trigger] perm[j]
    &&& forall|i: int, j: int|
        0 <= i < j < perm.len() ==> !lex_lt(vs[#[trigger] perm[j]].path@, vs[#[trigger] perm[i]].path@)
    &&& forall|i: int, j: int|
        0 <= i < j < perm.len() && vs[perm[i]].path@ == vs[perm[j]].path@ ==> #[trigger] perm[i] < #[trigger] perm[j]
}

/// The verdicts in the order `perm` gives.
pub open spec fn verdicts_arranged(vs: Seq<AiPathVerdict>, perm: Seq<int>) -> Seq<AiPathVerdict> {
    Seq::new(perm.len(), |i: int| vs[perm[i]])
}

/// `r` holds the verdicts `vs` sorted by path, those with the same path
/// in their order.
pub open spec fn sorted_by_path(vs: Seq<AiPathVerdict>, r: Seq<AiPathVerdict>) -> bool {
    exists|perm: Seq<int>| #![trigger verdicts_arranged(vs, perm)] stable_by_path(vs, perm) && r == verdicts_arranged(vs, perm)
}

/// Sorts review verdicts by path; verdicts on the same path keep their order.
#[verifier::spinoff_prover]
#[verifier::rlimit(50)]
pub fn sort_verdicts_by_path(vs: Vec<AiPathVerdict>) -> (r: Vec<AiPathVerdict>)
    ensures
        sorted_by_path(vs@, r@),
{
    let ghost orig = vs@;
    let mut rest = vs;
    let mut out: Vec<AiPathVerdict> = Vec::new();
    let ghost mut perm: Seq<int> = Seq::empty();
    let ghost mut k: int = 0;
    proof {
        assert(orig.subrange(0, orig.len() as int) =~= orig);
    }
    while rest.len() > 0
        invariant
            0 <= k <= orig.len(),
            rest@ == orig.subrange(k, orig.len() as int),
            perm.len() == k,
            out@ == verdicts_arranged(orig, perm),
            forall|i: int| 0 <= i < perm.len() ==> 0 <= #[trigger] perm[i] < k,
            forall|i: int, j: int| 0 <= i < j < perm.len() ==> #[trigger] perm[i] != #[trigger] perm[j],
            forall|i: int, j: int|
                0 <= i < j < perm.len() ==> !lex_lt(orig[#[trigger] perm[j]].path@, orig[#[trigger] perm[i]].path@),
            forall|i: int, j: int|
                0 <= i < j < perm.len() && orig[perm[i]].path@ == orig[perm[j]].path@ ==> #[trigger] perm[i]
                    < #[trigger] perm[j],
        decreases rest@.len(),
    {
        proof {
            assert(rest@.remove(0) =~= orig.subrange(k + 1, orig.len() as int));
        }
        let e = rest.remove(0);
        proof {
            assert(e == orig[k]);
        }
        // Place it after every verdict whose path is not after its own.
        let mut p: usize = out.len();
        while p > 0 && path_lt(&e.path, &out[p - 1].path)
            invariant
                p <= out@.len(),
                forall|i: int| p <= i < out@.len() ==> lex_lt(e.path@, (#[trigger] out@[i]).path@),
            decreases p,
        {
            p = p - 1;
        }
        let ghost before = out@;
        let ghost pb = perm;
        out.insert(p, e);
        proof {
            perm = pb.insert(p as int, k);
            assert forall|i: int| 0 <= i < perm.len() implies 0 <= #[trigger] perm[i] < k + 1 by {
                if i < p {
                    assert(perm[i] == pb[i]);
                } else if i > p {
                    assert(perm[i] == pb[i - 1]);
                }
            }
            assert(out@ =~= verdicts_arranged(orig, perm)) by {
                assert forall|i: int| 0 <= i < perm.len() implies out@[i] == orig[perm[i]] by {
                    if i < p {
                        assert(perm[i] == pb[i] && out@[i] == before[i]);
                    } else if i > p {
                        assert(perm[i] == pb[i - 1] && out@[i] == before[i - 1]);
                    }
                }
            }
            assert forall|i: int, j: int| 0 <= i < j < perm.len() implies #[trigger] perm[i] != #[trigger] perm[j] by {
                if i < p && j > p {
                    assert(perm[i] == pb[i] && perm[j] == pb[j - 1]);
                } else if i > p {
                    assert(perm[i] == pb[i - 1] && perm[j] == pb[j - 1]);
                } else if j < p {
                    assert(perm[i] == pb[i] && perm[j] == pb[j]);
                } else if i == p {
                    assert(perm[j] == pb[j - 1]);
                } else {
                    assert(perm[i] == pb[i]);
                }
            }
            assert forall|i: int, j: int| 0 <= i < j < perm.len() implies !lex_lt(
                orig[#[trigger] perm[j]].path@,
                orig[#[trigger] perm[i]].path@,
            ) by {
                assert(out@[i] == orig[perm[i]] && out@[j] == orig[perm[j]]);
                if i < p && j > p {
                    assert(perm[i] == pb[i] && perm[j] == pb[j - 1]);
                    assert(out@[i] == before[i] && out@[j] == before[j - 1]);
                    if p > 0 {
                        // before[p - 1] is not after e, before[i] not after before[p - 1]
                        lemma_lex_total(e.path@, before[p - 1].path@);
                        if i < p - 1 {
                            assert(pb[i] != pb[p - 1]);
                            lemma_lex_total(before[i].path@, before[p - 1].path@);
                            lemma_lex_total(before[i].path@, e.path@);
                            if lex_lt(e.path@, before[i].path@) {
                                lemma_lex_trans(e.path@, before[i].path@, before[p - 1].path@);
                            }
                        }
                    }
                    lemma_lex_total(e.path@, before[j - 1].path@);
                    lemma_lex_total(before[i].path@, e.path@);
                    if lex_lt(before[j - 1].path@, before[i].path@) {
                        lemma_lex_trans(e.path@, before[j - 1].path@, before[i].path@);
                    }
                } else if i > p {
                    assert(perm[i] == pb[i - 1] && perm[j] == pb[j - 1]);
                } else if j < p {
                    assert(perm[i] == pb[i] && perm[j] == pb[j]);
                } else if i == p {
                    assert(perm[j] == pb[j - 1]);
                    assert(out@[j] == before[j - 1]);
                    lemma_lex_total(e.path@, before[j - 1].path@);
                } else {
                    assert(perm[i] == pb[i] && out@[i] == before[i]);
                    if p > 0 {
                        lemma_lex_total(e.path@, before[p - 1].path@);
                        if i < p - 1 {
                            assert(pb[i] != pb[p - 1]);
                            lemma_lex_total(before[i].path@, before[p - 1].path@);
                            lemma_lex_total(before[i].path@, e.path@);
                            if lex_lt(e.path@, before[i].path@) {
                                lemma_lex_trans(e.path@, before[i].path@, before[p - 1].path@);
                            }
                        }
                    }
                }
            }
            assert forall|i: int, j: int|
                0 <= i < j < perm.len() && orig[perm[i]].path@ == orig[perm[j]].path@ implies #[trigger] perm[i]
                < #[trigger] perm[j] by {
                assert(out@[i] == orig[perm[i]] && out@[j] == orig[perm[j]]);
                if i < p && j > p {
                    assert(perm[i] == pb[i] && perm[j] == pb[j - 1]);
                } else if i > p {
                    assert(perm[i] == pb[i - 1] && perm[j] == pb[j - 1]);
                } else if j < p {
                    assert(perm[i] == pb[i] && perm[j] == pb[j]);
                } else if i == p {
                    assert(perm[j] == pb[j - 1]);
                    assert(out@[j] == before[j - 1]);
                    lemma_lex_total(e.path@, before[j - 1].path@);
                } else {
                    assert(perm[i] == pb[i]);
                }
            }
            k = k + 1;
        }
    }
    proof {
        assert(k == orig.len());
    }
    out
}

/// The window resets to the first preset ending at the clock's reading.
pub open spec fn window_reset(w: TimeWindow) -> bool {
    &&& !w.custom
    &&& w.custom_label@.len() == 0
    &&& w.preset == 0
    &&& w.from == if crate::browser_state::preset_span(0) <= w.to {
        (w.to - crate::browser_state::preset_span(0)) as u64
    } else {
        0
    }
}

/// The status after deleting `deleted` items with `errors`: how many
/// failed and why (an error), or how many were deleted.
pub open spec fn deletion_text(errors: Seq<String>, deleted: nat) -> (Seq<char>, bool) {
    if errors.len() > 0 {
        (decimal(errors.len()) + " delete(s) failed: "@ + joined_with(errors.map_values(|e: String| e@), "; "@), true)
    } else {
        ("deleted "@ + decimal(deleted) + " item(s)"@, false)
    }
}

/// `a + b`, or the largest `u64` when the sum does not fit.
pub open spec fn saturated(a: u64, b: u64) -> u64 {
    if a + b <= u64::MAX {
        (a + b) as u64
    } else {
        u64::MAX
    }
}

/// What deleting `paths` in turn does to the cached scans and the shown
/// tree (see `apply_deletions`), freeing `freed` bytes.
pub open spec fn tree_after_deletions(o: TreeState, n: TreeState, paths: Seq<String>, freed: u64) -> bool {
    &&& cache_wf(n.scan_cache@)
    &&& n.tree_root matches Some(t) ==> t.0.wf() && t.0.ordered()
    &&& n.tree_root is Some == o.tree_root is Some
    &&& n.view_root_path == o.view_root_path
    &&& exists|caches: Seq<Seq<(String, Snapshot)>>|
        #![trigger freed_sum(caches, o.view_root_path@, paths, paths.len() as int)]
        deletion_chain(caches, o.scan_cache@, n.scan_cache@, o.view_root_path@, paths) && freed == freed_sum(
            caches,
            o.view_root_path@,
            paths,
            paths.len() as int,
        )
    &&& exists|roots: Seq<Option<(Snapshot, NodeIndex)>>|
        #![trigger tree_chain(roots, o.tree_root, n.tree_root, o.view_root_path@, paths)]
        tree_chain(roots, o.tree_root, n.tree_root, o.view_root_path@, paths)
    &&& paths.len() == 1 ==> freed == freed_total(o.scan_cache@, o.view_root_path@, paths[0]@)
}

/// A finished scan of `snap`: the scan state ends and its totals are kept,
/// the scan is cached under its root path, and when it covers the browsed
/// root or the shown directory the tree is built again (a scanned
/// directory other than the root becomes the browsed root; after a rescan
/// of the root a directory below it stays shown).
pub open spec fn scan_completed(o: AppState, n: AppState, snap: Snapshot, e: MessageEffects) -> bool {
    let root = snap.root_path@;
    let view = o.tree.view_root_path@;
    let same = same_path(root, view);
    let rebuild = same || same_path(root, shown_path(view, names_view(o.current_dir_path@)));
    &&& n == (AppState {
        tree: n.tree,
        current_dir_path: n.current_dir_path,
        scanning: false,
        scan_current_path: None,
        scan_progress: None,
        last_scan: n.last_scan,
        ..o
    })
    &&& n.last_scan matches Some(t) && t.root_path@ == root && t.total_size == snap.total_size
        && t.total_disk_usage == snap.total_disk_usage && t.total_files == snap.total_files
    &&& cache_put(o.tree.scan_cache@, n.tree.scan_cache@, root, snap)
    &&& n.tree.tree_root == o.tree.tree_root
    &&& if rebuild && !same {
        n.tree.view_root_path@ == root
    } else {
        n.tree.view_root_path == o.tree.view_root_path
    }
    &&& if !rebuild {
        n.current_dir_path == o.current_dir_path
    } else if same && o.current_dir_path@.len() > 1 {
        names_view(n.current_dir_path@) == names_view(o.current_dir_path@)
    } else {
        n.current_dir_path@.len() == 0
    }
    &&& e == (MessageEffects {
        scan_finished: true,
        rebuild,
        reload_listing: rebuild,
        request_deltas: rebuild && o.server_mode,
        ..quiet()
    })
}

/// A finished deletion: back to browsing with multi-select left, the
/// deleted paths taken out of the scans, the freed bytes counted, and the
/// outcome reported (failures as an error, for five seconds; otherwise
/// for three).
pub open spec fn deletion_finished(o: AppState, n: AppState, errors: Seq<String>, paths: Seq<String>, e: MessageEffects) -> bool {
    let (text, failed) = deletion_text(errors, paths.len());
    &&& n == (AppState {
        tree: n.tree,
        browse: n.browse,
        deleting: false,
        delete_progress: None,
        deleted_bytes: n.deleted_bytes,
        status: n.status,
        ..o
    })
    &&& exists|freed: u64| #[trigger] tree_after_deletions(o.tree, n.tree, paths, freed)
        && n.deleted_bytes == saturated(o.deleted_bytes, freed)
    &&& n.browse == (BrowseState {
        mode: crate::ui::AppMode::Browsing,
        multi_select: false,
        selected_paths: n.browse.selected_paths,
        ..o.browse
    })
    &&& n.browse.selected_paths@.len() == 0
    &&& status_is(n.status, text, failed, if failed { 5 } else { 3 })
    &&& e == (MessageEffects { reload_listing: true, log_status: failed, ..quiet() })
}

/// The cleanup popup after its scan found `items` holding `total` (see
/// `CleanupState::scan_complete`).
pub open spec fn cleanup_scanned(c: CleanupState, d: CleanupState, items: Seq<CleanItem>, total: u64) -> bool {
    &&& d.items@.to_multiset() == items.to_multiset()
    &&& crate::cleanup_view::items_by_size(d.items@)
    &&& crate::cleanup_view::items_sorted_stably(items, d.items@)
    &&& d.selected@ == c.selected@.union(crate::cleanup_view::large_items(d.items@))
    &&& d == (CleanupState { scanning: false, items: d.items, total_bytes: total, selected: d.selected, ..c })
}

/// Progress of the running scan.
pub open spec fn scan_progressed(o: AppState, n: AppState, file_count: u64, total_bytes: u64, current_path: Option<String>, e: MessageEffects) -> bool {
    &&& n == (AppState { scan_progress: Some((file_count, total_bytes)), scan_current_path: current_path, ..o })
    &&& e == quiet()
}

/// The scan failed: it ends and the error shows for five seconds.
pub open spec fn scan_failed(o: AppState, n: AppState, m: String, e: MessageEffects) -> bool {
    &&& n == (AppState { scanning: false, scan_current_path: None, status: n.status, ..o })
    &&& status_is(n.status, m@, true, 5)
    &&& e == (MessageEffects { scan_aborted: true, log_status: true, ..quiet() })
}

/// A daemon connected: server mode, the default window, a notice, and a
/// request for change data.
pub open spec fn daemon_joined(o: AppState, n: AppState, e: MessageEffects) -> bool {
    &&& n == (AppState { server_mode: true, server_connected: true, window: n.window, status: n.status, ..o })
    &&& window_reset(n.window)
    &&& status_is(n.status, "connected to daemon"@, false, 2)
    &&& e == (MessageEffects { keep_client: true, request_deltas: true, ..quiet() })
}

/// The daemon went away: no server mode, no change data, no change
/// filter, and an error for four seconds.
pub open spec fn daemon_left(o: AppState, n: AppState, e: MessageEffects) -> bool {
    &&& n == (AppState {
        server_mode: false,
        server_connected: false,
        delta_cache: n.delta_cache,
        delta_filter_active: false,
        status: n.status,
        ..o
    })
    &&& n.delta_cache@.len() == 0
    &&& status_is(n.status, "daemon disconnected"@, true, 4)
    &&& e == (MessageEffects { drop_client: true, refilter_listing: true, log_status: true, ..quiet() })
}

/// Change data arrived: it replaces the old and the listing is reloaded.
pub open spec fn deltas_arrived(o: AppState, n: AppState, deltas: Vec<(Vec<String>, i64)>, client_returned: bool, e: MessageEffects) -> bool {
    &&& n == (AppState { delta_pending: false, delta_cache: deltas, ..o })
    &&& e == (MessageEffects { keep_client: client_returned, reload_listing: true, ..quiet() })
}

/// A message shows for four seconds (as an error, as the application
/// does).
pub open spec fn info_shown(o: AppState, n: AppState, m: String, e: MessageEffects) -> bool {
    &&& n == (AppState { status: n.status, ..o })
    &&& status_is(n.status, m@, true, 4)
    &&& e == (MessageEffects { log_status: true, ..quiet() })
}

/// Review answers arrived: when the review is open they are listed by
/// path, nothing is pending any more and the review is ready; the listing
/// is reloaded either way.
pub open spec fn verdicts_arrived(o: AppState, n: AppState, results: Vec<AiPathVerdict>, e: MessageEffects) -> bool {
    match o.ai {
        Some(a) => {
            &&& n == (AppState { ai: n.ai, ..o })
            &&& n.ai matches Some(b) && b == (AiReviewState {
                results: b.results,
                pending_paths: b.pending_paths,
                status: AiStatus::Ready,
                ..a
            }) && b.pending_paths@.len() == 0 && sorted_by_path(results@, b.results@)
            &&& e == (MessageEffects { remember_verdicts: true, reload_listing: true, ..quiet() })
        },
        None => n == o && e == (MessageEffects { reload_listing: true, ..quiet() }),
    }
}

/// The review failed: an error for ten seconds, and an open review shows
/// no answers and the failure.
pub open spec fn verdicts_failed(o: AppState, n: AppState, m: String, e: MessageEffects) -> bool {
    &&& n == (AppState { ai: n.ai, status: n.status, ..o })
    &&& status_is(n.status, "AI analysis error: "@ + m@, true, 10)
    &&& match o.ai {
        Some(a) => n.ai matches Some(b) && b == (AiReviewState { results: b.results, status: AiStatus::Error(m), ..a })
            && b.results@.len() == 0,
        None => n.ai is None,
    }
    &&& e == (MessageEffects { log_status: true, ..quiet() })
}

/// The cleanup scan ended: no scan runs, and an open cleanup popup takes
/// the items.
pub open spec fn cleanup_scan_done(o: AppState, n: AppState, items: Vec<CleanItem>, total_bytes: u64, e: MessageEffects) -> bool {
    &&& n == (AppState { scanning: false, cleanup: n.cleanup, ..o })
    &&& match o.cleanup {
        Some(c) => n.cleanup matches Some(d) && cleanup_scanned(c, d, items@, total_bytes),
        None => n.cleanup is None,
    }
    &&& e == quiet()
}

/// The cleanup popup, when open, changed by `c2`; nothing else changes.
pub open spec fn cleanup_changed(o: AppState, n: AppState, c2: spec_fn(CleanupState) -> CleanupState, e: MessageEffects) -> bool {
    &&& n == (AppState {
        cleanup: match o.cleanup {
            Some(c) => Some(c2(c)),
            None => None,
        },
        ..o
    })
    &&& e == quiet()
}

/// The uninstall popup, when open, changed by `u2`; nothing else changes.
pub open spec fn uninstall_changed(o: AppState, n: AppState, u2: spec_fn(UninstallState) -> UninstallState, e: MessageEffects) -> bool {
    &&& n == (AppState {
        uninstall: match o.uninstall {
            Some(u) => Some(u2(u)),
            None => None,
        },
        ..o
    })
    &&& e == quiet()
}

/// The installed applications were listed: no scan runs, and an open
/// uninstall popup shows them all.
pub open spec fn apps_listed(o: AppState, n: AppState, apps: Vec<AppInfo>, e: MessageEffects) -> bool {
    &&& n == (AppState { scanning: false, uninstall: n.uninstall, ..o })
    &&& match o.uninstall {
        Some(u) => n.uninstall matches Some(v) && v == (UninstallState { scanning: false, apps, filtered: v.filtered, ..u })
            && v.filtered@ == Seq::new(apps@.len(), |i: int| i as usize),
        None => n.uninstall is None,
    }
    &&& e == quiet()
}

/// The leftovers of the chosen application were found: an open uninstall
/// popup shows them, all selected.
pub open spec fn leftovers_found(o: AppState, n: AppState, l: AppLeftovers, e: MessageEffects) -> bool {
    &&& n == (AppState { uninstall: n.uninstall, ..o })
    &&& match o.uninstall {
        Some(u) => n.uninstall matches Some(v) && v == (UninstallState {
            scanning: false,
            leftovers: Some(l),
            selected_leftovers: v.selected_leftovers,
            ..u
        }) && v.selected_leftovers@ == Set::new(|i: usize| (i as int) < l.leftover_paths@.len()),
        None => n.uninstall is None,
    }
    &&& e == quiet()
}

/// What a message does to the state and which outside work follows.
pub open spec fn message_step(o: AppState, n: AppState, msg: AppMessage, e: MessageEffects) -> bool {
    match msg {
        AppMessage::ScanProgress { file_count, total_bytes, current_path } => scan_progressed(
            o,
            n,
            file_count,
            total_bytes,
            current_path,
            e,
        ),
        AppMessage::ScanComplete(snap) => scan_completed(o, n, snap, e),
        AppMessage::Error(m) => scan_failed(o, n, m, e),
        AppMessage::DaemonConnected => daemon_joined(o, n, e),
        AppMessage::DaemonDisconnected => daemon_left(o, n, e),
        AppMessage::DeltaData { deltas, client_returned } => deltas_arrived(o, n, deltas, client_returned, e),
        AppMessage::DeltaDetailLoaded => n == o && e == (MessageEffects { show_detail: true, ..quiet() }),
        AppMessage::Info(m) => info_shown(o, n, m, e),
        AppMessage::DeleteProgress { current, total } => n == (AppState { delete_progress: Some((current, total)), ..o })
            && e == quiet(),
        AppMessage::DeleteComplete { errors, paths } => deletion_finished(o, n, errors@, paths@, e),
        AppMessage::AiAnalysisComplete(results) => verdicts_arrived(o, n, results, e),
        AppMessage::AiAnalysisError(m) => verdicts_failed(o, n, m, e),
        AppMessage::CleanupScanComplete { items, total_bytes } => cleanup_scan_done(o, n, items, total_bytes, e),
        AppMessage::CleanupExecComplete(r) => cleanup_changed(
            o,
            n,
            |c: CleanupState| CleanupState { confirm_pending: false, report: Some(r), ..c },
            e,
        ),
        AppMessage::CleanupScanProgress(path) => cleanup_changed(
            o,
            n,
            |c: CleanupState| CleanupState { scan_current_path: Some(path), ..c },
            e,
        ),
        AppMessage::CleanupDetailReady(details) => cleanup_changed(
            o,
            n,
            |c: CleanupState| CleanupState { detail_items: Some(details), ..c },
            e,
        ),
        AppMessage::AppListReady(apps) => apps_listed(o, n, apps, e),
        AppMessage::UninstallScanProgress(path) => uninstall_changed(
            o,
            n,
            |u: UninstallState| UninstallState { scan_current_path: Some(path), ..u },
            e,
        ),
        AppMessage::UninstallLeftoversReady(l) => leftovers_found(o, n, l, e),
        AppMessage::UninstallComplete(r) => uninstall_changed(
            o,
            n,
            |u: UninstallState| UninstallState { confirm_pending: false, report: Some(r), ..u },
            e,
        ),
    }
}

/// A scan handed over in a message is well formed.
pub open spec fn message_wf(msg: AppMessage) -> bool {
    msg matches AppMessage::ScanComplete(s) ==> s.wf() && s.ordered()
}

fn status_line(text: String, is_error: bool, secs: u64) -> (s: Option<StatusLine>)
    ensures
        status_is(s, text@, is_error, secs),
{
    Some(StatusLine { text, is_error, secs })
}

/// Applies a message from background work to the state and says which
/// outside work follows.
pub fn handle_message(state: &mut AppState, msg: AppMessage) -> (e: MessageEffects)
    requires
        app_wf(*old(state)),
        message_wf(msg),
    ensures
        app_wf(*final(state)),
        message_step(*old(state), *final(state), msg, e),
{
    match msg {
        AppMessage::ScanProgress { file_count, total_bytes, current_path } => {
            state.scan_progress = Some((file_count, total_bytes));
            state.scan_current_path = current_path;
            quiet_exec()
        },
        AppMessage::ScanComplete(snap) => scan_complete(state, snap),
        AppMessage::Error(m) => scan_error(state, m),
        AppMessage::DaemonConnected => daemon_connected(state),
        AppMessage::DaemonDisconnected => daemon_disconnected(state),
        AppMessage::DeltaData { deltas, client_returned } => {
            state.delta_pending = false;
            state.delta_cache = deltas;
            MessageEffects { keep_client: client_returned, reload_listing: true, ..quiet_exec() }
        },
        AppMessage::DeltaDetailLoaded => MessageEffects { show_detail: true, ..quiet_exec() },
        AppMessage::Info(m) => {
            state.status = status_line(m, true, 4);
            MessageEffects { log_status: true, ..quiet_exec() }
        },
        AppMessage::DeleteProgress { current, total } => {
            state.delete_progress = Some((current, total));
            quiet_exec()
        },
        AppMessage::DeleteComplete { errors, paths } => deletion_complete(state, errors, paths),
        AppMessage::AiAnalysisComplete(results) => verdicts_ready(state, results),
        AppMessage::AiAnalysisError(m) => verdicts_error(state, m),
        AppMessage::CleanupScanComplete { items, total_bytes } => cleanup_scan_complete(state, items, total_bytes),
        AppMessage::CleanupExecComplete(r) => cleanup_exec_complete(state, r),
        AppMessage::CleanupScanProgress(path) => cleanup_scan_progress(state, path),
        AppMessage::CleanupDetailReady(details) => cleanup_detail_ready(state, details),
        AppMessage::AppListReady(apps) => app_list_ready(state, apps),
        AppMessage::UninstallScanProgress(path) => uninstall_scan_progress(state, path),
        AppMessage::UninstallLeftoversReady(l) => uninstall_leftovers_ready(state, l),
        AppMessage::UninstallComplete(r) => uninstall_complete(state, r),
    }
}

fn scan_error(state: &mut AppState, m: String) -> (e: MessageEffects)
    ensures
        scan_failed(*old(state), *final(state), m, e),
{
    state.scanning = false;
    state.scan_current_path = None;
    state.status = status_line(m, true, 5);
    MessageEffects { scan_aborted: true, log_status: true, ..quiet_exec() }
}

fn daemon_connected(state: &mut AppState) -> (e: MessageEffects)
    ensures
        daemon_joined(*old(state), *final(state), e),
{
    state.server_mode = true;
    state.server_connected = true;
    state.window.default_time_range();
    state.status = status_line(crate::text::string_from("connected to daemon"), false, 2);
    MessageEffects { keep_client: true, request_deltas: true, ..quiet_exec() }
}

fn daemon_disconnected(state: &mut AppState) -> (e: MessageEffects)
    ensures
        daemon_left(*old(state), *final(state), e),
{
    state.server_connected = false;
    state.server_mode = false;
    state.delta_cache = Vec::new();
    state.delta_filter_active = false;
    state.status = status_line(crate::text::string_from("daemon disconnected"), true, 4);
    MessageEffects { drop_client: true, refilter_listing: true, log_status: true, ..quiet_exec() }
}

fn verdicts_ready(state: &mut AppState, results: Vec<AiPathVerdict>) -> (e: MessageEffects)
    ensures
        verdicts_arrived(*old(state), *final(state), results, e),
{
    let mut slot: Option<AiReviewState> = None;
    std::mem::swap(&mut slot, &mut state.ai);
    match slot {
        Some(mut a) => {
            a.pending_paths = Vec::new();
            a.results = sort_verdicts_by_path(results);
            a.status = AiStatus::Ready;
            state.ai = Some(a);
            MessageEffects { remember_verdicts: true, reload_listing: true, ..quiet_exec() }
        },
        None => MessageEffects { reload_listing: true, ..quiet_exec() },
    }
}

fn verdicts_error(state: &mut AppState, m: String) -> (e: MessageEffects)
    ensures
        verdicts_failed(*old(state), *final(state), m, e),
{
    let mut t = crate::text::string_from("AI analysis error: ");
    crate::text::push_str(&mut t, m.as_str());
    state.status = status_line(t, true, 10);
    let mut slot: Option<AiReviewState> = None;
    std::mem::swap(&mut slot, &mut state.ai);
    if let Some(mut a) = slot {
        a.results = Vec::new();
        a.status = AiStatus::Error(m);
        state.ai = Some(a);
    }
    MessageEffects { log_status: true, ..quiet_exec() }
}

fn cleanup_scan_complete(state: &mut AppState, items: Vec<CleanItem>, total_bytes: u64) -> (e: MessageEffects)
    ensures
        cleanup_scan_done(*old(state), *final(state), items, total_bytes, e),
{
    state.scanning = false;
    let mut slot: Option<CleanupState> = None;
    std::mem::swap(&mut slot, &mut state.cleanup);
    if let Some(mut c) = slot {
        c.scan_complete(items, total_bytes);
        state.cleanup = Some(c);
    }
    quiet_exec()
}

fn cleanup_exec_complete(state: &mut AppState, r: CleanReport) -> (e: MessageEffects)
    ensures
        cleanup_changed(
            *old(state),
            *final(state),
            |c: CleanupState| CleanupState { confirm_pending: false, report: Some(r), ..c },
            e,
        ),
{
    let mut slot: Option<CleanupState> = None;
    std::mem::swap(&mut slot, &mut state.cleanup);
    if let Some(mut c) = slot {
        c.exec_complete(r);
        state.cleanup = Some(c);
    }
    quiet_exec()
}

fn cleanup_scan_progress(state: &mut AppState, path: String) -> (e: MessageEffects)
    ensures
        cleanup_changed(*old(state), *final(state), |c: CleanupState| CleanupState { scan_current_path: Some(path), ..c }, e),
{
    let mut slot: Option<CleanupState> = None;
    std::mem::swap(&mut slot, &mut state.cleanup);
    if let Some(mut c) = slot {
        c.scan_current_path = Some(path);
        state.cleanup = Some(c);
    }
    quiet_exec()
}

fn cleanup_detail_ready(state: &mut AppState, details: Vec<(String, u64)>) -> (e: MessageEffects)
    ensures
        cleanup_changed(*old(state), *final(state), |c: CleanupState| CleanupState { detail_items: Some(details), ..c }, e),
{
    let mut slot: Option<CleanupState> = None;
    std::mem::swap(&mut slot, &mut state.cleanup);
    if let Some(mut c) = slot {
        c.detail_items = Some(details);
        state.cleanup = Some(c);
    }
    quiet_exec()
}

fn app_list_ready(state: &mut AppState, apps: Vec<AppInfo>) -> (e: MessageEffects)
    ensures
        apps_listed(*old(state), *final(state), apps, e),
{
    state.scanning = false;
    let mut slot: Option<UninstallState> = None;
    std::mem::swap(&mut slot, &mut state.uninstall);
    if let Some(mut u) = slot {
        u.apps_ready(apps);
        state.uninstall = Some(u);
    }
    quiet_exec()
}

fn uninstall_scan_progress(state: &mut AppState, path: String) -> (e: MessageEffects)
    ensures
        uninstall_changed(*old(state), *final(state), |u: UninstallState| UninstallState { scan_current_path: Some(path), ..u }, e),
{
    let mut slot: Option<UninstallState> = None;
    std::mem::swap(&mut slot, &mut state.uninstall);
    if let Some(mut u) = slot {
        u.scan_current_path = Some(path);
        state.uninstall = Some(u);
    }
    quiet_exec()
}

fn uninstall_leftovers_ready(state: &mut AppState, l: AppLeftovers) -> (e: MessageEffects)
    ensures
        leftovers_found(*old(state), *final(state), l, e),
{
    let mut slot: Option<UninstallState> = None;
    std::mem::swap(&mut slot, &mut state.uninstall);
    if let Some(mut u) = slot {
        u.leftovers_ready(l);
        state.uninstall = Some(u);
    }
    quiet_exec()
}

fn uninstall_complete(state: &mut AppState, r: CleanReport) -> (e: MessageEffects)
    ensures
        uninstall_changed(
            *old(state),
            *final(state),
            |u: UninstallState| UninstallState { confirm_pending: false, report: Some(r), ..u },
            e,
        ),
{
    let mut slot: Option<UninstallState> = None;
    std::mem::swap(&mut slot, &mut state.uninstall);
    if let Some(mut u) = slot {
        u.uninstall_complete(r);
        state.uninstall = Some(u);
    }
    quiet_exec()
}

/// The finished-scan step of `handle_message`.
fn scan_complete(state: &mut AppState, snap: Snapshot) -> (e: MessageEffects)
    requires
        app_wf(*old(state)),
        snap.wf() && snap.ordered(),
    ensures
        app_wf(*final(state)),
        scan_completed(*old(state), *final(state), snap, e),
{
    let ghost o = *state;
    state.scanning = false;
    state.scan_current_path = None;
    state.scan_progress = None;
    state.last_scan = Some(
        ScanTotals {
            root_path: crate::text::string_from(snap.root_path.as_str()),
            total_size: snap.total_size,
            total_disk_usage: snap.total_disk_usage,
            total_files: snap.total_files,
        },
    );
    let plan = crate::flat::scan_complete_plan(
        snap.root_path.as_str(),
        state.tree.view_root_path.as_str(),
        state.current_dir_path.as_slice(),
    );
    let key = crate::text::string_from(snap.root_path.as_str());
    let ghost cache0 = state.tree.scan_cache@;
    cache_insert(&mut state.tree.scan_cache, key, snap);
    proof {
        let k = key_index(cache0, snap.root_path@);
        lemma_key_index(cache0, snap.root_path@, 0);
        assert forall|i: int| 0 <= i < state.tree.scan_cache@.len() implies (#[trigger] state.tree.scan_cache@[i]).1.wf()
            && state.tree.scan_cache@[i].1.ordered() by {
            if k < cache0.len() {
                if i != k {
                    assert(state.tree.scan_cache@[i] == cache0[i]);
                }
            } else if i < cache0.len() {
                assert(state.tree.scan_cache@[i] == state.tree.scan_cache@.drop_last()[i]);
            }
        }
    }
    if plan.rebuild {
        match plan.new_view_root {
            Some(v) => {
                state.tree.view_root_path = v;
            },
            None => {},
        }
        match plan.restore {
            Some(d) => {
                state.current_dir_path = d;
            },
            None => {
                state.current_dir_path = Vec::new();
            },
        }
    }
    MessageEffects {
        scan_finished: true,
        rebuild: plan.rebuild,
        reload_listing: plan.rebuild,
        request_deltas: plan.rebuild && state.server_mode,
        ..quiet_exec()
    }
}

/// The finished-deletion step of `handle_message`.
fn deletion_complete(state: &mut AppState, errors: Vec<String>, paths: Vec<String>) -> (e: MessageEffects)
    requires
        app_wf(*old(state)),
    ensures
        app_wf(*final(state)),
        deletion_finished(*old(state), *final(state), errors@, paths@, e),
{
    state.deleting = false;
    state.delete_progress = None;
    let freed = apply_deletions(&mut state.tree, paths.as_slice());
    state.deleted_bytes = state.deleted_bytes.saturating_add(freed);
    state.browse.deletion_done();
    let (text, failed) = crate::summary::deletion_message(errors.as_slice(), paths.len());
    state.status = status_line(text, failed, if failed { 5 } else { 3 });
    proof {
        assert(tree_after_deletions(old(state).tree, state.tree, paths@, freed));
    }
    MessageEffects { reload_listing: true, log_status: failed, ..quiet_exec() }
}

} // verus!
