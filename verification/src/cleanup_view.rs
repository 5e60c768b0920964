//! The cleanup and uninstall popups: their state and what their keys do.
use crate::browse::lex_lt;
use crate::cleaning::{CleanItem, CleanReport};
use crate::search::unicode_lowercase;
use crate::text::contains_seq;
use crate::uninstall::{same_app, AppInfo, AppLeftovers};
use std::collections::HashSet;
use vstd::prelude::*;

verus! {

/// What the cleanup popup cleans.
#[derive(Debug, Clone, Copy, PartialEq, Eq, Structural)]
pub enum CleanupMode {
    Clean,
    Purge,
}

/// A key pressed in the cleanup or uninstall popup.
#[derive(Debug, Clone, Copy, PartialEq, Eq, Structural)]
pub enum PopupKey {
    Char(char),
    Up,
    Down,
    Enter,
    Esc,
    Tab,
    Backspace,
    Other,
}

/// The cleanup popup.
pub struct CleanupState {
    pub mode: CleanupMode,
    pub scanning: bool,
    pub scan_current_path: Option<String>,
    pub items: Vec<CleanItem>,
    pub total_bytes: u64,
    pub selected: HashSet<usize>,
    pub cursor: usize,
    pub scroll_offset: usize,
    pub dry_run: bool,
    pub confirm_pending: bool,
    pub report: Option<CleanReport>,
    pub detail_pending: bool,
    pub detail_items: Option<Vec<(String, u64)>>,
}

/// What the surrounding program does after a cleanup key.
#[derive(Debug)]
pub enum CleanupAction {
    Nothing,
    /// Clean these items (only pretending when `true`).
    Clean(Vec<CleanItem>, bool),
    /// List what is inside this path.
    Details(String),
    Exit,
}

/// The selected items, in order.
pub open spec fn selected_items(items: Seq<CleanItem>, sel: Set<usize>, n: int) -> Seq<CleanItem>
    decreases n,
{
    if n <= 0 {
        Seq::empty()
    } else {
        selected_items(items, sel, n - 1) + if sel.contains((n - 1) as usize) {
            seq![items[n - 1]]
        } else {
            Seq::<CleanItem>::empty()
        }
    }
}

/// The cursor one row down in a list of `len` rows (staying on the last).
pub open spec fn row_down(cursor: usize, len: usize) -> usize {
    let up = if cursor == usize::MAX {
        cursor
    } else {
        (cursor + 1) as usize
    };
    let last = if len == 0 {
        0
    } else {
        (len - 1) as usize
    };
    if up < last {
        up
    } else {
        last
    }
}

/// The cursor one row up (staying on the first).
pub open spec fn row_up(cursor: usize) -> usize {
    if cursor == 0 {
        0
    } else {
        (cursor - 1) as usize
    }
}

/// The last row of `len` rows (0 when there is none).
pub open spec fn last_row(len: usize) -> usize {
    if len == 0 {
        0
    } else {
        (len - 1) as usize
    }
}

fn row_down_exec(cursor: usize, len: usize) -> (r: usize)
    ensures
        r == row_down(cursor, len),
{
    let up = cursor.saturating_add(1);
    let last = len.saturating_sub(1);
    if up < last {
        up
    } else {
        last
    }
}

/// `s` with `x` added, or removed when it was there.
pub open spec fn toggled_in(s: Set<usize>, x: usize) -> Set<usize> {
    if s.contains(x) {
        s.remove(x)
    } else {
        s.insert(x)
    }
}

fn toggle_in(s: &mut HashSet<usize>, x: usize)
    ensures
        final(s)@ == toggled_in(old(s)@, x),
{
    broadcast use vstd::std_specs::hash::group_hash_axioms;

    if s.contains(&x) {
        s.remove(&x);
    } else {
        s.insert(x);
    }
}

/// The cleanup keys: while details are shown, Esc, 'q' and 'i' hide
/// them; while asked to confirm, 'y'/'Y' cleans the selected items and
/// 'n'/'N', Esc and 'q' do not; during the scan nothing counts. Else
/// j/Down and k/Up move (ending the dry run), "gg" and G jump, Space
/// selects, 'd' switches the dry run, 'i' asks for the details of the row
/// under the cursor, Enter asks to confirm (with a selection), Esc and
/// 'q' close the popup.
pub open spec fn cleanup_step(
    o: CleanupState,
    n: CleanupState,
    gg: bool,
    gg2: bool,
    key: PopupKey,
    r: CleanupAction,
) -> bool {
    let len = o.items@.len();
    if o.detail_pending {
        gg2 == gg && r is Nothing && n == if key == PopupKey::Esc || key == PopupKey::Char('q') || key
            == PopupKey::Char('i') {
            CleanupState { detail_pending: false, detail_items: None, ..o }
        } else {
            o
        }
    } else if o.confirm_pending {
        &&& gg2 == gg
        &&& if key == PopupKey::Char('y') || key == PopupKey::Char('Y') {
            &&& n == CleanupState { confirm_pending: false, ..o }
            &&& r matches CleanupAction::Clean(items, dry) && crate::cleaning::same_items(
                items@,
                selected_items(o.items@, o.selected@, len as int),
            ) && dry == o.dry_run
        } else if key == PopupKey::Char('n') || key == PopupKey::Char('N') || key == PopupKey::Esc || key
            == PopupKey::Char('q') {
            n == CleanupState { confirm_pending: false, ..o } && r is Nothing
        } else {
            n == o && r is Nothing
        }
    } else if o.scanning {
        gg2 == gg && n == o && r is Nothing
    } else if key == PopupKey::Char('j') || key == PopupKey::Down {
        gg2 == gg && r is Nothing && n == CleanupState { dry_run: false, cursor: row_down(o.cursor, len as usize), ..o }
    } else if key == PopupKey::Char('k') || key == PopupKey::Up {
        gg2 == gg && r is Nothing && n == CleanupState { dry_run: false, cursor: row_up(o.cursor), ..o }
    } else if key == PopupKey::Char('g') {
        gg2 == !gg && r is Nothing && n == if gg {
            CleanupState { cursor: 0, ..o }
        } else {
            o
        }
    } else if key == PopupKey::Char('G') {
        !gg2 && r is Nothing && n == CleanupState { cursor: last_row(len as usize), ..o }
    } else if key == PopupKey::Char(' ') {
        &&& gg2 == gg
        &&& r is Nothing
        &&& n == CleanupState { selected: n.selected, ..o }
        &&& n.selected@ == toggled_in(o.selected@, o.cursor)
    } else if key == PopupKey::Char('d') {
        gg2 == gg && r is Nothing && n == CleanupState { dry_run: !o.dry_run, ..o }
    } else if key == PopupKey::Char('i') {
        &&& gg2 == gg
        &&& if o.cursor < len {
            n == CleanupState { detail_pending: true, ..o } && (r matches CleanupAction::Details(p) && p@
                == o.items@[o.cursor as int].path@)
        } else {
            n == o && r is Nothing
        }
    } else if key == PopupKey::Enter {
        gg2 == gg && r is Nothing && n == CleanupState { confirm_pending: o.confirm_pending || o.selected@.len() > 0, ..o }
    } else if key == PopupKey::Esc || key == PopupKey::Char('q') {
        gg2 == gg && n == o && r is Exit
    } else {
        gg2 == gg && n == o && r is Nothing
    }
}

impl CleanupState {
    /// The popup while its scan runs.
    pub fn new(mode: CleanupMode) -> (s: CleanupState)
        ensures
            s.mode == mode,
            s.scanning,
            s.scan_current_path is None,
            s.items@.len() == 0,
            s.total_bytes == 0,
            s.selected@.len() == 0,
            s.cursor == 0 && s.scroll_offset == 0,
            !s.dry_run && !s.confirm_pending && !s.detail_pending,
            s.report is None && s.detail_items is None,
    {
        CleanupState {
            mode,
            scanning: true,
            scan_current_path: None,
            items: Vec::new(),
            total_bytes: 0,
            selected: HashSet::new(),
            cursor: 0,
            scroll_offset: 0,
            dry_run: false,
            confirm_pending: false,
            report: None,
            detail_pending: false,
            detail_items: None,
        }
    }

    fn chosen_items(&self) -> (v: Vec<CleanItem>)
        ensures
            crate::cleaning::same_items(v@, selected_items(self.items@, self.selected@, self.items@.len() as int)),
    {
        broadcast use vstd::std_specs::hash::group_hash_axioms;

        let mut v: Vec<CleanItem> = Vec::new();
        let mut i: usize = 0;
        while i < self.items.len()
            invariant
                i <= self.items@.len(),
                crate::cleaning::same_items(v@, selected_items(self.items@, self.selected@, i as int)),
            decreases self.items@.len() - i,
        {
            if self.selected.contains(&i) {
                v.push(crate::cleaning::clone_item(&self.items[i]));
            }
            i = i + 1;
        }
        v
    }

    /// Handles a key of the cleanup popup (see `cleanup_step`);
    /// `pending_gg` is whether a first 'g' was pressed.
    pub fn handle_cleanup_key(&mut self, key: PopupKey, pending_gg: &mut bool) -> (r: CleanupAction)
        ensures
            cleanup_step(*old(self), *final(self), *old(pending_gg), *final(pending_gg), key, r),
    {
        if self.detail_pending {
            if key == PopupKey::Esc || key == PopupKey::Char('q') || key == PopupKey::Char('i') {
                self.detail_pending = false;
                self.detail_items = None;
            }
            return CleanupAction::Nothing;
        }
        if self.confirm_pending {
            if key == PopupKey::Char('y') || key == PopupKey::Char('Y') {
                let items = self.chosen_items();
                self.confirm_pending = false;
                return CleanupAction::Clean(items, self.dry_run);
            }
            if key == PopupKey::Char('n') || key == PopupKey::Char('N') || key == PopupKey::Esc || key
                == PopupKey::Char('q') {
                self.confirm_pending = false;
            }
            return CleanupAction::Nothing;
        }
        if self.scanning {
            return CleanupAction::Nothing;
        }
        let len = self.items.len();
        if key == PopupKey::Char('j') || key == PopupKey::Down {
            self.dry_run = false;
            self.cursor = row_down_exec(self.cursor, len);
            CleanupAction::Nothing
        } else if key == PopupKey::Char('k') || key == PopupKey::Up {
            self.dry_run = false;
            self.cursor = self.cursor.saturating_sub(1);
            CleanupAction::Nothing
        } else if key == PopupKey::Char('g') {
            if *pending_gg {
                self.cursor = 0;
                *pending_gg = false;
            } else {
                *pending_gg = true;
            }
            CleanupAction::Nothing
        } else if key == PopupKey::Char('G') {
            self.cursor = len.saturating_sub(1);
            *pending_gg = false;
            CleanupAction::Nothing
        } else if key == PopupKey::Char(' ') {
            toggle_in(&mut self.selected, self.cursor);
            CleanupAction::Nothing
        } else if key == PopupKey::Char('d') {
            self.dry_run = !self.dry_run;
            CleanupAction::Nothing
        } else if key == PopupKey::Char('i') {
            if self.cursor < len {
                let p = self.items[self.cursor].path.clone();
                self.detail_pending = true;
                CleanupAction::Details(p)
            } else {
                CleanupAction::Nothing
            }
        } else if key == PopupKey::Enter {
            if self.selected.len() > 0 {
                self.confirm_pending = true;
            }
            CleanupAction::Nothing
        } else if key == PopupKey::Esc || key == PopupKey::Char('q') {
            CleanupAction::Exit
        } else {
            CleanupAction::Nothing
        }
    }
}

/// The step of the uninstall popup.
#[derive(Debug, Clone, Copy, PartialEq, Eq, Structural)]
pub enum UninstallPhase {
    SelectApp,
    Confirm,
}

/// The uninstall popup.
pub struct UninstallState {
    pub apps: Vec<AppInfo>,
    /// Indices of the applications shown, in order.
    pub filtered: Vec<usize>,
    pub search_word: String,
    pub filter_mode: bool,
    /// 0: by size, 1: by last use, 2: by name.
    pub sort_mode: u8,
    pub cursor: usize,
    pub phase: UninstallPhase,
    pub selected_app: Option<usize>,
    pub leftovers: Option<AppLeftovers>,
    pub selected_leftovers: HashSet<usize>,
    pub remove_leftovers: bool,
    pub scanning: bool,
    pub scan_current_path: Option<String>,
    pub confirm_pending: bool,
    pub report: Option<CleanReport>,
}

/// What the surrounding program does after an uninstall key.
#[derive(Debug)]
pub enum UninstallAction {
    Nothing,
    /// Uninstall this application (with its leftovers when `true`).
    Uninstall(AppInfo, bool),
    /// Look for the leftovers of this application.
    FindLeftovers(AppInfo),
    Exit,
}

/// The shown applications name existing ones; the sort mode is one of
/// the three.
pub open spec fn uninstall_wf(s: UninstallState) -> bool {
    &&& forall|i: int| 0 <= i < s.filtered@.len() ==> #[trigger] s.filtered@[i] < s.apps@.len()
    &&& s.sort_mode < 3
}

/// Indices of the applications among the first `n` whose lower-case
/// name holds the lower-case word, in order.
pub open spec fn name_filter(apps: Seq<AppInfo>, word: Seq<char>, n: int) -> Seq<usize>
    decreases n,
{
    if n <= 0 {
        Seq::empty()
    } else {
        name_filter(apps, word, n - 1) + if contains_seq(
            unicode_lowercase(apps[n - 1].name@),
            unicode_lowercase(word),
        ) {
            seq![(n - 1) as usize]
        } else {
            Seq::<usize>::empty()
        }
    }
}

proof fn lemma_name_filter_range(apps: Seq<AppInfo>, word: Seq<char>, n: int)
    requires
        0 <= n <= apps.len(),
    ensures
        forall|i: int| 0 <= i < name_filter(apps, word, n).len() ==> #[trigger] name_filter(apps, word, n)[i] < n,
    decreases n,
{
    if n > 0 {
        lemma_name_filter_range(apps, word, n - 1);
        let prev = name_filter(apps, word, n - 1);
        let cur = name_filter(apps, word, n);
        assert forall|i: int| 0 <= i < cur.len() implies #[trigger] cur[i] < n by {
            if i < prev.len() {
                assert(cur[i] == prev[i]);
            } else {
                assert(cur[i] == (n - 1) as usize);
            }
        }
    }
}

/// `a` comes before `b` in sort mode `mode`: larger first, more recently
/// used first (never used counting as the epoch), or by lower-case name.
pub open spec fn app_before(mode: u8, a: AppInfo, b: AppInfo) -> bool {
    if mode == 0 {
        a.size > b.size
    } else if mode == 1 {
        (match a.last_used {
            Some(t) => t as int,
            None => 0,
        }) > (match b.last_used {
            Some(t) => t as int,
            None => 0,
        })
    } else {
        lex_lt(unicode_lowercase(a.name@), unicode_lowercase(b.name@))
    }
}

/// `perm` orders `apps` for sort mode `mode`, applications that neither
/// comes before the other keeping their order: it lists each index once.
pub open spec fn apps_stable(mode: u8, apps: Seq<AppInfo>, perm: Seq<int>) -> bool {
    &&& perm.len() == apps.len()
    &&& forall|i: int| 0 <= i < perm.len() ==> 0 <= #[trigger] perm[i] < apps.len()
    &&& forall|i: int, j: int| 0 <= i < j < perm.len() ==> #[trigger] perm[i] != #[trigger] perm[j]
    &&& forall|i: int, j: int|
        0 <= i < j < perm.len() && !app_before(mode, apps[perm[i]], apps[perm[j]]) && !app_before(
            mode,
            apps[perm[j]],
            apps[perm[i]],
        ) ==> #[trigger] perm[i] < #[trigger] perm[j]
}

/// The applications in the order `perm` gives.
pub open spec fn apps_arranged(apps: Seq<AppInfo>, perm: Seq<int>) -> Seq<AppInfo> {
    Seq::new(perm.len(), |i: int| apps[perm[i]])
}

/// No application comes before one listed earlier.
pub open spec fn apps_in_order(mode: u8, apps: Seq<AppInfo>) -> bool {
    forall|i: int, j: int| 0 <= i < j < apps.len() ==> !app_before(mode, #[trigger] apps[j], #[trigger] apps[i])
}

proof fn lemma_app_order(mode: u8, a: AppInfo, b: AppInfo, c: AppInfo)
    ensures
        app_before(mode, a, b) ==> !app_before(mode, b, a),
        !app_before(mode, a, b) && !app_before(mode, b, c) ==> !app_before(mode, a, c),
{
    if mode >= 2 {
        let (x, y, z) = (unicode_lowercase(a.name@), unicode_lowercase(b.name@), unicode_lowercase(c.name@));
        crate::browse::lemma_lex_total(x, y);
        crate::browse::lemma_lex_total(y, z);
        crate::browse::lemma_lex_total(x, z);
        if lex_lt(y, x) && lex_lt(z, y) {
            crate::browse::lemma_lex_trans(z, y, x);
        }
    }
}

fn app_before_exec(mode: u8, a: &AppInfo, b: &AppInfo) -> (r: bool)
    ensures
        r == app_before(mode, *a, *b),
{
    if mode == 0 {
        a.size > b.size
    } else if mode == 1 {
        let ta: i64 = match a.last_used {
            Some(t) => t,
            None => 0,
        };
        let tb: i64 = match b.last_used {
            Some(t) => t,
            None => 0,
        };
        ta > tb
    } else {
        let x = crate::search::to_lowercase(a.name.as_str());
        let y = crate::search::to_lowercase(b.name.as_str());
        let xs = crate::text::chars_of(x.as_str());
        let ys = crate::text::chars_of(y.as_str());
        crate::browse::chars_lt(xs.as_slice(), ys.as_slice())
    }
}

/// Sorts the applications for sort mode `mode`; applications that
/// neither comes before the other keep their order.
#[verifier::spinoff_prover]
#[verifier::rlimit(50)]
pub fn sort_apps(apps: &mut Vec<AppInfo>, mode: u8)
    ensures
        final(apps)@.to_multiset() == old(apps)@.to_multiset(),
        apps_in_order(mode, final(apps)@),
        exists|perm: Seq<int>|
            #![trigger apps_arranged(old(apps)@, perm)]
            apps_stable(mode, old(apps)@, perm) && final(apps)@ == apps_arranged(old(apps)@, perm),
{
    let ghost orig = apps@;
    let mut rest: Vec<AppInfo> = Vec::new();
    std::mem::swap(&mut rest, apps);
    let mut out: Vec<AppInfo> = Vec::new();
    let ghost mut k: int = 0;
    let ghost mut perm: Seq<int> = Seq::empty();
    proof {
        assert(orig.subrange(0, orig.len() as int) =~= orig);
        assert(orig.take(0) =~= Seq::<AppInfo>::empty());
    }
    while rest.len() > 0
        invariant
            0 <= k <= orig.len(),
            rest@ == orig.subrange(k, orig.len() as int),
            out@.to_multiset() == orig.take(k).to_multiset(),
            apps_in_order(mode, out@),
            perm.len() == k,
            out@ == apps_arranged(orig, perm),
            forall|i: int| 0 <= i < perm.len() ==> 0 <= #[trigger] perm[i] < k,
            forall|i: int, j: int| 0 <= i < j < perm.len() ==> #[trigger] perm[i] != #[trigger] perm[j],
            forall|i: int, j: int|
                0 <= i < j < perm.len() && !app_before(mode, orig[perm[i]], orig[perm[j]]) && !app_before(
                    mode,
                    orig[perm[j]],
                    orig[perm[i]],
                ) ==> #[trigger] perm[i] < #[trigger] perm[j],
        decreases rest@.len(),
    {
        proof {
            assert(rest@.remove(0) =~= orig.subrange(k + 1, orig.len() as int));
        }
        let e = rest.remove(0);
        proof {
            assert(e == orig[k]);
        }
        let mut p: usize = 0;
        while p < out.len() && !app_before_exec(mode, &e, &out[p])
            invariant
                p <= out@.len(),
                forall|i: int| 0 <= i < p ==> !app_before(mode, e, #[trigger] out@[i]),
            decreases out@.len() - p,
        {
            p = p + 1;
        }
        let ghost before = out@;
        out.insert(p, e);
        proof {
            before.insert_ensures(p as int, e);
            assert forall|i: int, j: int| 0 <= i < j < out@.len() implies !app_before(
                mode,
                #[trigger] out@[j],
                #[trigger] out@[i],
            ) by {
                if j < p {
                    assert(out@[i] == before[i] && out@[j] == before[j]);
                } else if i < p && j == p {
                    lemma_app_order(mode, e, before[i], e);
                    if app_before(mode, e, before[i]) {
                    }
                    assert(!app_before(mode, e, before[i]));
                } else if i < p && j > p {
                    assert(out@[j] == before[j - 1]);
                    assert(!app_before(mode, before[j - 1], before[i]));
                } else if i == p {
                    assert(out@[j] == before[j - 1]);
                    if j - 1 == p {
                        lemma_app_order(mode, e, before[p as int], e);
                    } else {
                        assert(!app_before(mode, before[j - 1], before[p as int]));
                        lemma_app_order(mode, e, before[p as int], e);
                        lemma_app_order(mode, before[j - 1], before[p as int], e);
                        if app_before(mode, before[j - 1], e) {
                            lemma_app_order(mode, before[p as int], e, before[j - 1]);
                            lemma_app_order(mode, before[j - 1], e, before[p as int]);
                        }
                    }
                } else {
                    assert(out@[i] == before[i - 1]);
                    assert(out@[j] == before[j - 1]);
                }
            }
            vstd::seq_lib::to_multiset_insert(before, p as int, e);
            let t = orig.take(k + 1);
            assert(t =~= orig.take(k).push(orig[k]));
            vstd::seq_lib::to_multiset_build(orig.take(k), orig[k]);
            let pb = perm;
            perm = pb.insert(p as int, k);
            assert forall|i: int| 0 <= i < perm.len() implies 0 <= #[trigger] perm[i] < k + 1 by {
                if i < p {
                    assert(perm[i] == pb[i]);
                } else if i > p {
                    assert(perm[i] == pb[i - 1]);
                }
            }
            assert(out@ =~= apps_arranged(orig, perm)) by {
                assert forall|i: int| 0 <= i < perm.len() implies out@[i] == orig[perm[i]] by {
                    if i < p {
                        assert(perm[i] == pb[i] && out@[i] == before[i]);
                    } else if i > p {
                        assert(perm[i] == pb[i - 1] && out@[i] == before[i - 1]);
                    }
                }
            }
            assert forall|i: int, j: int| 0 <= i < j < perm.len() implies #[trigger] perm[i] != #[trigger] perm[j] by {
                if i < p && j > p {
                    assert(perm[i] == pb[i] && perm[j] == pb[j - 1]);
                } else if i > p {
                    assert(perm[i] == pb[i - 1] && perm[j] == pb[j - 1]);
                } else if j < p {
                    assert(perm[i] == pb[i] && perm[j] == pb[j]);
                } else if i == p {
                    assert(perm[j] == pb[j - 1]);
                } else {
                    assert(perm[i] == pb[i]);
                }
            }
            assert forall|i: int, j: int|
                0 <= i < j < perm.len() && !app_before(mode, orig[perm[i]], orig[perm[j]]) && !app_before(
                    mode,
                    orig[perm[j]],
                    orig[perm[i]],
                ) implies #[trigger] perm[i] < #[trigger] perm[j] by {
                assert(out@[i] == orig[perm[i]] && out@[j] == orig[perm[j]]);
                if i < p && j > p {
                    assert(perm[i] == pb[i] && perm[j] == pb[j - 1]);
                } else if i > p {
                    assert(perm[i] == pb[i - 1] && perm[j] == pb[j - 1]);
                } else if j < p {
                    assert(perm[i] == pb[i] && perm[j] == pb[j]);
                } else if i == p {
                    assert(perm[j] == pb[j - 1]);
                    assert(out@[j] == before[j - 1]);
                    assert(app_before(mode, e, before[p as int]));
                    if j - 1 > p {
                        assert(!app_before(mode, before[j - 1], before[p as int]));
                        lemma_app_order(mode, e, before[j - 1], before[p as int]);
                    }
                } else {
                    assert(perm[i] == pb[i]);
                }
            }
            k = k + 1;
        }
    }
    proof {
        assert(orig.take(orig.len() as int) =~= orig);
    }
    *apps = out;
}

/// The shown applications after a new search word: those whose name
/// holds it; the cursor back on the first.
pub open spec fn refiltered(o: UninstallState, n: UninstallState, word: Seq<char>) -> bool {
    &&& n == UninstallState { search_word: n.search_word, filtered: n.filtered, cursor: 0, ..o }
    &&& n.search_word@ == word
    &&& n.filtered@ == name_filter(o.apps@, word, o.apps@.len() as int)
}

/// The word without its last character (if any).
pub open spec fn word_popped(w: Seq<char>) -> Seq<char> {
    if w.len() > 0 {
        w.drop_last()
    } else {
        w
    }
}

/// The keys while choosing the application: with the filter typed,
/// Esc stops typing, characters and Backspace change the word. Else
/// j/Down, k/Up, "gg" and G move, '/' types the filter, 'o' sorts by the
/// next mode (showing all), Backspace shortens the word, Enter picks the
/// application under the cursor and looks for its leftovers, Esc and 'q'
/// close the popup.
pub open spec fn select_step(
    o: UninstallState,
    n: UninstallState,
    gg: bool,
    gg2: bool,
    key: PopupKey,
    r: UninstallAction,
) -> bool {
    let count = o.filtered@.len();
    if o.filter_mode {
        &&& gg2 == gg
        &&& r is Nothing
        &&& if key == PopupKey::Esc {
            n == UninstallState { filter_mode: false, ..o }
        } else if key is Char {
            refiltered(o, n, o.search_word@.push(key->0))
        } else if key == PopupKey::Backspace {
            refiltered(o, n, word_popped(o.search_word@))
        } else {
            n == o
        }
    } else if key == PopupKey::Char('j') || key == PopupKey::Down {
        gg2 == gg && r is Nothing && n == UninstallState { cursor: row_down(o.cursor, count as usize), ..o }
    } else if key == PopupKey::Char('k') || key == PopupKey::Up {
        gg2 == gg && r is Nothing && n == UninstallState { cursor: row_up(o.cursor), ..o }
    } else if key == PopupKey::Char('g') {
        gg2 == !gg && r is Nothing && n == if gg {
            UninstallState { cursor: 0, ..o }
        } else {
            o
        }
    } else if key == PopupKey::Char('G') {
        !gg2 && r is Nothing && n == UninstallState { cursor: last_row(count as usize), ..o }
    } else if key == PopupKey::Char('/') {
        gg2 == gg && r is Nothing && n == UninstallState { filter_mode: true, ..o }
    } else if key == PopupKey::Char('o') {
        let m = ((o.sort_mode + 1) % 3) as u8;
        &&& gg2 == gg
        &&& r is Nothing
        &&& n == UninstallState { apps: n.apps, filtered: n.filtered, sort_mode: m, cursor: 0, ..o }
        &&& n.apps@.to_multiset() == o.apps@.to_multiset()
        &&& apps_in_order(m, n.apps@)
        &&& n.filtered@ == Seq::new(n.apps@.len(), |i: int| i as usize)
    } else if key == PopupKey::Backspace {
        gg2 == gg && r is Nothing && refiltered(o, n, word_popped(o.search_word@))
    } else if key == PopupKey::Enter {
        &&& gg2 == gg
        &&& if o.cursor < count {
            let idx = o.filtered@[o.cursor as int];
            &&& n == UninstallState {
                selected_app: Some(idx),
                phase: UninstallPhase::Confirm,
                scanning: true,
                cursor: 0,
                ..o
            }
            &&& r matches UninstallAction::FindLeftovers(a) && same_app(o.apps@[idx as int], a)
        } else {
            n == o && r is Nothing
        }
    } else if key == PopupKey::Esc || key == PopupKey::Char('q') {
        gg2 == gg && n == o && r is Exit
    } else {
        gg2 == gg && n == o && r is Nothing
    }
}

/// The keys while confirming: j/Down and k/Up move over the leftovers,
/// Space selects one, 't' and Tab switch removing the leftovers, Enter
/// asks to confirm, Esc goes back to choosing.
pub open spec fn confirm_app_step(o: UninstallState, n: UninstallState, key: PopupKey, r: UninstallAction) -> bool {
    let count: usize = match o.leftovers {
        Some(l) => l.leftover_paths@.len() as usize,
        None => 0,
    };
    &&& r is Nothing
    &&& if key == PopupKey::Char('j') || key == PopupKey::Down {
        n == UninstallState { cursor: row_down(o.cursor, count), ..o }
    } else if key == PopupKey::Char('k') || key == PopupKey::Up {
        n == UninstallState { cursor: row_up(o.cursor), ..o }
    } else if key == PopupKey::Char(' ') {
        n == UninstallState { selected_leftovers: n.selected_leftovers, ..o } && n.selected_leftovers@ == toggled_in(
            o.selected_leftovers@,
            o.cursor,
        )
    } else if key == PopupKey::Char('t') || key == PopupKey::Tab {
        n == UninstallState { remove_leftovers: !o.remove_leftovers, ..o }
    } else if key == PopupKey::Enter {
        n == UninstallState { confirm_pending: true, ..o }
    } else if key == PopupKey::Esc {
        n == UninstallState { phase: UninstallPhase::SelectApp, leftovers: None, cursor: 0, ..o }
    } else {
        n == o
    }
}

/// The uninstall keys: while asked to confirm, 'y'/'Y' uninstalls the
/// chosen application (the first when none was chosen; nothing happens
/// when there is no such application) and 'n'/'N', Esc and 'q' do not;
/// during a scan nothing counts; else the keys of the current step.
pub open spec fn uninstall_step(
    o: UninstallState,
    n: UninstallState,
    gg: bool,
    gg2: bool,
    key: PopupKey,
    r: UninstallAction,
) -> bool {
    if o.confirm_pending {
        &&& gg2 == gg
        &&& if key == PopupKey::Char('y') || key == PopupKey::Char('Y') {
            let idx = match o.selected_app {
                Some(i) => i,
                None => 0,
            };
            if idx < o.apps@.len() {
                &&& n == UninstallState { confirm_pending: false, ..o }
                &&& r matches UninstallAction::Uninstall(a, rm) && same_app(o.apps@[idx as int], a) && rm
                    == o.remove_leftovers
            } else {
                n == o && r is Nothing
            }
        } else if key == PopupKey::Char('n') || key == PopupKey::Char('N') || key == PopupKey::Esc || key
            == PopupKey::Char('q') {
            n == UninstallState { confirm_pending: false, ..o } && r is Nothing
        } else {
            n == o && r is Nothing
        }
    } else if o.scanning {
        gg2 == gg && n == o && r is Nothing
    } else if o.phase == UninstallPhase::SelectApp {
        select_step(o, n, gg, gg2, key, r)
    } else {
        gg2 == gg && confirm_app_step(o, n, key, r)
    }
}

impl UninstallState {
    /// The popup while the applications are looked for.
    pub fn new() -> (s: UninstallState)
        ensures
            s.apps@.len() == 0 && s.filtered@.len() == 0 && s.search_word@.len() == 0,
            !s.filter_mode && s.sort_mode == 0 && s.cursor == 0,
            s.phase == UninstallPhase::SelectApp,
            s.selected_app is None && s.leftovers is None && s.selected_leftovers@.len() == 0,
            s.remove_leftovers && s.scanning && !s.confirm_pending,
            s.scan_current_path is None && s.report is None,
            uninstall_wf(s),
    {
        UninstallState {
            apps: Vec::new(),
            filtered: Vec::new(),
            search_word: String::new(),
            filter_mode: false,
            sort_mode: 0,
            cursor: 0,
            phase: UninstallPhase::SelectApp,
            selected_app: None,
            leftovers: None,
            selected_leftovers: HashSet::new(),
            remove_leftovers: true,
            scanning: true,
            scan_current_path: None,
            confirm_pending: false,
            report: None,
        }
    }

    fn refilter(&mut self, word: String)
        ensures
            refiltered(*old(self), *final(self), word@),
            uninstall_wf(*old(self)) ==> uninstall_wf(*final(self)),
    {
        let w = crate::search::to_lowercase(word.as_str());
        let wc = crate::text::chars_of(w.as_str());
        let mut filtered: Vec<usize> = Vec::new();
        let mut i: usize = 0;
        while i < self.apps.len()
            invariant
                i <= self.apps@.len(),
                wc@ == unicode_lowercase(word@),
                filtered@ == name_filter(self.apps@, word@, i as int),
            decreases self.apps@.len() - i,
        {
            let name = crate::search::to_lowercase(self.apps[i].name.as_str());
            let nc = crate::text::chars_of(name.as_str());
            if crate::text::contains_exec(nc.as_slice(), wc.as_slice()) {
                filtered.push(i);
            }
            proof {
                assert(filtered@ =~= name_filter(self.apps@, word@, i + 1));
            }
            i = i + 1;
        }
        proof {
            lemma_name_filter_range(self.apps@, word@, self.apps@.len() as int);
        }
        self.search_word = word;
        self.filtered = filtered;
        self.cursor = 0;
    }

    fn popped_word(&self) -> (w: String)
        ensures
            w@ == word_popped(self.search_word@),
    {
        let cs = crate::text::chars_of(self.search_word.as_str());
        let keep = if cs.len() > 0 {
            cs.len() - 1
        } else {
            0
        };
        let w = crate::text::string_of(vstd::slice::slice_subrange(cs.as_slice(), 0, keep));
        proof {
            if cs@.len() > 0 {
                assert(w@ =~= cs@.drop_last());
            } else {
                assert(w@ =~= cs@);
            }
        }
        w
    }

    fn select_key(&mut self, key: PopupKey, pending_gg: &mut bool) -> (r: UninstallAction)
        requires
            uninstall_wf(*old(self)),
        ensures
            select_step(*old(self), *final(self), *old(pending_gg), *final(pending_gg), key, r),
            uninstall_wf(*final(self)),
    {
        if self.filter_mode {
            if key == PopupKey::Esc {
                self.filter_mode = false;
            } else if let PopupKey::Char(c) = key {
                let mut w = crate::text::string_from(self.search_word.as_str());
                crate::text::push_char(&mut w, c);
                self.refilter(w);
            } else if key == PopupKey::Backspace {
                let w = self.popped_word();
                self.refilter(w);
            }
            return UninstallAction::Nothing;
        }
        let count = self.filtered.len();
        if key == PopupKey::Char('j') || key == PopupKey::Down {
            self.cursor = row_down_exec(self.cursor, count);
            UninstallAction::Nothing
        } else if key == PopupKey::Char('k') || key == PopupKey::Up {
            self.cursor = self.cursor.saturating_sub(1);
            UninstallAction::Nothing
        } else if key == PopupKey::Char('g') {
            if *pending_gg {
                self.cursor = 0;
                *pending_gg = false;
            } else {
                *pending_gg = true;
            }
            UninstallAction::Nothing
        } else if key == PopupKey::Char('G') {
            self.cursor = count.saturating_sub(1);
            *pending_gg = false;
            UninstallAction::Nothing
        } else if key == PopupKey::Char('/') {
            self.filter_mode = true;
            UninstallAction::Nothing
        } else if key == PopupKey::Char('o') {
            self.sort_mode = (self.sort_mode + 1) % 3;
            sort_apps(&mut self.apps, self.sort_mode);
            let mut all: Vec<usize> = Vec::new();
            let mut i: usize = 0;
            while i < self.apps.len()
                invariant
                    i <= self.apps@.len(),
                    all@ == Seq::new(i as nat, |j: int| j as usize),
                decreases self.apps@.len() - i,
            {
                all.push(i);
                proof {
                    assert(all@ =~= Seq::new((i + 1) as nat, |j: int| j as usize));
                }
                i = i + 1;
            }
            self.filtered = all;
            self.cursor = 0;
            UninstallAction::Nothing
        } else if key == PopupKey::Backspace {
            let w = self.popped_word();
            self.refilter(w);
            UninstallAction::Nothing
        } else if key == PopupKey::Enter {
            if self.cursor < count {
                let idx = self.filtered[self.cursor];
                let a = self.apps[idx].copy();
                self.selected_app = Some(idx);
                self.phase = UninstallPhase::Confirm;
                self.scanning = true;
                self.cursor = 0;
                UninstallAction::FindLeftovers(a)
            } else {
                UninstallAction::Nothing
            }
        } else if key == PopupKey::Esc || key == PopupKey::Char('q') {
            UninstallAction::Exit
        } else {
            UninstallAction::Nothing
        }
    }

    fn confirm_key(&mut self, key: PopupKey) -> (r: UninstallAction)
        ensures
            confirm_app_step(*old(self), *final(self), key, r),
    {
        let count: usize = match &self.leftovers {
            Some(l) => l.leftover_paths.len(),
            None => 0,
        };
        if key == PopupKey::Char('j') || key == PopupKey::Down {
            self.cursor = row_down_exec(self.cursor, count);
        } else if key == PopupKey::Char('k') || key == PopupKey::Up {
            self.cursor = self.cursor.saturating_sub(1);
        } else if key == PopupKey::Char(' ') {
            toggle_in(&mut self.selected_leftovers, self.cursor);
        } else if key == PopupKey::Char('t') || key == PopupKey::Tab {
            self.remove_leftovers = !self.remove_leftovers;
        } else if key == PopupKey::Enter {
            self.confirm_pending = true;
        } else if key == PopupKey::Esc {
            self.phase = UninstallPhase::SelectApp;
            self.leftovers = None;
            self.cursor = 0;
        }
        UninstallAction::Nothing
    }

    /// Handles a key of the uninstall popup (see `uninstall_step`);
    /// `pending_gg` is whether a first 'g' was pressed.
    pub fn handle_uninstall_key(&mut self, key: PopupKey, pending_gg: &mut bool) -> (r: UninstallAction)
        requires
            uninstall_wf(*old(self)),
        ensures
            uninstall_step(*old(self), *final(self), *old(pending_gg), *final(pending_gg), key, r),
            uninstall_wf(*final(self)),
    {
        if self.confirm_pending {
            if key == PopupKey::Char('y') || key == PopupKey::Char('Y') {
                let idx = match self.selected_app {
                    Some(i) => i,
                    None => 0,
                };
                if idx < self.apps.len() {
                    let a = self.apps[idx].copy();
                    self.confirm_pending = false;
                    return UninstallAction::Uninstall(a, self.remove_leftovers);
                }
                return UninstallAction::Nothing;
            }
            if key == PopupKey::Char('n') || key == PopupKey::Char('N') || key == PopupKey::Esc || key
                == PopupKey::Char('q') {
                self.confirm_pending = false;
            }
            return UninstallAction::Nothing;
        }
        if self.scanning {
            return UninstallAction::Nothing;
        }
        if self.phase == UninstallPhase::SelectApp {
            self.select_key(key, pending_gg)
        } else {
            self.confirm_key(key)
        }
    }
}

/// Items over 1 GB (by index) among the first `n`.
pub open spec fn large_items(items: Seq<CleanItem>) -> Set<usize> {
    Set::new(|i: usize| (i as int) < items.len() && items[i as int].size > 1_000_000_000)
}

/// Larger items first.
pub open spec fn items_by_size(items: Seq<CleanItem>) -> bool {
    forall|i: int, j: int| 0 <= i < j < items.len() ==> #[trigger] items[i].size >= #[trigger] items[j].size
}

/// `perm` orders `items` by size, larger first, items of equal size
/// keeping their order: it lists each index once.
pub open spec fn items_stable_by_size(items: Seq<CleanItem>, perm: Seq<int>) -> bool {
    &&& perm.len() == items.len()
    &&& forall|i: int| 0 <= i < perm.len() ==> 0 <= #[trigger] perm[i] < items.len()
    &&& forall|i: int, j: int| 0 <= i < j < perm.len() ==> #[trigger] perm[i] != #[trigger] perm[j]
    &&& forall|i: int, j: int|
        0 <= i < j < perm.len() && items[perm[i]].size == items[perm[j]].size ==> #[trigger] perm[i] < #[trigger] perm[j]
}

/// The items in the order `perm` gives.
pub open spec fn items_arranged(items: Seq<CleanItem>, perm: Seq<int>) -> Seq<CleanItem> {
    Seq::new(perm.len(), |i: int| items[perm[i]])
}

/// `r` holds `items` larger first, items of equal size in their order.
pub open spec fn items_sorted_stably(items: Seq<CleanItem>, r: Seq<CleanItem>) -> bool {
    exists|perm: Seq<int>|
        #![trigger items_arranged(items, perm)]
        items_stable_by_size(items, perm) && r == items_arranged(items, perm)
}

/// Sorts the items, larger first; items of equal size keep their order.
#[verifier::spinoff_prover]
#[verifier::rlimit(50)]
pub fn sort_items_by_size(items: &mut Vec<CleanItem>)
    ensures
        final(items)@.to_multiset() == old(items)@.to_multiset(),
        items_by_size(final(items)@),
        items_sorted_stably(old(items)@, final(items)@),
{
    let ghost orig = items@;
    let mut rest: Vec<CleanItem> = Vec::new();
    std::mem::swap(&mut rest, items);
    let mut out: Vec<CleanItem> = Vec::new();
    let ghost mut k: int = 0;
    let ghost mut perm: Seq<int> = Seq::empty();
    proof {
        assert(orig.subrange(0, orig.len() as int) =~= orig);
        assert(orig.take(0) =~= Seq::<CleanItem>::empty());
    }
    while rest.len() > 0
        invariant
            0 <= k <= orig.len(),
            rest@ == orig.subrange(k, orig.len() as int),
            out@.to_multiset() == orig.take(k).to_multiset(),
            items_by_size(out@),
            perm.len() == k,
            out@ == items_arranged(orig, perm),
            forall|i: int| 0 <= i < perm.len() ==> 0 <= #[trigger] perm[i] < k,
            forall|i: int, j: int| 0 <= i < j < perm.len() ==> #[trigger] perm[i] != #[trigger] perm[j],
            forall|i: int, j: int|
                0 <= i < j < perm.len() && orig[perm[i]].size == orig[perm[j]].size ==> #[trigger] perm[i] < #[trigger] perm[j],
        decreases rest@.len(),
    {
        proof {
            assert(rest@.remove(0) =~= orig.subrange(k + 1, orig.len() as int));
        }
        let e = rest.remove(0);
        proof {
            assert(e == orig[k]);
        }
        let mut p: usize = 0;
        while p < out.len() && out[p].size >= e.size
            invariant
                p <= out@.len(),
                forall|i: int| 0 <= i < p ==> (#[trigger] out@[i]).size >= e.size,
            decreases out@.len() - p,
        {
            p = p + 1;
        }
        let ghost before = out@;
        out.insert(p, e);
        proof {
            before.insert_ensures(p as int, e);
            assert forall|i: int, j: int| 0 <= i < j < out@.len() implies #[trigger] out@[i].size >= #[trigger] out@[j].size by {
                if j < p {
                    assert(out@[i] == before[i] && out@[j] == before[j]);
                } else if i < p && j == p {
                } else if i < p && j > p {
                    assert(out@[j] == before[j - 1]);
                } else if i == p {
                    assert(out@[j] == before[j - 1]);
                    assert(before[p as int].size < e.size);
                    assert(before[p as int].size >= before[j - 1].size || j - 1 == p);
                } else {
                    assert(out@[i] == before[i - 1]);
                    assert(out@[j] == before[j - 1]);
                }
            }
            vstd::seq_lib::to_multiset_insert(before, p as int, e);
            let t = orig.take(k + 1);
            assert(t =~= orig.take(k).push(orig[k]));
            vstd::seq_lib::to_multiset_build(orig.take(k), orig[k]);
            let pb = perm;
            perm = pb.insert(p as int, k);
            assert forall|i: int| 0 <= i < perm.len() implies 0 <= #[trigger] perm[i] < k + 1 by {
                if i < p {
                    assert(perm[i] == pb[i]);
                } else if i > p {
                    assert(perm[i] == pb[i - 1]);
                }
            }
            assert(out@ =~= items_arranged(orig, perm)) by {
                assert forall|i: int| 0 <= i < perm.len() implies out@[i] == orig[perm[i]] by {
                    if i < p {
                        assert(perm[i] == pb[i] && out@[i] == before[i]);
                    } else if i > p {
                        assert(perm[i] == pb[i - 1] && out@[i] == before[i - 1]);
                    }
                }
            }
            assert forall|i: int, j: int| 0 <= i < j < perm.len() implies #[trigger] perm[i] != #[trigger] perm[j] by {
                if i < p && j > p {
                    assert(perm[i] == pb[i] && perm[j] == pb[j - 1]);
                } else if i > p {
                    assert(perm[i] == pb[i - 1] && perm[j] == pb[j - 1]);
                } else if j < p {
                    assert(perm[i] == pb[i] && perm[j] == pb[j]);
                } else if i == p {
                    assert(perm[j] == pb[j - 1]);
                } else {
                    assert(perm[i] == pb[i]);
                }
            }
            assert forall|i: int, j: int|
                0 <= i < j < perm.len() && orig[perm[i]].size == orig[perm[j]].size implies #[trigger] perm[i]
                < #[trigger] perm[j] by {
                assert(out@[i] == orig[perm[i]] && out@[j] == orig[perm[j]]);
                if i < p && j > p {
                    assert(perm[i] == pb[i] && perm[j] == pb[j - 1]);
                } else if i > p {
                    assert(perm[i] == pb[i - 1] && perm[j] == pb[j - 1]);
                } else if j < p {
                    assert(perm[i] == pb[i] && perm[j] == pb[j]);
                } else if i == p {
                    assert(perm[j] == pb[j - 1]);
                    assert(out@[j] == before[j - 1]);
                    assert(before[p as int].size < e.size);
                    assert(before[p as int].size >= before[j - 1].size || j - 1 == p);
                } else {
                    assert(perm[i] == pb[i]);
                }
            }
            k = k + 1;
        }
    }
    proof {
        assert(orig.take(orig.len() as int) =~= orig);
    }
    *items = out;
}

impl CleanupState {
    /// The scan found `items` holding `total_bytes`: they are listed
    /// larger first, and those over 1 GB are selected.
    pub fn scan_complete(&mut self, items: Vec<CleanItem>, total_bytes: u64)
        ensures
            !final(self).scanning,
            final(self).items@.to_multiset() == items@.to_multiset(),
            items_by_size(final(self).items@),
            items_sorted_stably(items@, final(self).items@),
            final(self).total_bytes == total_bytes,
            final(self).selected@ == old(self).selected@.union(large_items(final(self).items@)),
            *final(self) == (CleanupState {
                scanning: false,
                items: final(self).items,
                total_bytes,
                selected: final(self).selected,
                ..*old(self)
            }),
    {
        broadcast use vstd::std_specs::hash::group_hash_axioms;

        let mut items = items;
        sort_items_by_size(&mut items);
        self.scanning = false;
        let ghost sel0 = self.selected@;
        let ghost pre = *self;
        let mut i: usize = 0;
        while i < items.len()
            invariant
                i <= items@.len(),
                *self == (CleanupState { selected: self.selected, ..pre }),
                self.selected@ == sel0.union(Set::new(|j: usize| (j as int) < i && items@[j as int].size > 1_000_000_000)),
            decreases items@.len() - i,
        {
            if items[i].size > 1_000_000_000 {
                self.selected.insert(i);
            }
            proof {
                assert(self.selected@ =~= sel0.union(
                    Set::new(|j: usize| (j as int) < i + 1 && items@[j as int].size > 1_000_000_000),
                ));
            }
            i = i + 1;
        }
        proof {
            assert(self.selected@ =~= sel0.union(large_items(items@)));
        }
        self.items = items;
        self.total_bytes = total_bytes;
    }

    /// The cleanup ran: the question is gone and the report is kept.
    pub fn exec_complete(&mut self, report: CleanReport)
        ensures
            *final(self) == (CleanupState { confirm_pending: false, report: Some(report), ..*old(self) }),
    {
        self.confirm_pending = false;
        self.report = Some(report);
    }
}

impl UninstallState {
    /// The applications were found: all are shown.
    pub fn apps_ready(&mut self, apps: Vec<AppInfo>)
        ensures
            *final(self) == (UninstallState { scanning: false, apps, filtered: final(self).filtered, ..*old(self) }),
            final(self).filtered@ == Seq::new(apps@.len(), |i: int| i as usize),
            old(self).sort_mode < 3 ==> uninstall_wf(*final(self)),
    {
        let mut all: Vec<usize> = Vec::new();
        let mut i: usize = 0;
        while i < apps.len()
            invariant
                i <= apps@.len(),
                all@ == Seq::new(i as nat, |j: int| j as usize),
            decreases apps@.len() - i,
        {
            all.push(i);
            proof {
                assert(all@ =~= Seq::new((i + 1) as nat, |j: int| j as usize));
            }
            i = i + 1;
        }
        self.scanning = false;
        self.apps = apps;
        self.filtered = all;
    }

    /// The leftovers of the chosen application were found: all are
    /// selected.
    pub fn leftovers_ready(&mut self, leftovers: AppLeftovers)
        ensures
            final(self).selected_leftovers@ == Set::new(|i: usize| (i as int) < leftovers.leftover_paths@.len()),
            *final(self) == (UninstallState {
                scanning: false,
                leftovers: Some(leftovers),
                selected_leftovers: final(self).selected_leftovers,
                ..*old(self)
            }),
    {
        broadcast use vstd::std_specs::hash::group_hash_axioms;

        let mut sel: HashSet<usize> = HashSet::new();
        let n = leftovers.leftover_paths.len();
        let mut i: usize = 0;
        while i < n
            invariant
                i <= n,
                n == leftovers.leftover_paths@.len(),
                sel@ == Set::new(|j: usize| j < i),
            decreases n - i,
        {
            sel.insert(i);
            proof {
                assert(sel@ =~= Set::new(|j: usize| j < i + 1));
            }
            i = i + 1;
        }
        proof {
            assert(sel@ =~= Set::new(|j: usize| (j as int) < leftovers.leftover_paths@.len()));
        }
        self.scanning = false;
        self.leftovers = Some(leftovers);
        self.selected_leftovers = sel;
    }

    /// The uninstall ran: the question is gone and the report is kept.
    pub fn uninstall_complete(&mut self, report: CleanReport)
        ensures
            *final(self) == (UninstallState { confirm_pending: false, report: Some(report), ..*old(self) }),
    {
        self.confirm_pending = false;
        self.report = Some(report);
    }
}

/// Larger entries first.
pub open spec fn details_by_size(d: Seq<(String, u64)>) -> bool {
    forall|i: int, j: int| 0 <= i < j < d.len() ==> #[trigger] d[i].1 >= #[trigger] d[j].1
}

/// `perm` orders `entries` by size, larger first, entries of equal size
/// keeping their order: it lists each index once.
pub open spec fn stable_by_size(entries: Seq<(String, u64)>, perm: Seq<int>) -> bool {
    &&& perm.len() == entries.len()
    &&& forall|i: int| 0 <= i < perm.len() ==> 0 <= #[trigger] perm[i] < entries.len()
    &&& forall|i: int, j: int| 0 <= i < j < perm.len() ==> #[trigger] perm[i] != #[trigger] perm[j]
    &&& forall|i: int, j: int|
        0 <= i < j < perm.len() ==> entries[#[trigger] perm[i]].1 >= entries[#[trigger] perm[j]].1
    &&& forall|i: int, j: int|
        0 <= i < j < perm.len() && entries[perm[i]].1 == entries[perm[j]].1 ==> #[trigger] perm[i] < #[trigger] perm[j]
}

/// The entries in the order `perm` gives.
pub open spec fn arranged(entries: Seq<(String, u64)>, perm: Seq<int>) -> Seq<(String, u64)> {
    Seq::new(perm.len(), |i: int| entries[perm[i]])
}

/// The entries found inside a path, larger first (equal sizes keeping
/// their order), at most 200 of them.
#[verifier::spinoff_prover]
#[verifier::rlimit(50)]
pub fn rank_details(entries: Vec<(String, u64)>) -> (r: Vec<(String, u64)>)
    ensures
        exists|perm: Seq<int>|
            #![trigger arranged(entries@, perm)]
            stable_by_size(entries@, perm) && r@ == arranged(entries@, perm).take(
                if perm.len() < 200 {
                    perm.len() as int
                } else {
                    200
                },
            ),
{
    let ghost orig = entries@;
    let mut rest = entries;
    let mut out: Vec<(String, u64)> = Vec::new();
    let ghost mut perm: Seq<int> = Seq::empty();
    let ghost mut k: int = 0;
    proof {
        assert(orig.subrange(0, orig.len() as int) =~= orig);
    }
    while rest.len() > 0
        invariant
            0 <= k <= orig.len(),
            rest@ == orig.subrange(k, orig.len() as int),
            perm.len() == k,
            out@ == arranged(orig, perm),
            forall|i: int| 0 <= i < perm.len() ==> 0 <= #[trigger] perm[i] < k,
            forall|i: int, j: int| 0 <= i < j < perm.len() ==> #[trigger] perm[i] != #[trigger] perm[j],
            forall|i: int, j: int|
                0 <= i < j < perm.len() ==> orig[#[trigger] perm[i]].1 >= orig[#[trigger] perm[j]].1,
            forall|i: int, j: int|
                0 <= i < j < perm.len() && orig[perm[i]].1 == orig[perm[j]].1 ==> #[trigger] perm[i] < #[trigger] perm[j],
        decreases rest@.len(),
    {
        proof {
            assert(rest@.remove(0) =~= orig.subrange(k + 1, orig.len() as int));
        }
        let e = rest.remove(0);
        proof {
            assert(e == orig[k]);
        }
        // Place it after every entry at least as large.
        let mut p: usize = 0;
        while p < out.len() && out[p].1 >= e.1
            invariant
                p <= out@.len(),
                forall|i: int| 0 <= i < p ==> (#[trigger] out@[i]).1 >= e.1,
            decreases out@.len() - p,
        {
            p = p + 1;
        }
        let ghost before = out@;
        let ghost pb = perm;
        out.insert(p, e);
        proof {
            perm = pb.insert(p as int, k);
            assert forall|i: int| 0 <= i < perm.len() implies 0 <= #[trigger] perm[i] < k + 1 by {
                if i < p {
                    assert(perm[i] == pb[i]);
                } else if i > p {
                    assert(perm[i] == pb[i - 1]);
                }
            }
            assert(out@ =~= arranged(orig, perm)) by {
                assert forall|i: int| 0 <= i < perm.len() implies out@[i] == orig[perm[i]] by {
                    if i < p {
                        assert(perm[i] == pb[i] && out@[i] == before[i]);
                    } else if i > p {
                        assert(perm[i] == pb[i - 1] && out@[i] == before[i - 1]);
                    }
                }
            }
            assert forall|i: int, j: int| 0 <= i < j < perm.len() implies #[trigger] perm[i] != #[trigger] perm[j] by {
                if i < p && j > p {
                    assert(perm[i] == pb[i] && perm[j] == pb[j - 1]);
                } else if i > p {
                    assert(perm[i] == pb[i - 1] && perm[j] == pb[j - 1]);
                } else if j < p {
                    assert(perm[i] == pb[i] && perm[j] == pb[j]);
                } else if i == p {
                    assert(perm[j] == pb[j - 1]);
                } else {
                    assert(perm[i] == pb[i]);
                }
            }
            assert forall|i: int, j: int| 0 <= i < j < perm.len() implies orig[#[trigger] perm[i]].1 >= orig[
                #[trigger] perm[j]].1 by {
                assert(out@[i] == orig[perm[i]] && out@[j] == orig[perm[j]]);
                if i < p && j > p {
                    assert(out@[i] == before[i] && out@[j] == before[j - 1]);
                    assert(before[i] == orig[pb[i]] && before[j - 1] == orig[pb[j - 1]]);
                    assert(perm[i] == pb[i] && perm[j] == pb[j - 1]);
                } else if i > p {
                    assert(perm[i] == pb[i - 1] && perm[j] == pb[j - 1]);
                } else if j < p {
                    assert(perm[i] == pb[i] && perm[j] == pb[j]);
                } else if i == p {
                    assert(perm[j] == pb[j - 1]);
                    assert(out@[j] == before[j - 1]);
                    assert(before[p as int].1 < e.1);
                    if j - 1 > p {
                        assert(pb[p as int] != pb[j - 1]);
                        assert(orig[pb[p as int]].1 >= orig[pb[j - 1]].1);
                    }
                } else {
                    assert(perm[i] == pb[i]);
                    assert(out@[i] == before[i]);
                }
            }
            assert forall|i: int, j: int|
                0 <= i < j < perm.len() && orig[perm[i]].1 == orig[perm[j]].1 implies #[trigger] perm[i]
                < #[trigger] perm[j] by {
                if i < p && j > p {
                    assert(perm[i] == pb[i] && perm[j] == pb[j - 1]);
                } else if i > p {
                    assert(perm[i] == pb[i - 1] && perm[j] == pb[j - 1]);
                } else if j < p {
                    assert(perm[i] == pb[i] && perm[j] == pb[j]);
                } else if i == p {
                    assert(perm[j] == pb[j - 1]);
                    assert(out@[j] == before[j - 1]);
                    assert(before[p as int].1 < e.1);
                    if j - 1 > p {
                        assert(pb[p as int] != pb[j - 1]);
                        assert(orig[pb[p as int]].1 >= orig[pb[j - 1]].1);
                    }
                    assert(out@[j] == orig[perm[j]]);
                } else {
                    assert(perm[i] == pb[i]);
                }
            }
            k = k + 1;
        }
    }
    proof {
        assert(k == orig.len());
    }
    let ghost full = out@;
    out.truncate(200);
    proof {
        assert(out@ =~= full.take(
            if perm.len() < 200 {
                perm.len() as int
            } else {
                200
            },
        ));
    }
    out
}

} // verus!
