//! The flat directory view: which directory is shown, the stack of
//! directories entered, the row under the cursor, and the listing of the
//! shown directory.
use crate::browse::{
    clamped_cursor, current_dir_of, entry_of, filtered_rows, full_path_of, listed_children, listed_in_order,
    review_of, DirEntry, DirTotals,
};
use crate::browser_state::DeltaFilter;
use crate::model::{NodeIndex, Snapshot};
use crate::review::RiskLevel;
use crate::tree_ops::{cache_position, cache_wf, names_view, same_path};
use crate::ui::SortMode;
use vstd::prelude::*;

verus! {

/// The tree paths of a stack of directories.
pub open spec fn stack_view(s: Seq<Vec<String>>) -> Seq<Seq<Seq<char>>> {
    s.map_values(|v: Vec<String>| names_view(v@))
}

/// Where the flat view stands: the tree path of the shown directory (the
/// root's name first), the directories entered before it, the cursor and
/// the scroll offset.
pub struct FlatNav {
    pub current_dir_path: Vec<String>,
    pub dir_stack: Vec<Vec<String>>,
    pub cursor: usize,
    pub scroll_offset: usize,
}

/// What entering the row under the cursor did.
#[derive(Debug, Clone, PartialEq, Eq)]
pub enum EnterOutcome {
    /// No directory is under the cursor: nothing changed.
    Nothing,
    /// The directory has a scan of its own, at this full path: it becomes
    /// the browsed root and the view starts over at its top.
    SwitchToScan(String),
    /// The directory was entered; its listing is to be loaded.
    Entered,
}

/// The row under the cursor, as an index into the listing: the shown row
/// at the cursor, if there is one.
pub fn selected_entry(filtered: &[usize], children_len: usize, cursor: usize) -> (r: Option<usize>)
    ensures
        r == (if cursor < filtered@.len() && filtered@[cursor as int] < children_len {
            Some(filtered@[cursor as int])
        } else {
            None
        }),
{
    if cursor < filtered.len() && filtered[cursor] < children_len {
        Some(filtered[cursor])
    } else {
        None
    }
}

/// Whether a scan is cached under the full path `full` (compared by
/// components, as paths are).
fn has_cached_scan(scan_cache: &[(String, Snapshot)], full: &str) -> (b: bool)
    ensures
        b == cache_position(scan_cache@, crate::delta_cache::is_absolute(full@), crate::delta_cache::components(full@))
            is Some,
{
    let comps = crate::delta_cache::components_of(full);
    let cs = crate::text::chars_of(full);
    let abs = cs.len() > 0 && cs[0] == '/';
    proof {
        assert(crate::text::texts(comps@).take(comps@.len() as int) =~= crate::text::texts(comps@));
    }
    crate::tree_ops::find_cached(scan_cache, abs, &comps, comps.len()).is_some()
}

/// Copies a stack entry.
fn copy_path(v: &Vec<String>) -> (r: Vec<String>)
    ensures
        names_view(r@) == names_view(v@),
{
    crate::browse::copy_names_pub(v.as_slice())
}

impl FlatNav {
    /// The view at the top of the browsed root, nothing entered.
    pub fn new() -> (n: FlatNav)
        ensures
            n.current_dir_path@.len() == 0,
            n.dir_stack@.len() == 0,
            n.cursor == 0,
            n.scroll_offset == 0,
    {
        FlatNav { current_dir_path: Vec::new(), dir_stack: Vec::new(), cursor: 0, scroll_offset: 0 }
    }

    /// Enters the directory under the cursor. A file, or no row, changes
    /// nothing. A directory that has a scan of its own (under its full
    /// path) becomes the browsed root: the stack and the tree path are
    /// cleared. Otherwise the shown directory goes on the stack and the
    /// entered one is shown from its top.
    pub fn enter_directory(
        &mut self,
        selected: Option<&DirEntry>,
        view_root_path: &str,
        scan_cache: &[(String, Snapshot)],
    ) -> (r: EnterOutcome)
        ensures
            match selected {
                None => r == EnterOutcome::Nothing && *final(self) == *old(self),
                Some(e) => if !e.is_dir {
                    r == EnterOutcome::Nothing && *final(self) == *old(self)
                } else {
                    let full = full_path_of(view_root_path@, names_view(e.path@));
                    if cache_position(
                        scan_cache@,
                        crate::delta_cache::is_absolute(full),
                        crate::delta_cache::components(full),
                    ) is Some {
                        &&& r matches EnterOutcome::SwitchToScan(p) && p@ == full
                        &&& final(self).dir_stack@.len() == 0
                        &&& final(self).current_dir_path@.len() == 0
                        &&& final(self).cursor == old(self).cursor
                        &&& final(self).scroll_offset == old(self).scroll_offset
                    } else {
                        &&& r == EnterOutcome::Entered
                        &&& stack_view(final(self).dir_stack@) == stack_view(old(self).dir_stack@).push(
                            names_view(old(self).current_dir_path@),
                        )
                        &&& names_view(final(self).current_dir_path@) == names_view(e.path@)
                        &&& final(self).cursor == 0
                        &&& final(self).scroll_offset == 0
                    }
                },
            },
    {
        let e = match selected {
            None => {
                return EnterOutcome::Nothing;
            },
            Some(e) => e,
        };
        if !e.is_dir {
            return EnterOutcome::Nothing;
        }
        let full = crate::browse::full_path(view_root_path, e.path.as_slice());
        if has_cached_scan(scan_cache, full.as_str()) {
            self.dir_stack = Vec::new();
            self.current_dir_path = Vec::new();
            return EnterOutcome::SwitchToScan(full);
        }
        let here = copy_path(&self.current_dir_path);
        proof {
            crate::text::lemma_map_values_push(
                self.dir_stack@,
                here,
                |v: Vec<String>| names_view(v@),
            );
        }
        self.dir_stack.push(here);
        self.current_dir_path = copy_path(&e.path);
        self.cursor = 0;
        self.scroll_offset = 0;
        EnterOutcome::Entered
    }

    /// Goes back to the directory entered before the shown one: the top of
    /// the stack, or the browsed root when the stack is empty. At the root
    /// (a tree path of at most one name) nothing changes and `false` comes
    /// back.
    pub fn go_to_parent(&mut self) -> (moved: bool)
        ensures
            moved == (old(self).current_dir_path@.len() > 1),
            !moved ==> *final(self) == *old(self),
            moved ==> {
                &&& final(self).cursor == 0
                &&& final(self).scroll_offset == 0
                &&& if old(self).dir_stack@.len() > 0 {
                    &&& stack_view(final(self).dir_stack@) == stack_view(old(self).dir_stack@).drop_last()
                    &&& names_view(final(self).current_dir_path@) == stack_view(old(self).dir_stack@).last()
                } else {
                    &&& final(self).dir_stack@.len() == 0
                    &&& final(self).current_dir_path@.len() == 0
                }
            },
    {
        if self.current_dir_path.len() <= 1 {
            return false;
        }
        let ghost before = self.dir_stack@;
        match self.dir_stack.pop() {
            Some(prev) => {
                proof {
                    assert(before =~= self.dir_stack@.push(prev));
                    crate::text::lemma_map_values_push(self.dir_stack@, prev, |v: Vec<String>| names_view(v@));
                    assert(stack_view(before).drop_last() =~= stack_view(self.dir_stack@));
                }
                self.current_dir_path = prev;
            },
            None => {
                self.current_dir_path = Vec::new();
                self.dir_stack = Vec::new();
            },
        }
        self.cursor = 0;
        self.scroll_offset = 0;
        true
    }

    /// Goes to the top of the browsed root: the stack and the tree path are
    /// cleared (loading the listing names the root again), the cursor and
    /// the scroll offset reset.
    pub fn go_to_root(&mut self)
        ensures
            final(self).dir_stack@.len() == 0,
            final(self).current_dir_path@.len() == 0,
            final(self).cursor == 0,
            final(self).scroll_offset == 0,
    {
        self.dir_stack = Vec::new();
        self.current_dir_path = Vec::new();
        self.cursor = 0;
        self.scroll_offset = 0;
    }
}

/// `e` is the row of child `c` with its review mark: the row as listed
/// (see `entry_of`), marked with the review recorded for its full path.
pub open spec fn marked_row(
    e: DirEntry,
    snap: Snapshot,
    c: NodeIndex,
    dir_path: Seq<Seq<char>>,
    cache: Seq<(String, Snapshot)>,
    view_root: Seq<char>,
    scan: Option<(Snapshot, NodeIndex)>,
    reviews: Seq<(String, RiskLevel)>,
) -> bool {
    let review = review_of(reviews, full_path_of(view_root, names_view(e.path@)));
    &&& entry_of(DirEntry { has_ai: false, ai_risk_level: None, ..e }, snap, c, dir_path, cache, view_root, scan)
    &&& e.has_ai == review is Some
    &&& e.ai_risk_level == review
}

/// `rows` are the marked rows of the listed children of `dir_idx`, in
/// child order.
pub open spec fn listing_rows(
    rows: Seq<DirEntry>,
    snap: Snapshot,
    dir_idx: NodeIndex,
    show_hidden: bool,
    dir_path: Seq<Seq<char>>,
    cache: Seq<(String, Snapshot)>,
    view_root: Seq<char>,
    reviews: Seq<(String, RiskLevel)>,
) -> bool {
    let kids = listed_children(snap, snap.children_of(dir_idx as int), show_hidden);
    let scan = match crate::tree_ops::resolved(cache, view_root) {
        Some(found) => Some((cache[found.0].1, found.1)),
        None => None,
    };
    &&& rows.len() == kids.len()
    &&& forall|i: int|
        0 <= i < rows.len() ==> marked_row(#[trigger] rows[i], snap, kids[i], dir_path, cache, view_root, scan, reviews)
}

/// `t` holds the totals of directory `d` reached by tree path `path`:
/// its size, disk usage and number of children, and its parent's size
/// (its own at the top, or when the parent cannot be found).
pub open spec fn totals_of(snap: Snapshot, root_idx: NodeIndex, path: Seq<Seq<char>>, d: NodeIndex, t: DirTotals) -> bool {
    let node = snap.nodes@[d as int];
    &&& t.dir_idx == d
    &&& t.total == node.size
    &&& t.disk_usage == node.disk_usage
    &&& t.items == snap.children_of(d as int).len()
    &&& t.parent_total == if path.len() <= 1 {
        node.size
    } else {
        match snap.path_target(root_idx as int, path.drop_last()) {
            Some(p) => snap.nodes@[p as int].size,
            None => node.size,
        }
    }
}

/// The listing of the shown directory.
pub struct Listing {
    /// The rows, in the sort order.
    pub children: Vec<DirEntry>,
    /// Indices of the rows that pass the change filter, in order.
    pub filtered: Vec<usize>,
    pub totals: DirTotals,
}

/// Loads the listing of the shown directory: an empty tree path first
/// names the shown node; the directory is found by its tree path; its
/// listed children become rows, marked with their reviews and sorted;
/// the change filter is applied and the cursor kept on a shown row.
/// `None` when the tree path leads nowhere.
pub fn load_listing(
    snap: &Snapshot,
    root_idx: NodeIndex,
    current_dir_path: &mut Vec<String>,
    show_hidden: bool,
    scan_cache: &[(String, Snapshot)],
    view_root_path: &str,
    sort_mode: SortMode,
    delta_cache: &[(Vec<String>, i64)],
    ai_analyzed: &[(String, RiskLevel)],
    filter: &DeltaFilter,
    cursor: &mut usize,
    search: &mut crate::navigation::SearchState,
) -> (r: Option<Listing>)
    requires
        snap.wf(),
        root_idx < snap.nodes@.len(),
        cache_wf(scan_cache@),
        forall|i: int| 0 <= i < delta_cache@.len() ==> (#[trigger] delta_cache@[i]).1 != i64::MIN,
        filter.active ==> filter.value * crate::ui::unit_bytes(filter.unit) <= u64::MAX,
    ensures
        final(search).search_word@.len() == 0,
        final(search).search_mode == crate::ui::SearchMode::Inactive,
        final(search).search_match_indices@.len() == 0,
        final(search).cursor == old(search).cursor,
        names_view(final(current_dir_path)@) == if old(current_dir_path)@.len() == 0 {
            seq![snap.name_of(root_idx as int)]
        } else {
            names_view(old(current_dir_path)@)
        },
        match current_dir_of(*snap, root_idx, names_view(final(current_dir_path)@)) {
            None => r is None && *final(cursor) == *old(cursor),
            Some(d) => r matches Some(l) && {
                &&& totals_of(*snap, root_idx, names_view(final(current_dir_path)@), d, l.totals)
                &&& exists|rows: Seq<DirEntry>|
                    listing_rows(
                        rows,
                        *snap,
                        d,
                        show_hidden,
                        names_view(final(current_dir_path)@),
                        scan_cache@,
                        view_root_path@,
                        ai_analyzed@,
                    ) && #[trigger] rows.to_multiset() == l.children@.to_multiset()
                &&& listed_in_order(l.children@, sort_mode, delta_cache@)
                &&& l.filtered@ == filtered_rows(l.children@, *filter, delta_cache@)
                &&& *final(cursor) == clamped_cursor(*old(cursor), l.filtered@.len())
            },
        },
{
    search.search_word = String::new();
    search.search_match_indices = Vec::new();
    search.search_mode = crate::ui::SearchMode::Inactive;
    if current_dir_path.len() == 0 {
        let root_name = crate::text::string_from(snap.name(root_idx));
        current_dir_path.push(root_name);
        proof {
            assert(names_view(current_dir_path@) =~= seq![snap.name_of(root_idx as int)]);
        }
    }
    let totals = match crate::browse::locate_current_dir(snap, root_idx, current_dir_path.as_slice()) {
        None => {
            return None;
        },
        Some(t) => t,
    };
    let ghost path = names_view(current_dir_path@);
    let ghost d = totals.dir_idx;
    proof {
        crate::tree_ops::lemma_path_target_node(*snap, root_idx as int, path);
    }
    let root_scan_tree = crate::tree_ops::resolve_scan_tree(scan_cache, view_root_path);
    let mut children = crate::browse::collect_dir_entries(
        snap,
        totals.dir_idx,
        current_dir_path.as_slice(),
        show_hidden,
        scan_cache,
        view_root_path,
        root_scan_tree,
    );
    let ghost collected = children@;
    crate::browse::mark_reviewed(&mut children, view_root_path, ai_analyzed);
    let ghost rows = children@;
    proof {
        let kids = listed_children(*snap, snap.children_of(d as int), show_hidden);
        let scan = match crate::tree_ops::resolved(scan_cache@, view_root_path@) {
            Some(found) => Some((scan_cache@[found.0].1, found.1)),
            None => None,
        };
        assert forall|i: int| 0 <= i < rows.len() implies marked_row(
            #[trigger] rows[i],
            *snap,
            kids[i],
            path,
            scan_cache@,
            view_root_path@,
            scan,
            ai_analyzed@,
        ) by {
            assert(collected[i] == DirEntry { has_ai: false, ai_risk_level: None, ..rows[i] });
        }
        assert(listing_rows(rows, *snap, d, show_hidden, path, scan_cache@, view_root_path@, ai_analyzed@));
    }
    crate::browse::sort_children(&mut children, sort_mode, delta_cache);
    let filtered = crate::browse::refresh_current_filtered(children.as_slice(), filter, delta_cache, cursor);
    Some(Listing { children, filtered, totals })
}

/// What a finished scan of `root_path` does to the view.
#[derive(Debug)]
pub struct ScanViewPlan {
    /// The scan covers the browsed root or the shown directory: rebuild.
    pub rebuild: bool,
    /// The scanned directory becomes the browsed root.
    pub new_view_root: Option<String>,
    /// After rebuilding, show this directory again.
    pub restore: Option<Vec<String>>,
}

/// The full path of the shown directory: the browsed root, or the tree
/// path below it.
pub open spec fn shown_path(view_root: Seq<char>, dir: Seq<Seq<char>>) -> Seq<char> {
    if dir.len() > 1 {
        full_path_of(view_root, dir)
    } else {
        view_root
    }
}

/// Decides what a finished scan of `root_path` does: when it is the
/// browsed root or the shown directory (compared by components) the view
/// is rebuilt; a scanned directory other than the root becomes the
/// browsed root; a rescan of the root keeps showing a directory below it.
pub fn scan_complete_plan(root_path: &str, view_root_path: &str, current_dir_path: &[String]) -> (p: ScanViewPlan)
    ensures
        p.rebuild == (same_path(root_path@, view_root_path@) || same_path(
            root_path@,
            shown_path(view_root_path@, names_view(current_dir_path@)),
        )),
        match p.new_view_root {
            Some(v) => p.rebuild && !same_path(root_path@, view_root_path@) && v@ == root_path@,
            None => !(p.rebuild && !same_path(root_path@, view_root_path@)),
        },
        match p.restore {
            Some(d) => p.rebuild && same_path(root_path@, view_root_path@) && current_dir_path@.len() > 1
                && names_view(d@) == names_view(current_dir_path@),
            None => !(p.rebuild && same_path(root_path@, view_root_path@) && current_dir_path@.len() > 1),
        },
{
    let same = crate::review_keys::path_is(root_path, view_root_path);
    let in_subdir = current_dir_path.len() > 1;
    let shown = if in_subdir {
        crate::browse::full_path(view_root_path, current_dir_path)
    } else {
        crate::text::string_from(view_root_path)
    };
    let rebuild = same || crate::review_keys::path_is(root_path, shown.as_str());
    if !rebuild {
        return ScanViewPlan { rebuild, new_view_root: None, restore: None };
    }
    let new_view_root = if !same {
        Some(crate::text::string_from(root_path))
    } else {
        None
    };
    let restore = if same && in_subdir {
        Some(crate::browse::copy_names_pub(current_dir_path))
    } else {
        None
    };
    ScanViewPlan { rebuild, new_view_root, restore }
}

} // verus!
