//! Movement in the browser: the back/forward history of visited places,
//! the cursor, search matches and the multi-selection of tree paths.
use crate::search::{fuzzy_match_indices, match_positions};
use crate::browse::full_path_of;
use crate::delta_cache::{key_eq, key_view};
use crate::tree_ops::names_view;
use crate::ui::NavPosition;
use vstd::prelude::*;

verus! {

/// Two positions name the same place with the same cursor and scroll.
pub open spec fn same_place(a: NavPosition, b: NavPosition) -> bool {
    &&& names_view(a.current_dir_path@) == names_view(b.current_dir_path@)
    &&& a.view_root_path@ == b.view_root_path@
    &&& a.cursor == b.cursor
    &&& a.scroll_offset == b.scroll_offset
}

/// Index of the current place after stepping back.
pub open spec fn after_back(idx: nat) -> nat {
    if idx == 0 {
        0
    } else {
        (idx - 1) as nat
    }
}

/// Index of the current place after stepping forward in a history of
/// `len` places.
pub open spec fn after_forward(len: nat, idx: nat) -> nat {
    if idx + 1 >= len {
        idx
    } else {
        idx + 1
    }
}

/// Visited places and the index of the current one.
pub struct NavHistory {
    pub entries: Vec<NavPosition>,
    pub idx: usize,
}

impl NavHistory {
    /// The history is empty with index 0, or the index names an entry.
    pub open spec fn wf(self) -> bool {
        if self.entries@.len() == 0 {
            self.idx == 0
        } else {
            self.idx < self.entries@.len()
        }
    }

    /// An empty history.
    pub fn new() -> (h: NavHistory)
        ensures
            h.wf(),
            h.entries@.len() == 0,
            h.idx == 0,
    {
        NavHistory { entries: Vec::new(), idx: 0 }
    }

    /// Records `pos` as the current place, dropping the places ahead of the
    /// current one.
    pub fn push_nav_history(&mut self, pos: NavPosition)
        requires
            old(self).wf(),
        ensures
            final(self).wf(),
            final(self).entries@ == old(self).entries@.take(
                if old(self).entries@.len() == 0 {
                    0
                } else {
                    old(self).idx + 1
                },
            ).push(pos),
            final(self).idx == final(self).entries@.len() - 1,
    {
        let keep = if self.entries.len() == 0 {
            0
        } else {
            self.idx + 1
        };
        self.entries.truncate(keep);
        self.entries.push(pos);
        self.idx = self.entries.len() - 1;
    }

    /// Steps back: the place to restore, or `None` at the oldest place.
    pub fn nav_back(&mut self) -> (r: Option<NavPosition>)
        requires
            old(self).wf(),
        ensures
            final(self).wf(),
            final(self).entries@ == old(self).entries@,
            final(self).idx == after_back(old(self).idx as nat),
            old(self).idx == 0 ==> r is None,
            old(self).idx > 0 ==> (r matches Some(p) && same_place(p, old(self).entries@[old(self).idx - 1])),
    {
        if self.idx == 0 {
            return None;
        }
        self.idx = self.idx - 1;
        Some(self.entries[self.idx].clone_position())
    }

    /// Steps forward: the place to restore, or `None` at the newest place.
    pub fn nav_forward(&mut self) -> (r: Option<NavPosition>)
        requires
            old(self).wf(),
        ensures
            final(self).wf(),
            final(self).entries@ == old(self).entries@,
            final(self).idx == after_forward(old(self).entries@.len(), old(self).idx as nat),
            old(self).idx + 1 >= old(self).entries@.len() ==> r is None,
            old(self).idx + 1 < old(self).entries@.len() ==> (r matches Some(p) && same_place(
                p,
                old(self).entries@[old(self).idx + 1],
            )),
    {
        let len = self.entries.len();
        if len == 0 || self.idx >= len - 1 {
            return None;
        }
        self.idx = self.idx + 1;
        Some(self.entries[self.idx].clone_position())
    }
}

impl NavPosition {
    /// A copy of the position.
    pub fn clone_position(&self) -> (p: NavPosition)
        ensures
            same_place(p, *self),
    {
        let mut path: Vec<String> = Vec::new();
        let mut i: usize = 0;
        while i < self.current_dir_path.len()
            invariant
                i <= self.current_dir_path@.len(),
                names_view(path@) == names_view(self.current_dir_path@).take(i as int),
            decreases self.current_dir_path@.len() - i,
        {
            let s = crate::text::string_from(self.current_dir_path[i].as_str());
            proof {
                crate::text::lemma_map_values_push(path@, s, |s: String| s@);
                assert(names_view(self.current_dir_path@).take(i + 1) =~= names_view(self.current_dir_path@).take(
                    i as int,
                ).push(self.current_dir_path@[i as int]@));
            }
            path.push(s);
            i = i + 1;
        }
        proof {
            assert(names_view(self.current_dir_path@).take(self.current_dir_path@.len() as int) =~= names_view(
                self.current_dir_path@,
            ));
        }
        NavPosition {
            current_dir_path: path,
            view_root_path: crate::text::string_from(self.view_root_path.as_str()),
            cursor: self.cursor,
            scroll_offset: self.scroll_offset,
        }
    }
}

/// Stepping back and then forward returns to the place that was current.
pub proof fn law_back_then_forward(len: nat, idx: nat)
    requires
        0 < idx < len,
    ensures
        after_forward(len, after_back(idx)) == idx,
{
}

/// Stepping forward and then back returns to the place that was current.
pub proof fn law_forward_then_back(len: nat, idx: nat)
    requires
        idx + 1 < len,
    ensures
        after_back(after_forward(len, idx)) == idx,
{
}

/// After recording a new place, stepping back leads to the place that was
/// current before.
pub proof fn law_push_then_back(entries: Seq<NavPosition>, idx: nat, pos: NavPosition)
    requires
        idx < entries.len(),
    ensures
        ({
            let pushed = entries.take(idx as int + 1).push(pos);
            &&& after_back((pushed.len() - 1) as nat) == idx
            &&& pushed[idx as int] == entries[idx as int]
            &&& pushed.last() == pos
        }),
{
}

/// The cursor moved by `delta` rows and kept on a row of a list of `len`
/// rows; unchanged when the list is empty.
pub open spec fn moved_cursor(cursor: int, delta: int, len: int) -> int {
    if len == 0 {
        cursor
    } else if cursor + delta < 0 {
        0
    } else if cursor + delta >= len {
        len - 1
    } else {
        cursor + delta
    }
}

/// Moves the cursor by `delta` rows within a list of `len` rows.
pub fn move_cursor(cursor: usize, delta: isize, len: usize) -> (r: usize)
    requires
        cursor <= isize::MAX,
        isize::MIN <= cursor + delta <= isize::MAX,
    ensures
        r as int == moved_cursor(cursor as int, delta as int, len as int),
{
    if len == 0 {
        return cursor;
    }
    let new_cursor = cursor as isize + delta;
    if new_cursor < 0 {
        0
    } else if new_cursor as usize >= len {
        len - 1
    } else {
        new_cursor as usize
    }
}

/// A second `g` in a row jumps to the top; a first one waits for the next.
pub fn handle_gg_double_tap(cursor: &mut usize, pending_gg: &mut bool)
    ensures
        *old(pending_gg) ==> *final(cursor) == 0 && !*final(pending_gg),
        !*old(pending_gg) ==> *final(cursor) == *old(cursor) && *final(pending_gg),
{
    if *pending_gg {
        *cursor = 0;
        *pending_gg = false;
    } else {
        *pending_gg = true;
    }
}

/// Position of the first occurrence of `x` in `s`.
pub open spec fn first_position(s: Seq<usize>, x: usize) -> Option<int>
    decreases s.len(),
{
    if s.len() == 0 {
        None
    } else if s[0] == x {
        Some(0)
    } else {
        match first_position(s.drop_first(), x) {
            Some(i) => Some(i + 1),
            None => None,
        }
    }
}

/// The row the cursor goes to when cycling through search matches: the
/// next (or previous) match after the one under the cursor, wrapping
/// around; the first (or last) match when the cursor is on none; the
/// cursor itself when there are no matches.
pub open spec fn cycled_match(matches: Seq<usize>, cursor: usize, forward: bool) -> usize {
    let n = matches.len() as int;
    if n == 0 {
        cursor
    } else {
        let next = match first_position(matches, cursor) {
            Some(p) => if forward {
                (p + 1) % n
            } else {
                (p + n - 1) % n
            },
            None => if forward {
                0
            } else {
                n - 1
            },
        };
        matches[next]
    }
}

proof fn lemma_first_position_range(s: Seq<usize>, x: usize)
    ensures
        first_position(s, x) matches Some(i) ==> 0 <= i < s.len(),
    decreases s.len(),
{
    if s.len() > 0 && s[0] != x {
        lemma_first_position_range(s.drop_first(), x);
    }
}

/// Moves the cursor to the next or previous search match.
pub fn cycle_match(matches: &[usize], cursor: usize, forward: bool) -> (r: usize)
    ensures
        r == cycled_match(matches@, cursor, forward),
{
    let n = matches.len();
    if n == 0 {
        return cursor;
    }
    let mut i: usize = 0;
    let mut pos: Option<usize> = None;
    proof {
        assert(matches@.subrange(0, n as int) =~= matches@);
    }
    while i < n
        invariant
            n == matches@.len(),
            i <= n,
            pos matches Some(q) ==> (q as int) < n && first_position(matches@, cursor) == Some(q as int),
            pos is None ==> first_position(matches@, cursor) == match first_position(matches@.subrange(i as int, n as int), cursor) {
                Some(q) => Some(q + i),
                None => None,
            },
        decreases n - i,
    {
        proof {
            assert(matches@.subrange(i as int, n as int).drop_first() =~= matches@.subrange(i + 1, n as int));
            assert(matches@.subrange(i as int, n as int)[0] == matches@[i as int]);
        }
        if pos.is_none() && matches[i] == cursor {
            pos = Some(i);
        }
        i = i + 1;
    }
    proof {
        lemma_first_position_range(matches@, cursor);
        if pos is None {
            assert(matches@.subrange(n as int, n as int).len() == 0);
        }
    }
    let next = match pos {
        Some(p) => if forward {
            proof {
                if p + 1 == n {
                    assert((p + 1) % (n as int) == 0) by (nonlinear_arith)
                        requires
                            p + 1 == n,
                    ;
                } else {
                    assert((p + 1) % (n as int) == p + 1) by (nonlinear_arith)
                        requires
                            p + 1 < n,
                    ;
                }
            }
            if p + 1 == n {
                0
            } else {
                p + 1
            }
        } else {
            proof {
                if p == 0 {
                    assert((p + n - 1) % (n as int) == n - 1) by (nonlinear_arith)
                        requires
                            p == 0,
                            n > 0,
                    ;
                } else {
                    assert((p + n - 1) % (n as int) == p - 1) by (nonlinear_arith)
                        requires
                            1 <= p < n,
                    ;
                }
            }
            if p == 0 {
                n - 1
            } else {
                p - 1
            }
        },
        None => if forward {
            0
        } else {
            n - 1
        },
    };
    matches[next]
}

/// Indices of the names that the search query matches, in order.
pub open spec fn match_rows(query: Seq<char>, names: Seq<String>) -> Seq<usize>
    decreases names.len(),
{
    if names.len() == 0 {
        Seq::empty()
    } else {
        match_rows(query, names.drop_last()) + if match_positions(query, names.last()@) is Some {
            seq![(names.len() - 1) as usize]
        } else {
            Seq::<usize>::empty()
        }
    }
}

/// Finds the rows whose names match the search query and puts the cursor
/// on the first of them, if any; returns the matching rows.
pub fn apply_search(query: &str, names: &[String], cursor: &mut usize) -> (rows: Vec<usize>)
    ensures
        rows@ == match_rows(query@, names@),
        rows@.len() > 0 ==> *final(cursor) == rows@[0],
        rows@.len() == 0 ==> *final(cursor) == *old(cursor),
{
    let mut rows: Vec<usize> = Vec::new();
    let mut i: usize = 0;
    proof {
        assert(names@.take(0) =~= Seq::<String>::empty());
    }
    while i < names.len()
        invariant
            i <= names@.len(),
            rows@ == match_rows(query@, names@.take(i as int)),
        decreases names@.len() - i,
    {
        proof {
            let t = names@.take(i + 1);
            assert(t.drop_last() =~= names@.take(i as int));
            assert(t.last() == names@[i as int]);
        }
        if fuzzy_match_indices(query, names[i].as_str()).is_some() {
            rows.push(i);
        }
        i = i + 1;
    }
    proof {
        assert(names@.take(names@.len() as int) =~= names@);
    }
    if rows.len() > 0 {
        *cursor = rows[0];
    }
    rows
}

/// `path` lies strictly below one of the selected tree paths.
pub open spec fn inherited(selected: Seq<Vec<String>>, path: Seq<Seq<char>>) -> bool {
    exists|i: int|
        0 <= i < selected.len() && key_view(#[trigger] selected[i]).len() < path.len() && path.subrange(
            0,
            key_view(selected[i]).len() as int,
        ) == key_view(selected[i])
}

/// Whether `path` is selected through one of its ancestors.
pub fn is_inherited_selection(selected: &[Vec<String>], path: &[String]) -> (b: bool)
    ensures
        b == inherited(selected@, names_view(path@)),
{
    let ghost pv = names_view(path@);
    let mut i: usize = 0;
    while i < selected.len()
        invariant
            i <= selected@.len(),
            pv == names_view(path@),
            forall|j: int|
                0 <= j < i ==> !(key_view(#[trigger] selected@[j]).len() < pv.len() && pv.subrange(
                    0,
                    key_view(selected@[j]).len() as int,
                ) == key_view(selected@[j])),
        decreases selected@.len() - i,
    {
        let p = &selected[i];
        if p.len() < path.len() {
            let mut k: usize = 0;
            let mut same = true;
            while k < p.len()
                invariant
                    p@.len() < path@.len(),
                    k <= p@.len(),
                    pv == names_view(path@),
                    same ==> forall|t: int| 0 <= t < k ==> (#[trigger] p@[t])@ == path@[t]@,
                    !same ==> pv.subrange(0, key_view(*p).len() as int) != key_view(*p),
                decreases p@.len() - k,
            {
                if same && !crate::model::str_eq(p[k].as_str(), path[k].as_str()) {
                    proof {
                        assert(pv.subrange(0, key_view(*p).len() as int)[k as int] != key_view(*p)[k as int]);
                    }
                    same = false;
                }
                k = k + 1;
            }
            if same {
                proof {
                    assert(pv.subrange(0, key_view(*p).len() as int) =~= key_view(*p));
                }
                return true;
            }
        }
        i = i + 1;
    }
    false
}

/// The selected tree paths, as a set.
pub open spec fn selection_set(selected: Seq<Vec<String>>) -> Set<Seq<Seq<char>>> {
    Set::new(|k: Seq<Seq<char>>| exists|i: int| 0 <= i < selected.len() && key_view(#[trigger] selected[i]) == k)
}

/// No tree path is selected twice.
pub open spec fn selection_distinct(selected: Seq<Vec<String>>) -> bool {
    forall|a: int, b: int| 0 <= a < b < selected.len() ==> key_view(#[trigger] selected[a]) != key_view(#[trigger] selected[b])
}

/// `after` is `before` with `path` selected, or unselected when it was
/// selected; unchanged when `path` is selected through an ancestor. No
/// path is selected twice.
pub open spec fn toggled(before: Seq<Vec<String>>, after: Seq<Vec<String>>, path: Seq<Seq<char>>) -> bool {
    &&& selection_distinct(after)
    &&& inherited(before, path) ==> after == before
    &&& !inherited(before, path) ==> selection_set(after) == if selection_set(before).contains(path) {
        selection_set(before).remove(path)
    } else {
        selection_set(before).insert(path)
    }
}

/// Selects `path`, or unselects it when it is selected; nothing changes
/// when it is selected through an ancestor.
pub fn toggle_selection(selected: &mut Vec<Vec<String>>, path: &[String])
    requires
        selection_distinct(old(selected)@),
    ensures
        toggled(old(selected)@, final(selected)@, names_view(path@)),
{
    if is_inherited_selection(selected.as_slice(), path) {
        return;
    }
    let ghost orig = selected@;
    let ghost pv = names_view(path@);
    let key = crate::browse::copy_names_pub(path);
    let mut i: usize = 0;
    while i < selected.len()
        invariant
            selected@ == orig,
            orig == old(selected)@,
            pv == names_view(path@),
            !inherited(orig, pv),
            selection_distinct(orig),
            i <= orig.len(),
            key_view(key) == pv,
            forall|j: int| 0 <= j < i ==> key_view(#[trigger] orig[j]) != pv,
        decreases orig.len() - i,
    {
        if key_eq(&selected[i], &key) {
            selected.remove(i);
            proof {
                orig.remove_ensures(i as int);
                let rem = orig.remove(i as int);
                assert(selected@ == rem);
                assert forall|a: int, b: int| 0 <= a < b < selected@.len() implies key_view(#[trigger] selected@[a]) != key_view(
                    #[trigger] selected@[b],
                ) by {
                    let oa = if a < i { a } else { a + 1 };
                    let ob = if b < i { b } else { b + 1 };
                    assert(rem[a] == orig[oa]);
                    assert(rem[b] == orig[ob]);
                }
                assert forall|k: Seq<Seq<char>>| #[trigger] selection_set(selected@).contains(k) == selection_set(orig).remove(pv).contains(k) by {
                    if selection_set(orig).remove(pv).contains(k) {
                        let w = choose|w: int| 0 <= w < orig.len() && key_view(#[trigger] orig[w]) == k;
                        assert(w != i);
                        let nw = if w < i { w } else { w - 1 };
                        assert(rem[nw] == orig[w]);
                    }
                    if selection_set(selected@).contains(k) {
                        let w = choose|w: int| 0 <= w < selected@.len() && key_view(#[trigger] selected@[w]) == k;
                        let ow = if w < i { w } else { w + 1 };
                        assert(rem[w] == orig[ow]);
                        assert(ow != i);
                    }
                }
                assert(selection_set(orig).contains(pv)) by {
                    assert(key_view(orig[i as int]) == pv);
                }
                assert(selection_set(selected@) =~= selection_set(orig).remove(pv));
            }
            return;
        }
        i = i + 1;
    }
    selected.push(key);
    proof {
        assert forall|a: int, b: int| 0 <= a < b < selected@.len() implies key_view(#[trigger] selected@[a]) != key_view(
            #[trigger] selected@[b],
        ) by {
            if b == orig.len() {
                assert(selected@[a] == orig[a]);
            } else {
                assert(selected@[a] == orig[a]);
                assert(selected@[b] == orig[b]);
            }
        }
        assert(!selection_set(orig).contains(pv));
        assert forall|k: Seq<Seq<char>>| #[trigger] selection_set(selected@).contains(k) == selection_set(orig).insert(pv).contains(k) by {
            if selection_set(orig).contains(k) {
                let w = choose|w: int| 0 <= w < orig.len() && key_view(#[trigger] orig[w]) == k;
                assert(selected@[w] == orig[w]);
            }
            if k == pv {
                assert(key_view(selected@[orig.len() as int]) == pv);
            }
            if selection_set(selected@).contains(k) {
                let w = choose|w: int| 0 <= w < selected@.len() && key_view(#[trigger] selected@[w]) == k;
                if w < orig.len() {
                    assert(selected@[w] == orig[w]);
                }
            }
        }
        assert(selection_set(selected@) =~= selection_set(orig).insert(pv));
    }
}

/// Full paths of the selected tree paths, in selection order.
pub fn selected_paths_full(view_root_path: &str, selected: &[Vec<String>]) -> (paths: Vec<String>)
    ensures
        paths@.len() == selected@.len(),
        forall|i: int| 0 <= i < selected@.len() ==> (#[trigger] paths@[i])@ == full_path_of(view_root_path@, key_view(selected@[i])),
{
    let mut paths: Vec<String> = Vec::new();
    let mut i: usize = 0;
    while i < selected.len()
        invariant
            i <= selected@.len(),
            paths@.len() == i,
            forall|j: int| 0 <= j < i ==> (#[trigger] paths@[j])@ == full_path_of(view_root_path@, key_view(selected@[j])),
        decreases selected@.len() - i,
    {
        let p = crate::browse::full_path(view_root_path, selected[i].as_slice());
        proof {
            assert(names_view(selected@[i as int]@) == key_view(selected@[i as int]));
        }
        paths.push(p);
        i = i + 1;
    }
    paths
}

/// A key pressed while searching.
#[derive(Debug, Clone, Copy, PartialEq, Eq, Structural)]
pub enum SearchKey {
    Char(char),
    Backspace,
    Enter,
    Esc,
    Other,
}

/// The tree search: the word, its mode, the matching rows and the cursor.
pub struct SearchState {
    pub search_word: String,
    pub search_mode: crate::ui::SearchMode,
    pub search_match_indices: Vec<usize>,
    pub cursor: usize,
}

/// What a search key did: whether it was taken by the search, and whether
/// the listing must be filtered again.
#[derive(Debug, Clone, Copy, PartialEq, Eq, Structural)]
pub struct SearchKeyOutcome {
    pub consumed: bool,
    pub refresh: bool,
}

/// `new` holds the search for `word` over `names`: for a non-empty word
/// the matching rows, with the cursor on the first of them if any; for an
/// empty word no rows and the cursor unchanged.
pub open spec fn searched(old: SearchState, new: SearchState, word: Seq<char>, names: Seq<String>) -> bool {
    &&& new.search_word@ == word
    &&& if word.len() == 0 {
        new.search_match_indices@.len() == 0 && new.cursor == old.cursor
    } else {
        let rows = match_rows(word, names);
        &&& new.search_match_indices@ == rows
        &&& new.cursor == if rows.len() > 0 {
            rows[0]
        } else {
            old.cursor
        }
    }
}

/// What the search key `key` did to the search `old`, giving `new`.
pub open spec fn search_step(old: SearchState, new: SearchState, key: SearchKey, names: Seq<String>) -> bool {
    let kept = new.search_word@ == old.search_word@ && new.search_match_indices@ == old.search_match_indices@;
    match old.search_mode {
        crate::ui::SearchMode::Input => match key {
            SearchKey::Char(c) => new.search_mode == old.search_mode && searched(old, new, old.search_word@.push(c), names),
            SearchKey::Backspace => {
                let w = if old.search_word@.len() > 0 {
                    old.search_word@.drop_last()
                } else {
                    old.search_word@
                };
                &&& new.search_mode == old.search_mode
                &&& if w.len() == 0 {
                    &&& new.search_word@ == w
                    &&& new.search_match_indices@ == old.search_match_indices@
                    &&& new.cursor == old.cursor
                } else {
                    searched(old, new, w, names)
                }
            },
            SearchKey::Enter => if old.search_word@.len() == 0 {
                new.search_mode == crate::ui::SearchMode::Inactive && kept && new.cursor == old.cursor
            } else {
                new.search_mode == crate::ui::SearchMode::Active && searched(old, new, old.search_word@, names)
            },
            SearchKey::Esc => {
                &&& new.search_mode == crate::ui::SearchMode::Inactive
                &&& new.search_word@.len() == 0
                &&& new.search_match_indices@ == old.search_match_indices@
                &&& new.cursor == old.cursor
            },
            SearchKey::Other => new.search_mode == old.search_mode && kept && new.cursor == old.cursor,
        },
        crate::ui::SearchMode::Active => if key == SearchKey::Char('n') || key == SearchKey::Char('N') {
            &&& kept
            &&& new.search_mode == old.search_mode
            &&& new.cursor == cycled_match(old.search_match_indices@, old.cursor, key == SearchKey::Char('n'))
        } else if key == SearchKey::Char('/') || key == SearchKey::Esc {
            &&& new.search_word@.len() == 0
            &&& new.search_match_indices@ == old.search_match_indices@
            &&& new.cursor == old.cursor
            &&& new.search_mode == if key == SearchKey::Esc {
                crate::ui::SearchMode::Inactive
            } else {
                crate::ui::SearchMode::Input
            }
        } else {
            kept && new.search_mode == old.search_mode && new.cursor == old.cursor
        },
        crate::ui::SearchMode::Inactive => kept && new.search_mode == old.search_mode && new.cursor == old.cursor,
    }
}

/// Whether the search takes the key, and whether the listing is to be
/// filtered again: while the word is typed every key is taken (all but
/// unknown keys change it); while matches are shown Esc is taken, and
/// '/' and Esc change the word; outside a search nothing happens.
pub open spec fn search_outcome(mode: crate::ui::SearchMode, key: SearchKey) -> SearchKeyOutcome {
    match mode {
        crate::ui::SearchMode::Input => SearchKeyOutcome { consumed: true, refresh: key != SearchKey::Other },
        crate::ui::SearchMode::Active => SearchKeyOutcome {
            consumed: key == SearchKey::Esc,
            refresh: key == SearchKey::Char('/') || key == SearchKey::Esc,
        },
        crate::ui::SearchMode::Inactive => SearchKeyOutcome { consumed: false, refresh: false },
    }
}

impl SearchState {
    /// Searches the word over the rows' names (`App::apply_search`).
    pub fn apply_search(&mut self, names: &[String])
        ensures
            searched(*old(self), *final(self), old(self).search_word@, names@),
            final(self).search_mode == old(self).search_mode,
    {
        let empty = self.search_word.as_str().is_empty();
        proof {
            if !empty {
                assert(self.search_word@.len() > 0);
            }
        }
        if empty {
            self.search_match_indices = Vec::new();
            return;
        }
        let rows = apply_search(self.search_word.as_str(), names, &mut self.cursor);
        self.search_match_indices = rows;
    }

    /// Handles a key during a search: typing, erasing, confirming with
    /// Enter and leaving with Esc while the word is typed; while matches are
    /// shown, 'n' and 'N' move between them, '/' starts a new word and Esc
    /// ends the search. Keys outside a search are not taken.
    pub fn handle_search_keys(&mut self, key: SearchKey, names: &[String]) -> (r: SearchKeyOutcome)
        ensures
            r == search_outcome(old(self).search_mode, key),
            search_step(*old(self), *final(self), key, names@),
    {
        match self.search_mode {
            crate::ui::SearchMode::Input => {
                match key {
                    SearchKey::Char(c) => {
                        crate::text::push_char(&mut self.search_word, c);
                        self.apply_search(names);
                    },
                    SearchKey::Backspace => {
                        let cs = crate::text::chars_of(self.search_word.as_str());
                        let keep = if cs.len() > 0 {
                            cs.len() - 1
                        } else {
                            0
                        };
                        self.search_word = crate::text::string_of(vstd::slice::slice_subrange(cs.as_slice(), 0, keep));
                        proof {
                            if cs@.len() > 0 {
                                assert(self.search_word@ =~= cs@.drop_last());
                            } else {
                                assert(self.search_word@ =~= cs@);
                            }
                        }
                        let empty = self.search_word.as_str().is_empty();
                        proof {
                            if !empty {
                                assert(self.search_word@.len() > 0);
                            }
                        }
                        if !empty {
                            self.apply_search(names);
                        }
                    },
                    SearchKey::Enter => {
                        let empty = self.search_word.as_str().is_empty();
                        proof {
                            if !empty {
                                assert(self.search_word@.len() > 0);
                            }
                        }
                        if empty {
                            self.search_mode = crate::ui::SearchMode::Inactive;
                        } else {
                            self.apply_search(names);
                            self.search_mode = crate::ui::SearchMode::Active;
                        }
                    },
                    SearchKey::Esc => {
                        self.search_word = String::new();
                        self.search_mode = crate::ui::SearchMode::Inactive;
                    },
                    SearchKey::Other => {
                        return SearchKeyOutcome { consumed: true, refresh: false };
                    },
                }
                SearchKeyOutcome { consumed: true, refresh: true }
            },
            crate::ui::SearchMode::Active => {
                if key == SearchKey::Char('n') || key == SearchKey::Char('N') {
                    self.cursor = cycle_match(self.search_match_indices.as_slice(), self.cursor, key == SearchKey::Char('n'));
                    SearchKeyOutcome { consumed: false, refresh: false }
                } else if key == SearchKey::Char('/') {
                    self.search_word = String::new();
                    self.search_mode = crate::ui::SearchMode::Input;
                    SearchKeyOutcome { consumed: false, refresh: true }
                } else if key == SearchKey::Esc {
                    self.search_word = String::new();
                    self.search_mode = crate::ui::SearchMode::Inactive;
                    SearchKeyOutcome { consumed: true, refresh: true }
                } else {
                    SearchKeyOutcome { consumed: false, refresh: false }
                }
            },
            crate::ui::SearchMode::Inactive => SearchKeyOutcome { consumed: false, refresh: false },
        }
    }
}

/// A key pressed in a help popup.
#[derive(Debug, Clone, Copy, PartialEq, Eq, Structural)]
pub enum PopupKey {
    Char(char),
    Up,
    Down,
    Esc,
    Other,
}

/// Help popup: '?' or Esc goes back to browsing; other keys do nothing.
pub fn handle_help_key(key: PopupKey, mode: &mut crate::ui::AppMode)
    ensures
        *final(mode) == if key == PopupKey::Char('?') || key == PopupKey::Esc {
            crate::ui::AppMode::Browsing
        } else {
            *old(mode)
        },
{
    if key == PopupKey::Char('?') || key == PopupKey::Esc {
        *mode = crate::ui::AppMode::Browsing;
    }
}

/// Time-help popup: Esc goes back to browsing at the top; 'j' or Down
/// scrolls down, 'k' or Up scrolls up (not past the top).
pub fn handle_time_help_key(key: PopupKey, mode: &mut crate::ui::AppMode, scroll: &mut usize)
    ensures
        key == PopupKey::Esc ==> *final(mode) == crate::ui::AppMode::Browsing && *final(scroll) == 0,
        (key == PopupKey::Char('j') || key == PopupKey::Down) ==> *final(mode) == *old(mode) && *final(scroll) == if *old(scroll)
            == usize::MAX {
            usize::MAX
        } else {
            (*old(scroll) + 1) as usize
        },
        (key == PopupKey::Char('k') || key == PopupKey::Up) ==> *final(mode) == *old(mode) && *final(scroll) == if *old(scroll)
            == 0 {
            0
        } else {
            (*old(scroll) - 1) as usize
        },
        !(key == PopupKey::Esc || key == PopupKey::Char('j') || key == PopupKey::Down || key == PopupKey::Char('k') || key
            == PopupKey::Up) ==> *final(mode) == *old(mode) && *final(scroll) == *old(scroll),
{
    if key == PopupKey::Esc {
        *mode = crate::ui::AppMode::Browsing;
        *scroll = 0;
    } else if key == PopupKey::Char('j') || key == PopupKey::Down {
        *scroll = scroll.saturating_add(1);
    } else if key == PopupKey::Char('k') || key == PopupKey::Up {
        *scroll = scroll.saturating_sub(1);
    }
}

} // verus!
