//! The keys of the main browsing view: what each key changes in the
//! view's state, and what it asks the surrounding program to do.
use crate::display::FilterFocus;
use crate::navigation::{
    handle_gg_double_tap, move_cursor, moved_cursor, search_outcome, search_step, selection_distinct, toggle_selection,
    toggled, SearchKey, SearchState,
};
use crate::tree_ops::names_view;
use crate::ui::{next_sort, AppMode, SearchMode, SortMode};
use vstd::prelude::*;

verus! {

/// A key pressed while browsing; Ctrl-C is told apart from 'c'.
#[derive(Debug, Clone, Copy, PartialEq, Eq, Structural)]
pub enum BrowseKey {
    Char(char),
    CtrlC,
    Up,
    Down,
    Left,
    Right,
    Enter,
    Esc,
    Tab,
    Backspace,
    Other,
}

/// What the browsing keys read of the screen: whether a flat listing is
/// shown, the number of rows the cursor moves over, the number of tree
/// lines, whether a scan runs, whether a server is attached, the rows of
/// the open change-detail popup and whether they overflow it, and whether
/// the info popup is open.
#[derive(Debug, Clone, Copy)]
pub struct BrowseView {
    pub flat: bool,
    pub rows: usize,
    pub tree_lines: usize,
    pub scanning: bool,
    pub server_mode: bool,
    pub detail_rows: Option<usize>,
    pub detail_overflows: bool,
    pub info_open: bool,
}

/// The state the browsing keys change.
pub struct BrowseState {
    /// The search, and the cursor.
    pub search: SearchState,
    pub selected_paths: Vec<Vec<String>>,
    pub multi_select: bool,
    pub pending_gg: bool,
    pub show_hidden: bool,
    pub sort_mode: SortMode,
    pub mode: AppMode,
    /// The filter pane has the focus.
    pub filter_pane: bool,
    pub filter_focus: FilterFocus,
    pub should_quit: bool,
    /// Scroll offset of the change-detail popup.
    pub detail_scroll: usize,
}

/// What the surrounding program does after a browsing key.
#[derive(Debug, Clone, Copy, PartialEq, Eq, Structural)]
pub enum BrowseAction {
    Nothing,
    CancelScan,
    /// Hand the key to the filter pane.
    FilterPaneKey,
    /// The search took the key; filter the listing again when `true`.
    Searched(bool),
    /// Ask to delete the selected rows (permanently when `true`).
    MultiDelete(bool),
    /// Ask to delete the row under the cursor (permanently when `true`).
    Delete(bool),
    EnterDirectory,
    GoToParent,
    GoToRoot,
    ExpandNode,
    CollapseOrUp,
    CollapseAll,
    NavigateUpRoot,
    StartScan,
    /// Hidden files were switched on or off: rebuild the lines.
    HiddenToggled,
    SetRootToSelected,
    /// The sort mode changed: sort again.
    Resort,
    /// The command line opened: reset it.
    OpenCommandLine,
    TimeToggle,
    Reconnect,
    InfoPopup,
    DetailPopup,
    CopyPath,
    ClearFilterPane,
    CloseInfo,
    CloseDetail,
    /// Close the info and change-detail popups.
    ClosePopups,
}

/// The key as the search sees it.
pub open spec fn search_key_of(key: BrowseKey) -> SearchKey {
    match key {
        BrowseKey::Char(c) => SearchKey::Char(c),
        BrowseKey::CtrlC => SearchKey::Char('c'),
        BrowseKey::Backspace => SearchKey::Backspace,
        BrowseKey::Enter => SearchKey::Enter,
        BrowseKey::Esc => SearchKey::Esc,
        _ => SearchKey::Other,
    }
}

fn search_key(key: BrowseKey) -> (k: SearchKey)
    ensures
        k == search_key_of(key),
{
    match key {
        BrowseKey::Char(c) => SearchKey::Char(c),
        BrowseKey::CtrlC => SearchKey::Char('c'),
        BrowseKey::Backspace => SearchKey::Backspace,
        BrowseKey::Enter => SearchKey::Enter,
        BrowseKey::Esc => SearchKey::Esc,
        _ => SearchKey::Other,
    }
}

/// `n` is `base` with multi-select left (and the selection emptied) when
/// it was on.
pub open spec fn left_multi(base: BrowseState, n: BrowseState) -> bool {
    if base.multi_select {
        n == BrowseState { multi_select: false, selected_paths: n.selected_paths, ..base } && n.selected_paths@.len()
            == 0
    } else {
        n == base
    }
}

/// `o` with the cursor at `c`.
pub open spec fn at_cursor(o: BrowseState, c: int) -> BrowseState {
    BrowseState { search: SearchState { cursor: c as usize, ..o.search }, ..o }
}

/// A key of the change-detail popup: j/Down and k/Up scroll it (when its
/// rows overflow it, never past the last row or above the first); Esc
/// and 'q' close it.
pub open spec fn detail_step(o: BrowseState, n: BrowseState, rows: usize, overflows: bool, key: BrowseKey, r: BrowseAction) -> bool {
    if key == BrowseKey::Char('j') || key == BrowseKey::Down {
        n == BrowseState {
            detail_scroll: if overflows && o.detail_scroll + 1 < rows {
                (o.detail_scroll + 1) as usize
            } else {
                o.detail_scroll
            },
            ..o
        } && r == BrowseAction::Nothing
    } else if key == BrowseKey::Char('k') || key == BrowseKey::Up {
        n == BrowseState {
            detail_scroll: if overflows && o.detail_scroll > 0 {
                (o.detail_scroll - 1) as usize
            } else if overflows {
                0
            } else {
                o.detail_scroll
            },
            ..o
        } && r == BrowseAction::Nothing
    } else if key == BrowseKey::Esc || key == BrowseKey::Char('q') {
        n == o && r == BrowseAction::CloseDetail
    } else {
        n == o && r == BrowseAction::Nothing
    }
}

/// Tab, and in multi-select Esc, 'd' and 'D': Tab starts multi-select
/// (unless there are no tree lines) and toggles the row under the cursor,
/// then moves down; Esc leaves multi-select; 'd' and 'D' ask to delete
/// the selection.
pub open spec fn multi_step(
    o: BrowseState,
    n: BrowseState,
    v: BrowseView,
    key: BrowseKey,
    path: Option<Seq<Seq<char>>>,
    r: BrowseAction,
) -> bool {
    if key == BrowseKey::Tab {
        if !o.multi_select && v.tree_lines == 0 {
            n == BrowseState { pending_gg: false, ..o } && r == BrowseAction::Nothing
        } else {
            &&& match path {
                Some(p) => toggled(o.selected_paths@, n.selected_paths@, p),
                None => n.selected_paths == o.selected_paths,
            }
            &&& n == BrowseState {
                selected_paths: n.selected_paths,
                multi_select: true,
                pending_gg: false,
                ..at_cursor(o, moved_cursor(o.search.cursor as int, 1, v.rows as int))
            }
            &&& r == BrowseAction::Nothing
        }
    } else if key == BrowseKey::Esc {
        &&& n == BrowseState { multi_select: false, selected_paths: n.selected_paths, pending_gg: false, ..o }
        &&& n.selected_paths@.len() == 0
        &&& r == BrowseAction::Nothing
    } else {
        n == BrowseState { pending_gg: false, ..o } && r == BrowseAction::MultiDelete(key == BrowseKey::Char('D'))
    }
}

/// The cursor and directory keys (see `is_move_key`).
pub open spec fn move_step(o: BrowseState, n: BrowseState, v: BrowseView, key: BrowseKey, r: BrowseAction) -> bool {
    let reset = BrowseState { pending_gg: false, ..o };
    if key == BrowseKey::Char('j') || key == BrowseKey::Down {
        n == at_cursor(reset, moved_cursor(o.search.cursor as int, 1, v.rows as int)) && r == BrowseAction::Nothing
    } else if key == BrowseKey::Char('k') || key == BrowseKey::Up {
        n == at_cursor(reset, moved_cursor(o.search.cursor as int, -1, v.rows as int)) && r == BrowseAction::Nothing
    } else if key == BrowseKey::Char('g') {
        n == BrowseState {
            pending_gg: !o.pending_gg,
            ..at_cursor(
                o,
                if o.pending_gg {
                    0
                } else {
                    o.search.cursor as int
                },
            )
        } && r == BrowseAction::Nothing
    } else if key == BrowseKey::Char('G') {
        n == at_cursor(
            reset,
            if v.rows > 0 {
                v.rows - 1
            } else {
                o.search.cursor as int
            },
        ) && r == BrowseAction::Nothing
    } else if key == BrowseKey::Char('l') || key == BrowseKey::Right {
        n == reset && r == if v.flat {
            BrowseAction::EnterDirectory
        } else {
            BrowseAction::ExpandNode
        }
    } else if key == BrowseKey::Char('h') || key == BrowseKey::Left {
        n == reset && r == if v.flat {
            BrowseAction::GoToParent
        } else {
            BrowseAction::CollapseOrUp
        }
    } else if key == BrowseKey::Char('H') {
        n == reset && r == if v.flat {
            BrowseAction::GoToRoot
        } else {
            BrowseAction::CollapseAll
        }
    } else if key == BrowseKey::Char('u') {
        n == reset && r == if v.flat {
            BrowseAction::GoToRoot
        } else {
            BrowseAction::NavigateUpRoot
        }
    } else if key == BrowseKey::Enter && o.search.search_word@.len() > 0 {
        n == BrowseState { search: SearchState { search_mode: SearchMode::Input, ..o.search }, ..reset } && r
            == BrowseAction::Nothing
    } else {
        n == reset && r == BrowseAction::Nothing
    }
}

/// The other keys of the browsing view.
pub open spec fn command_step(o: BrowseState, n: BrowseState, v: BrowseView, key: BrowseKey, r: BrowseAction) -> bool {
    let reset = BrowseState { pending_gg: false, ..o };
    if key == BrowseKey::Char('s') {
        left_multi(reset, n) && r == BrowseAction::StartScan
    } else if key == BrowseKey::Char('.') {
        n == BrowseState { show_hidden: !o.show_hidden, ..reset } && r == BrowseAction::HiddenToggled
    } else if key == BrowseKey::Char('w') {
        n == reset && r == if v.flat {
            BrowseAction::Nothing
        } else {
            BrowseAction::SetRootToSelected
        }
    } else if key == BrowseKey::Char('o') {
        left_multi(BrowseState { sort_mode: next_sort(o.sort_mode), ..reset }, n) && r == BrowseAction::Resort
    } else if key == BrowseKey::Char('d') || key == BrowseKey::Char('D') {
        n == reset && r == BrowseAction::Delete(key == BrowseKey::Char('D'))
    } else if key == BrowseKey::Char('?') {
        n == BrowseState { mode: AppMode::Help, ..reset } && r == BrowseAction::Nothing
    } else if key == BrowseKey::Char(':') {
        n == BrowseState { mode: AppMode::Command, ..reset } && r == BrowseAction::OpenCommandLine
    } else if key == BrowseKey::Char('t') && v.server_mode {
        left_multi(reset, n) && r == BrowseAction::TimeToggle
    } else if key == BrowseKey::Char('R') && !v.server_mode {
        n == reset && r == BrowseAction::Reconnect
    } else if key == BrowseKey::Char('i') {
        n == reset && r == BrowseAction::InfoPopup
    } else if key == BrowseKey::Char('K') {
        n == reset && r == BrowseAction::DetailPopup
    } else if key == BrowseKey::Char('q') {
        if v.info_open {
            n == reset && r == BrowseAction::CloseInfo
        } else {
            n == BrowseState { should_quit: true, ..reset } && r == BrowseAction::Nothing
        }
    } else if key == BrowseKey::Char('y') {
        n == reset && r == BrowseAction::CopyPath
    } else if key == BrowseKey::Char('f') && v.server_mode {
        left_multi(BrowseState { filter_pane: true, filter_focus: FilterFocus::TimePreset, ..reset }, n) && r
            == BrowseAction::Nothing
    } else if key == BrowseKey::CtrlC {
        n == BrowseState { should_quit: true, ..reset } && r == BrowseAction::Nothing
    } else if key == BrowseKey::Char('c') {
        left_multi(reset, n) && r == BrowseAction::ClearFilterPane
    } else if key == BrowseKey::Esc {
        n == reset && r == BrowseAction::ClosePopups
    } else {
        n == reset && r == BrowseAction::Nothing
    }
}

/// The cursor and directory keys: j/k and the arrows, g, G, l/h/H/u,
/// and Enter over a typed search word.
pub open spec fn is_move_key(o: BrowseState, key: BrowseKey) -> bool {
    ||| key == BrowseKey::Char('j') || key == BrowseKey::Down || key == BrowseKey::Char('k') || key == BrowseKey::Up
    ||| key == BrowseKey::Char('g') || key == BrowseKey::Char('G')
    ||| key == BrowseKey::Char('l') || key == BrowseKey::Right || key == BrowseKey::Char('h') || key == BrowseKey::Left
    ||| key == BrowseKey::Char('H') || key == BrowseKey::Char('u')
    ||| key == BrowseKey::Enter && o.search.search_word@.len() > 0
}

/// The key map of the browsing view, after popups, scans, the filter
/// pane, the search and multi-select had their turn; every key but 'g'
/// ends a pending "gg".
pub open spec fn main_step(o: BrowseState, n: BrowseState, v: BrowseView, key: BrowseKey, r: BrowseAction) -> bool {
    if is_move_key(o, key) {
        move_step(o, n, v, key, r)
    } else {
        command_step(o, n, v, key, r)
    }
}

/// The key takes the multi-select path: Tab always, and Esc, 'd' and 'D'
/// in multi-select.
pub open spec fn multi_key(o: BrowseState, key: BrowseKey) -> bool {
    key == BrowseKey::Tab || (o.multi_select && (key == BrowseKey::Esc || key == BrowseKey::Char('d') || key
        == BrowseKey::Char('D')))
}

/// The whole browsing key map: an open change-detail popup takes every
/// key; during a scan only Esc counts (it cancels the scan); the filter
/// pane takes every key (leaving multi-select); the search takes what it
/// takes ('n', 'N' and '/' over shown matches go no further); '/' starts
/// a search; then multi-select and the key map.
pub open spec fn browse_step(
    o: BrowseState,
    n: BrowseState,
    v: BrowseView,
    key: BrowseKey,
    path: Option<Seq<Seq<char>>>,
    names: Seq<String>,
    r: BrowseAction,
) -> bool {
    let sk = search_key_of(key);
    let mode = o.search.search_mode;
    if v.detail_rows is Some {
        detail_step(o, n, v.detail_rows->0, v.detail_overflows, key, r)
    } else if v.scanning {
        n == o && r == if key == BrowseKey::Esc {
            BrowseAction::CancelScan
        } else {
            BrowseAction::Nothing
        }
    } else if o.filter_pane {
        left_multi(o, n) && r == BrowseAction::FilterPaneKey
    } else if search_outcome(mode, sk).consumed {
        &&& n == BrowseState { search: n.search, ..o }
        &&& search_step(o.search, n.search, sk, names)
        &&& r == BrowseAction::Searched(search_outcome(mode, sk).refresh)
    } else if mode == SearchMode::Active && (sk == SearchKey::Char('n') || sk == SearchKey::Char('N') || sk
        == SearchKey::Char('/')) {
        &&& n == BrowseState { search: n.search, pending_gg: false, ..o }
        &&& search_step(o.search, n.search, sk, names)
        &&& r == if sk == SearchKey::Char('/') {
            BrowseAction::Searched(true)
        } else {
            BrowseAction::Nothing
        }
    } else if mode == SearchMode::Inactive && key == BrowseKey::Char('/') {
        n == BrowseState { search: SearchState { search_mode: SearchMode::Input, ..o.search }, ..o } && r
            == BrowseAction::Nothing
    } else if multi_key(o, key) {
        multi_step(o, n, v, key, path, r)
    } else {
        main_step(o, n, v, key, r)
    }
}

impl BrowseState {
    /// The view at start: no search, nothing selected, sorted by size,
    /// browsing, the tree focused.
    pub fn new() -> (s: BrowseState)
        ensures
            s.search.search_word@.len() == 0,
            s.search.search_mode == SearchMode::Inactive,
            s.search.search_match_indices@.len() == 0,
            s.search.cursor == 0,
            s.selected_paths@.len() == 0,
            !s.multi_select && !s.pending_gg && !s.show_hidden && !s.filter_pane && !s.should_quit,
            s.sort_mode == SortMode::Size,
            s.mode == AppMode::Browsing,
            s.filter_focus == FilterFocus::TimePreset,
            s.detail_scroll == 0,
    {
        BrowseState {
            search: SearchState {
                search_word: String::new(),
                search_mode: SearchMode::Inactive,
                search_match_indices: Vec::new(),
                cursor: 0,
            },
            selected_paths: Vec::new(),
            multi_select: false,
            pending_gg: false,
            show_hidden: false,
            sort_mode: SortMode::Size,
            mode: AppMode::Browsing,
            filter_pane: false,
            filter_focus: FilterFocus::TimePreset,
            should_quit: false,
            detail_scroll: 0,
        }
    }

    /// After a deletion finished: back to browsing, multi-select left and
    /// the selection emptied.
    pub fn deletion_done(&mut self)
        ensures
            final(self).selected_paths@.len() == 0,
            *final(self) == (BrowseState {
                mode: AppMode::Browsing,
                multi_select: false,
                selected_paths: final(self).selected_paths,
                ..*old(self)
            }),
    {
        self.mode = AppMode::Browsing;
        self.multi_select = false;
        self.selected_paths = Vec::new();
    }

    /// Leaves multi-select, emptying the selection, when it is on.
    fn leave_multi(&mut self)
        ensures
            left_multi(*old(self), *final(self)),
    {
        if self.multi_select {
            self.multi_select = false;
            self.selected_paths = Vec::new();
        }
    }

    fn detail_key(&mut self, rows: usize, overflows: bool, key: BrowseKey) -> (r: BrowseAction)
        ensures
            detail_step(*old(self), *final(self), rows, overflows, key, r),
    {
        if key == BrowseKey::Char('j') || key == BrowseKey::Down {
            if overflows && rows > 0 && self.detail_scroll < rows - 1 {
                self.detail_scroll = self.detail_scroll + 1;
            }
            BrowseAction::Nothing
        } else if key == BrowseKey::Char('k') || key == BrowseKey::Up {
            if overflows {
                self.detail_scroll = if self.detail_scroll > 0 {
                    self.detail_scroll - 1
                } else {
                    0
                };
            }
            BrowseAction::Nothing
        } else if key == BrowseKey::Esc || key == BrowseKey::Char('q') {
            BrowseAction::CloseDetail
        } else {
            BrowseAction::Nothing
        }
    }

    fn multi_select_key(&mut self, v: BrowseView, key: BrowseKey, path: Option<&[String]>) -> (r: BrowseAction)
        requires
            multi_key(*old(self), key),
            selection_distinct(old(self).selected_paths@),
            old(self).search.cursor < isize::MAX,
            v.rows < isize::MAX,
        ensures
            multi_step(
                *old(self),
                *final(self),
                v,
                key,
                match path {
                    Some(p) => Some(names_view(p@)),
                    None => None,
                },
                r,
            ),
    {
        if key == BrowseKey::Tab {
            if !self.multi_select && v.tree_lines == 0 {
                self.pending_gg = false;
                return BrowseAction::Nothing;
            }
            self.multi_select = true;
            match path {
                Some(p) => toggle_selection(&mut self.selected_paths, p),
                None => {},
            }
            self.search.cursor = move_cursor(self.search.cursor, 1, v.rows);
            self.pending_gg = false;
            return BrowseAction::Nothing;
        }
        if key == BrowseKey::Esc {
            self.multi_select = false;
            self.selected_paths = Vec::new();
            self.pending_gg = false;
            return BrowseAction::Nothing;
        }
        self.pending_gg = false;
        BrowseAction::MultiDelete(key == BrowseKey::Char('D'))
    }

    fn move_key(&mut self, v: BrowseView, key: BrowseKey) -> (r: BrowseAction)
        requires
            old(self).search.cursor < isize::MAX,
            v.rows < isize::MAX,
        ensures
            move_step(*old(self), *final(self), v, key, r),
    {
        let r = if key == BrowseKey::Char('j') || key == BrowseKey::Down {
            self.search.cursor = move_cursor(self.search.cursor, 1, v.rows);
            BrowseAction::Nothing
        } else if key == BrowseKey::Char('k') || key == BrowseKey::Up {
            self.search.cursor = move_cursor(self.search.cursor, -1, v.rows);
            BrowseAction::Nothing
        } else if key == BrowseKey::Char('g') {
            handle_gg_double_tap(&mut self.search.cursor, &mut self.pending_gg);
            return BrowseAction::Nothing;
        } else if key == BrowseKey::Char('G') {
            if v.rows > 0 {
                self.search.cursor = v.rows - 1;
            }
            BrowseAction::Nothing
        } else if key == BrowseKey::Char('l') || key == BrowseKey::Right {
            if v.flat {
                BrowseAction::EnterDirectory
            } else {
                BrowseAction::ExpandNode
            }
        } else if key == BrowseKey::Char('h') || key == BrowseKey::Left {
            if v.flat {
                BrowseAction::GoToParent
            } else {
                BrowseAction::CollapseOrUp
            }
        } else if key == BrowseKey::Char('H') {
            if v.flat {
                BrowseAction::GoToRoot
            } else {
                BrowseAction::CollapseAll
            }
        } else if key == BrowseKey::Char('u') {
            if v.flat {
                BrowseAction::GoToRoot
            } else {
                BrowseAction::NavigateUpRoot
            }
        } else if key == BrowseKey::Enter && !self.search.search_word.as_str().is_empty() {
            self.search.search_mode = SearchMode::Input;
            BrowseAction::Nothing
        } else {
            BrowseAction::Nothing
        };
        self.pending_gg = false;
        r
    }

    fn command_key(&mut self, v: BrowseView, key: BrowseKey) -> (r: BrowseAction)
        ensures
            command_step(*old(self), *final(self), v, key, r),
    {
        let r = if key == BrowseKey::Char('s') {
            self.pending_gg = false;
            self.leave_multi();
            return BrowseAction::StartScan;
        } else if key == BrowseKey::Char('.') {
            self.show_hidden = !self.show_hidden;
            BrowseAction::HiddenToggled
        } else if key == BrowseKey::Char('w') {
            if v.flat {
                BrowseAction::Nothing
            } else {
                BrowseAction::SetRootToSelected
            }
        } else if key == BrowseKey::Char('o') {
            self.pending_gg = false;
            self.sort_mode = self.sort_mode.toggle();
            self.leave_multi();
            return BrowseAction::Resort;
        } else if key == BrowseKey::Char('d') || key == BrowseKey::Char('D') {
            BrowseAction::Delete(key == BrowseKey::Char('D'))
        } else if key == BrowseKey::Char('?') {
            self.mode = AppMode::Help;
            BrowseAction::Nothing
        } else if key == BrowseKey::Char(':') {
            self.mode = AppMode::Command;
            BrowseAction::OpenCommandLine
        } else if key == BrowseKey::Char('t') && v.server_mode {
            self.pending_gg = false;
            self.leave_multi();
            return BrowseAction::TimeToggle;
        } else if key == BrowseKey::Char('R') && !v.server_mode {
            BrowseAction::Reconnect
        } else if key == BrowseKey::Char('i') {
            BrowseAction::InfoPopup
        } else if key == BrowseKey::Char('K') {
            BrowseAction::DetailPopup
        } else if key == BrowseKey::Char('q') {
            if v.info_open {
                BrowseAction::CloseInfo
            } else {
                self.should_quit = true;
                BrowseAction::Nothing
            }
        } else if key == BrowseKey::Char('y') {
            BrowseAction::CopyPath
        } else if key == BrowseKey::Char('f') && v.server_mode {
            self.pending_gg = false;
            self.filter_pane = true;
            self.filter_focus = FilterFocus::TimePreset;
            self.leave_multi();
            return BrowseAction::Nothing;
        } else if key == BrowseKey::CtrlC {
            self.should_quit = true;
            BrowseAction::Nothing
        } else if key == BrowseKey::Char('c') {
            self.pending_gg = false;
            self.leave_multi();
            return BrowseAction::ClearFilterPane;
        } else if key == BrowseKey::Esc {
            BrowseAction::ClosePopups
        } else {
            BrowseAction::Nothing
        };
        self.pending_gg = false;
        r
    }

    fn main_key(&mut self, v: BrowseView, key: BrowseKey) -> (r: BrowseAction)
        requires
            old(self).search.cursor < isize::MAX,
            v.rows < isize::MAX,
        ensures
            main_step(*old(self), *final(self), v, key, r),
    {
        let word_typed = !self.search.search_word.as_str().is_empty();
        proof {
            if word_typed {
                assert(self.search.search_word@.len() > 0);
            }
        }
        if key == BrowseKey::Char('j') || key == BrowseKey::Down || key == BrowseKey::Char('k') || key == BrowseKey::Up
            || key == BrowseKey::Char('g') || key == BrowseKey::Char('G') || key == BrowseKey::Char('l') || key
            == BrowseKey::Right || key == BrowseKey::Char('h') || key == BrowseKey::Left || key == BrowseKey::Char('H')
            || key == BrowseKey::Char('u') || (key == BrowseKey::Enter && word_typed) {
            self.move_key(v, key)
        } else {
            self.command_key(v, key)
        }
    }

    /// Handles a key of the browsing view (see `browse_step`). `path` is
    /// the tree path of the listing row under the cursor, if any; `names`
    /// are the names the search runs over.
    pub fn handle_browsing_key(
        &mut self,
        v: BrowseView,
        key: BrowseKey,
        path: Option<&[String]>,
        names: &[String],
    ) -> (r: BrowseAction)
        requires
            selection_distinct(old(self).selected_paths@),
            old(self).search.cursor < isize::MAX,
            v.rows < isize::MAX,
        ensures
            browse_step(
                *old(self),
                *final(self),
                v,
                key,
                match path {
                    Some(p) => Some(names_view(p@)),
                    None => None,
                },
                names@,
                r,
            ),
    {
        if let Some(rows) = v.detail_rows {
            return self.detail_key(rows, v.detail_overflows, key);
        }
        if v.scanning {
            return if key == BrowseKey::Esc {
                BrowseAction::CancelScan
            } else {
                BrowseAction::Nothing
            };
        }
        if self.filter_pane {
            self.leave_multi();
            return BrowseAction::FilterPaneKey;
        }
        let sk = search_key(key);
        let mode = self.search.search_mode;
        let takes = mode == SearchMode::Input || (mode == SearchMode::Active && sk == SearchKey::Esc);
        let passes_on = mode == SearchMode::Active && (sk == SearchKey::Char('n') || sk == SearchKey::Char('N') || sk
            == SearchKey::Char('/'));
        if takes || passes_on {
            let out = self.search.handle_search_keys(sk, names);
            if out.consumed {
                return BrowseAction::Searched(out.refresh);
            }
            self.pending_gg = false;
            return if sk == SearchKey::Char('/') {
                BrowseAction::Searched(true)
            } else {
                BrowseAction::Nothing
            };
        }
        if mode == SearchMode::Inactive && key == BrowseKey::Char('/') {
            self.search.search_mode = SearchMode::Input;
            return BrowseAction::Nothing;
        }
        if key == BrowseKey::Tab || (self.multi_select && (key == BrowseKey::Esc || key == BrowseKey::Char('d') || key
            == BrowseKey::Char('D'))) {
            return self.multi_select_key(v, key, path);
        }
        self.main_key(v, key)
    }
}

} // verus!
