//! The keys of the review popup: moving over the verdicts, marking them,
//! asking to delete the marked ones and confirming, dropping a verdict.
use crate::review::{marked_in, AiPathVerdict, AiReviewState, AiStatus};
use crate::tree_ops::same_path;
use vstd::prelude::*;

verus! {

/// A key pressed in the review popup; Ctrl-C is told apart from 'c'.
#[derive(Debug, Clone, Copy, PartialEq, Eq, Structural)]
pub enum ReviewKey {
    Char(char),
    CtrlC,
    Up,
    Down,
    Enter,
    Esc,
    Other,
}

/// What the surrounding program does after a review key.
#[derive(Debug, Clone)]
pub enum ReviewAction {
    Nothing,
    /// Delete these paths (permanently when `true`); the marked verdicts
    /// add up to the given size.
    DeleteConfirmed(Vec<String>, bool, u64),
    /// Forget the stored analysis of this path; the popup closes when
    /// `true` (no verdict is left).
    RemoveAnalysis(String, bool),
    /// Close the popup.
    Exit,
    Quit,
}

/// The cursor stays on a verdict while there are any.
pub open spec fn review_wf(s: AiReviewState) -> bool {
    s.results@.len() > 0 ==> s.cursor < s.results@.len()
}

/// Total size of the marked verdicts among the first `n`.
pub open spec fn marked_size(results: Seq<AiPathVerdict>, marks: Set<usize>, n: int) -> int
    decreases n,
{
    if n <= 0 {
        0
    } else {
        marked_size(results, marks, n - 1) + if marks.contains((n - 1) as usize) {
            results[n - 1].size as int
        } else {
            0
        }
    }
}

/// `a` and `b` name the same path (component by component).
pub(crate) fn path_is(a: &str, b: &str) -> (r: bool)
    ensures
        r == same_path(a@, b@),
{
    match crate::delta_cache::relative_components(b, a) {
        Some(v) => {
            proof {
                if v@.len() == 0 {
                    assert(crate::delta_cache::key_view(v) =~= Seq::<Seq<char>>::empty());
                }
            }
            v.len() == 0
        },
        None => false,
    }
}

/// `path` names one of `paths`.
pub open spec fn listed_path(paths: Seq<String>, path: Seq<char>) -> bool {
    exists|i: int| 0 <= i < paths.len() && same_path(#[trigger] paths[i]@, path)
}

fn is_listed(paths: &[String], path: &str) -> (r: bool)
    ensures
        r == listed_path(paths@, path@),
{
    let mut i: usize = 0;
    while i < paths.len()
        invariant
            i <= paths@.len(),
            forall|j: int| 0 <= j < i ==> !same_path(#[trigger] paths@[j]@, path@),
        decreases paths@.len() - i,
    {
        if path_is(paths[i].as_str(), path) {
            return true;
        }
        i = i + 1;
    }
    false
}

/// The verdicts whose path is not among `paths`, in order.
pub open spec fn kept_verdicts(results: Seq<AiPathVerdict>, paths: Seq<String>) -> Seq<AiPathVerdict>
    decreases results.len(),
{
    if results.len() == 0 {
        Seq::empty()
    } else {
        kept_verdicts(results.drop_last(), paths) + if listed_path(paths, results.last().path@) {
            Seq::<AiPathVerdict>::empty()
        } else {
            seq![results.last()]
        }
    }
}

/// A key while the deletion is asked for: 'y'/'Y' confirms, 'n'/'N',
/// Esc and 'q' cancel; either way the question is gone.
pub open spec fn confirm_step(o: AiReviewState, n: AiReviewState, key: ReviewKey, r: ReviewAction) -> bool {
    let (paths, permanent) = o.delete_confirm->0;
    if key == ReviewKey::Char('y') || key == ReviewKey::Char('Y') {
        &&& n == AiReviewState { delete_confirm: None, ..o }
        &&& r matches ReviewAction::DeleteConfirmed(p, perm, total) && p == paths && perm == permanent && total
            == marked_size(o.results@, o.mark_for_delete@, o.results@.len() as int)
    } else if key == ReviewKey::Char('n') || key == ReviewKey::Char('N') || key == ReviewKey::Esc || key
        == ReviewKey::Char('q') {
        n == AiReviewState { delete_confirm: None, ..o } && r is Nothing
    } else {
        n == o && r is Nothing
    }
}

/// The review keys, with `visible` verdicts fitting in the popup: with a
/// deletion asked for, only its answer counts; with a verdict's details
/// shown, Esc and 'q' hide them. Otherwise j/Down and k/Up move (keeping
/// the cursor in view), Space marks, 'i' shows details, 'd', Enter and
/// 'D' ask to delete the marked verdicts (for good with 'D'), 'x' drops
/// the verdict under the cursor, Esc and 'q' close the popup and Ctrl-C
/// quits; asking, details and dropping need the analysis to be ready.
pub open spec fn review_step(o: AiReviewState, n: AiReviewState, key: ReviewKey, visible: usize, r: ReviewAction) -> bool {
    let len = o.results@.len();
    let ready = o.status is Ready;
    if o.delete_confirm is Some {
        confirm_step(o, n, key, r)
    } else if o.info_item is Some {
        r is Nothing && n == if key == ReviewKey::Esc || key == ReviewKey::Char('q') {
            AiReviewState { info_item: None, ..o }
        } else {
            o
        }
    } else if key == ReviewKey::Char('j') || key == ReviewKey::Down {
        r is Nothing && n == if o.cursor + 1 < len {
            AiReviewState {
                cursor: (o.cursor + 1) as usize,
                scroll_offset: if o.cursor + 1 >= o.scroll_offset + visible {
                    (o.cursor + 2 - visible) as usize
                } else {
                    o.scroll_offset
                },
                ..o
            }
        } else {
            o
        }
    } else if key == ReviewKey::Char('k') || key == ReviewKey::Up {
        r is Nothing && n == if o.cursor > 0 {
            AiReviewState {
                cursor: (o.cursor - 1) as usize,
                scroll_offset: if o.cursor - 1 < o.scroll_offset {
                    (o.cursor - 1) as usize
                } else {
                    o.scroll_offset
                },
                ..o
            }
        } else {
            o
        }
    } else if key == ReviewKey::Char(' ') {
        &&& r is Nothing
        &&& n == AiReviewState { mark_for_delete: n.mark_for_delete, ..o }
        &&& n.mark_for_delete@ == if o.mark_for_delete@.contains(o.cursor) {
            o.mark_for_delete@.remove(o.cursor)
        } else {
            o.mark_for_delete@.insert(o.cursor)
        }
    } else if key == ReviewKey::Char('i') {
        r is Nothing && n == if ready && len > 0 {
            AiReviewState { info_item: Some(o.cursor), ..o }
        } else {
            o
        }
    } else if key == ReviewKey::Char('d') || key == ReviewKey::Char('D') || key == ReviewKey::Enter {
        let marked = marked_in(o.results@, o.mark_for_delete@, len as int);
        &&& r is Nothing
        &&& if ready && marked.len() > 0 {
            &&& n == AiReviewState { delete_confirm: n.delete_confirm, ..o }
            &&& n.delete_confirm matches Some(c) && c.0@.map_values(|s: String| s@) == marked && c.1 == (key
                == ReviewKey::Char('D'))
        } else {
            n == o
        }
    } else if key == ReviewKey::Char('x') {
        if ready && len > 0 {
            &&& n == AiReviewState {
                results: n.results,
                cursor: if o.cursor >= len - 1 && len > 1 {
                    (len - 2) as usize
                } else {
                    o.cursor
                },
                ..o
            }
            &&& n.results@ == o.results@.remove(o.cursor as int)
            &&& r matches ReviewAction::RemoveAnalysis(p, gone) && p@ == o.results@[o.cursor as int].path@ && gone
                == (len == 1)
        } else {
            n == o && r is Nothing
        }
    } else if key == ReviewKey::Esc || key == ReviewKey::Char('q') {
        n == o && r is Exit
    } else if key == ReviewKey::CtrlC {
        n == o && r is Quit
    } else {
        n == o && r is Nothing
    }
}

impl AiReviewState {
    fn marked_total(&self) -> (t: u64)
        requires
            marked_size(self.results@, self.mark_for_delete@, self.results@.len() as int) <= u64::MAX,
        ensures
            t == marked_size(self.results@, self.mark_for_delete@, self.results@.len() as int),
    {
        broadcast use vstd::std_specs::hash::group_hash_axioms;

        let mut t: u64 = 0;
        let mut i: usize = 0;
        while i < self.results.len()
            invariant
                i <= self.results@.len(),
                t == marked_size(self.results@, self.mark_for_delete@, i as int),
                marked_size(self.results@, self.mark_for_delete@, self.results@.len() as int) <= u64::MAX,
            decreases self.results@.len() - i,
        {
            proof {
                lemma_marked_size_grows(self.results@, self.mark_for_delete@, i + 1, self.results@.len() as int);
            }
            if self.mark_for_delete.contains(&i) {
                t = t + self.results[i].size;
            }
            i = i + 1;
        }
        t
    }

    /// Handles a key of the review popup (see `review_step`); `visible`
    /// is the number of verdicts the popup shows at once.
    pub fn handle_review_key(&mut self, key: ReviewKey, visible: usize) -> (r: ReviewAction)
        requires
            review_wf(*old(self)),
            (key == ReviewKey::Char('j') || key == ReviewKey::Down) && old(self).delete_confirm is None
                && old(self).info_item is None && old(self).cursor + 1 < old(self).results@.len()
                && old(self).scroll_offset == 0 ==> visible > 0,
            marked_size(old(self).results@, old(self).mark_for_delete@, old(self).results@.len() as int) <= u64::MAX,
        ensures
            review_step(*old(self), *final(self), key, visible, r),
            review_wf(*final(self)),
    {
        if self.delete_confirm.is_some() {
            if key == ReviewKey::Char('y') || key == ReviewKey::Char('Y') {
                let total = self.marked_total();
                let (paths, permanent) = self.delete_confirm.take().unwrap();
                return ReviewAction::DeleteConfirmed(paths, permanent, total);
            }
            if key == ReviewKey::Char('n') || key == ReviewKey::Char('N') || key == ReviewKey::Esc || key
                == ReviewKey::Char('q') {
                self.delete_confirm = None;
            }
            return ReviewAction::Nothing;
        }
        if self.info_item.is_some() {
            if key == ReviewKey::Esc || key == ReviewKey::Char('q') {
                self.info_item = None;
            }
            return ReviewAction::Nothing;
        }
        let ready = matches!(self.status, AiStatus::Ready);
        let len = self.results.len();
        if key == ReviewKey::Char('j') || key == ReviewKey::Down {
            if len > 0 && self.cursor < len - 1 {
                if self.cursor + 1 >= visible && self.cursor + 1 - visible >= self.scroll_offset {
                    self.scroll_offset = self.cursor + 2 - visible;
                }
                self.cursor = self.cursor + 1;
            }
            ReviewAction::Nothing
        } else if key == ReviewKey::Char('k') || key == ReviewKey::Up {
            if self.cursor > 0 {
                self.cursor = self.cursor - 1;
                if self.cursor < self.scroll_offset {
                    self.scroll_offset = self.cursor;
                }
            }
            ReviewAction::Nothing
        } else if key == ReviewKey::Char(' ') {
            self.toggle_mark();
            ReviewAction::Nothing
        } else if key == ReviewKey::Char('i') {
            if ready && len > 0 {
                self.info_item = Some(self.cursor);
            }
            ReviewAction::Nothing
        } else if key == ReviewKey::Char('d') || key == ReviewKey::Char('D') || key == ReviewKey::Enter {
            if ready {
                let paths = self.marked_paths();
                if paths.len() > 0 {
                    self.delete_confirm = Some((paths, key == ReviewKey::Char('D')));
                }
            }
            ReviewAction::Nothing
        } else if key == ReviewKey::Char('x') {
            if !ready || len == 0 {
                return ReviewAction::Nothing;
            }
            let verdict = self.results.remove(self.cursor);
            if self.cursor >= self.results.len() && self.results.len() > 0 {
                self.cursor = self.results.len() - 1;
            }
            ReviewAction::RemoveAnalysis(verdict.path, self.results.len() == 0)
        } else if key == ReviewKey::Esc || key == ReviewKey::Char('q') {
            ReviewAction::Exit
        } else if key == ReviewKey::CtrlC {
            ReviewAction::Quit
        } else {
            ReviewAction::Nothing
        }
    }

    /// After a confirmed deletion: drops the verdicts whose path was
    /// deleted, clears the marks and keeps the cursor on a verdict (0 when
    /// none is left); `true` when none is left.
    pub fn drop_deleted(&mut self, paths: &[String]) -> (empty: bool)
        ensures
            final(self).results@ == kept_verdicts(old(self).results@, paths@),
            final(self).mark_for_delete@.len() == 0,
            final(self).cursor == if old(self).cursor >= final(self).results@.len() {
                if final(self).results@.len() > 0 {
                    (final(self).results@.len() - 1) as usize
                } else {
                    0
                }
            } else {
                old(self).cursor
            },
            empty == (final(self).results@.len() == 0),
            review_wf(*final(self)),
    {
        let ghost orig = self.results@;
        let mut rest: Vec<AiPathVerdict> = Vec::new();
        std::mem::swap(&mut rest, &mut self.results);
        let mut kept: Vec<AiPathVerdict> = Vec::new();
        let ghost mut k: int = 0;
        proof {
            assert(orig.take(0) =~= Seq::<AiPathVerdict>::empty());
            assert(orig.subrange(0, orig.len() as int) =~= orig);
        }
        while rest.len() > 0
            invariant
                0 <= k <= orig.len(),
                rest@ == orig.subrange(k, orig.len() as int),
                kept@ == kept_verdicts(orig.take(k), paths@),
            decreases rest@.len(),
        {
            proof {
                assert(orig.take(k + 1).drop_last() =~= orig.take(k));
                assert(rest@.remove(0) =~= orig.subrange(k + 1, orig.len() as int));
            }
            let v = rest.remove(0);
            if !is_listed(paths, v.path.as_str()) {
                kept.push(v);
            }
            proof {
                k = k + 1;
            }
        }
        proof {
            assert(orig.take(orig.len() as int) =~= orig);
        }
        self.results = kept;
        self.mark_for_delete.clear();
        if self.cursor >= self.results.len() {
            self.cursor = if self.results.len() > 0 {
                self.results.len() - 1
            } else {
                0
            };
        }
        self.results.len() == 0
    }
}

proof fn lemma_marked_size_grows(results: Seq<AiPathVerdict>, marks: Set<usize>, i: int, n: int)
    requires
        0 <= i <= n,
    ensures
        marked_size(results, marks, i) <= marked_size(results, marks, n),
    decreases n - i,
{
    if i < n {
        lemma_marked_size_grows(results, marks, i, n - 1);
    }
}

} // verus!
