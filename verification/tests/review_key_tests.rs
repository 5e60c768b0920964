use argus::review::{mock_ai_verdict, AiReviewState, AiStatus};
use argus::review_keys::{ReviewAction, ReviewKey};
use std::collections::HashSet;

fn state(paths: &[(&str, u64)]) -> AiReviewState {
    AiReviewState {
        results: paths.iter().map(|(p, s)| mock_ai_verdict(p, *s)).collect(),
        pending_paths: Vec::new(),
        pending_total_size: 0,
        cursor: 0,
        scroll_offset: 0,
        mark_for_delete: HashSet::new(),
        status: AiStatus::Ready,
        delete_confirm: None,
        info_item: None,
    }
}

#[test]
fn review_moves_and_scrolls() {
    let mut s = state(&[("/a", 1), ("/b", 2), ("/c", 3)]);
    s.handle_review_key(ReviewKey::Down, 2);
    assert_eq!((s.cursor, s.scroll_offset), (1, 0));
    s.handle_review_key(ReviewKey::Char('j'), 2);
    assert_eq!((s.cursor, s.scroll_offset), (2, 1));
    s.handle_review_key(ReviewKey::Down, 2);
    assert_eq!(s.cursor, 2);
    s.handle_review_key(ReviewKey::Up, 2);
    s.handle_review_key(ReviewKey::Char('k'), 2);
    assert_eq!((s.cursor, s.scroll_offset), (0, 0));
}

#[test]
fn review_marks_and_asks_before_deleting() {
    let mut s = state(&[("/a", 10), ("/b", 20), ("/c", 30)]);
    s.handle_review_key(ReviewKey::Char(' '), 5);
    s.cursor = 2;
    s.handle_review_key(ReviewKey::Char(' '), 5);
    s.handle_review_key(ReviewKey::Char('D'), 5);
    assert_eq!(s.delete_confirm, Some((vec!["/a".to_string(), "/c".to_string()], true)));
    match s.handle_review_key(ReviewKey::Char('y'), 5) {
        ReviewAction::DeleteConfirmed(paths, permanent, total) => {
            assert_eq!(paths, vec!["/a".to_string(), "/c".to_string()]);
            assert!(permanent);
            assert_eq!(total, 40);
        }
        other => panic!("unexpected {:?}", other),
    }
    assert!(s.delete_confirm.is_none());
    let empty = s.drop_deleted(&["/a".to_string(), "/c/".to_string()]);
    assert!(!empty);
    assert_eq!(s.results.len(), 1);
    assert_eq!(s.results[0].path, "/b");
    assert!(s.mark_for_delete.is_empty());
    assert_eq!(s.cursor, 0);
}

#[test]
fn review_delete_needs_marks_and_ready_status() {
    let mut s = state(&[("/a", 1)]);
    s.handle_review_key(ReviewKey::Enter, 5);
    assert!(s.delete_confirm.is_none());
    s.handle_review_key(ReviewKey::Char(' '), 5);
    s.status = AiStatus::Loading;
    s.handle_review_key(ReviewKey::Char('d'), 5);
    assert!(s.delete_confirm.is_none());
    s.status = AiStatus::Ready;
    s.handle_review_key(ReviewKey::Char('d'), 5);
    assert_eq!(s.delete_confirm, Some((vec!["/a".to_string()], false)));
    s.handle_review_key(ReviewKey::Esc, 5);
    assert!(s.delete_confirm.is_none());
}

#[test]
fn review_drop_verdict_and_close() {
    let mut s = state(&[("/a", 1), ("/b", 2)]);
    s.cursor = 1;
    match s.handle_review_key(ReviewKey::Char('x'), 5) {
        ReviewAction::RemoveAnalysis(p, gone) => {
            assert_eq!(p, "/b");
            assert!(!gone);
        }
        other => panic!("unexpected {:?}", other),
    }
    assert_eq!(s.cursor, 0);
    match s.handle_review_key(ReviewKey::Char('x'), 5) {
        ReviewAction::RemoveAnalysis(p, gone) => {
            assert_eq!(p, "/a");
            assert!(gone);
        }
        other => panic!("unexpected {:?}", other),
    }
    assert!(matches!(s.handle_review_key(ReviewKey::Char('q'), 5), ReviewAction::Exit));
    assert!(matches!(s.handle_review_key(ReviewKey::CtrlC, 5), ReviewAction::Quit));
}

#[test]
fn review_info_popup_takes_keys_until_closed() {
    let mut s = state(&[("/a", 1), ("/b", 2)]);
    s.handle_review_key(ReviewKey::Char('i'), 5);
    assert_eq!(s.info_item, Some(0));
    s.handle_review_key(ReviewKey::Down, 5);
    assert_eq!(s.cursor, 0);
    s.handle_review_key(ReviewKey::Char('q'), 5);
    assert_eq!(s.info_item, None);
}
