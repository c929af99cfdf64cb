use vimacs::editor::Editor;
use vimacs::keys::Key;
use vimacs::prompt::PromptEvent;
use vimacs::syntax::Highlight;

fn editor_with(text: &str, name: &str) -> Editor {
    let mut e = Editor::new(24, 80);
    e.open(name.as_bytes().to_vec(), &text.as_bytes().to_vec());
    e
}

#[test]
fn find_next_cycles_through_all_occurrences() {
    let mut e = editor_with("x hay x\nnone\nhay hay\n", "t.txt");
    let q = b"hay".to_vec();
    assert!(e.find_next(&q));
    assert_eq!((e.cy, e.cx), (0, 2));
    assert!(e.find_next(&q));
    assert_eq!((e.cy, e.cx), (2, 0));
    assert!(e.find_next(&q));
    assert_eq!((e.cy, e.cx), (2, 4));
    assert!(e.find_next(&q));
    assert_eq!((e.cy, e.cx), (0, 2));
}

#[test]
fn find_prev_cycles_backward() {
    let mut e = editor_with("x hay x\nnone\nhay hay\n", "t.txt");
    let q = b"hay".to_vec();
    e.cy = 0;
    e.cx = 0;
    assert!(e.find_prev(&q));
    assert_eq!((e.cy, e.cx), (2, 4));
    assert!(e.find_prev(&q));
    assert_eq!((e.cy, e.cx), (2, 0));
    assert!(e.find_prev(&q));
    assert_eq!((e.cy, e.cx), (0, 2));
}

#[test]
fn find_reports_absent_query() {
    let mut e = editor_with("abc\ndef\n", "t.txt");
    let q = b"zzz".to_vec();
    assert!(!e.find_next(&q));
    assert!(!e.find_prev(&q));
    assert_eq!((e.cy, e.cx), (0, 0));
}

#[test]
fn found_span_is_marked_and_saved() {
    let mut e = editor_with("int x;\n", "t.c");
    let before = e.rows[0].highlight.clone();
    let q = b"x".to_vec();
    assert!(e.find_next(&q));
    assert_eq!(e.rows[0].highlight[4], Highlight::Match);
    assert!(e.saved_highlight.is_some());
    assert_eq!(e.saved_highlight.as_ref().unwrap()[0], before[4]);
}

#[test]
fn cancelling_search_restores_every_touched_tag() {
    let mut e = editor_with("int x = 5;\nint y;\n", "t.c");
    let snapshot: Vec<Vec<Highlight>> = e.rows.iter().map(|r| r.highlight.clone()).collect();
    e.find_begin();
    let q = b"int".to_vec();
    assert!(e.find_event(&PromptEvent::FindNext(q.clone())));
    assert!(e.find_event(&PromptEvent::FindNext(q.clone())));
    e.find_event(&PromptEvent::Cancelled);
    let after: Vec<Vec<Highlight>> = e.rows.iter().map(|r| r.highlight.clone()).collect();
    assert_eq!(snapshot, after);
    assert!(e.saved_highlight.is_none());
}

#[test]
fn accepted_query_matching_at_cursor_is_taken_in_place() {
    let mut e = editor_with("hay stack\n", "t.txt");
    e.find_begin();
    assert!(e.find_event(&PromptEvent::Changed(b"hay".to_vec())));
    assert_eq!((e.cy, e.cx), (0, 0));
    assert_eq!(e.rows[0].highlight[0], Highlight::Match);
}

#[test]
fn changed_query_searches_forward_when_cursor_does_not_match() {
    let mut e = editor_with("abc hay\n", "t.txt");
    e.find_begin();
    assert!(e.find_event(&PromptEvent::Changed(b"hay".to_vec())));
    assert_eq!((e.cy, e.cx), (0, 4));
}

#[test]
fn anchors_follow_explicit_finds_only() {
    let mut e = editor_with("aa bb aa\n", "t.txt");
    e.cx = 1;
    e.find_begin();
    assert_eq!((e.saved_cx, e.saved_cy), (1, 0));
    assert!(e.find_event(&PromptEvent::FindNext(b"aa".to_vec())));
    assert_eq!((e.saved_cx, e.saved_cy), (e.cx, e.cy));
}

#[test]
fn cancel_returns_cursor_to_entry_when_nothing_accepted() {
    let mut e = editor_with("abc\nhay\n", "t.txt");
    e.cx = 1;
    e.cy = 0;
    e.find_begin();
    assert!(e.find_event(&PromptEvent::Changed(b"hay".to_vec())));
    assert_eq!((e.cy, e.cx), (1, 0));
    e.find_event(&PromptEvent::Cancelled);
    assert!(!e.just_searched);
    assert_eq!((e.cy, e.cx), (0, 1));
}

#[test]
fn cancel_keeps_cursor_on_an_accepted_match() {
    let mut e = editor_with("abc\nhay\n", "t.txt");
    e.cx = 1;
    e.cy = 0;
    e.find_begin();
    assert!(e.find_event(&PromptEvent::FindNext(b"hay".to_vec())));
    assert_eq!((e.cy, e.cx), (1, 0));
    e.find_event(&PromptEvent::Cancelled);
    assert!(!e.just_searched);
    assert_eq!((e.cy, e.cx), (1, 0));
}

#[test]
fn escape_key_restores_a_pending_search_anchor() {
    let mut e = editor_with("abc\nhay\n", "t.txt");
    e.cx = 2;
    e.cy = 0;
    e.find_begin();
    assert!(e.just_searched);
    e.process_keypress(Key::Escape);
    assert!(!e.just_searched);
    assert_eq!((e.cy, e.cx), (0, 2));
}
