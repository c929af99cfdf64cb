use vimacs::editor::Editor;
use vimacs::editor::EditorAction;
use vimacs::keys::Key;

fn editor_with(text: &str, name: &str) -> Editor {
    let mut e = Editor::new(24, 80);
    e.open(name.as_bytes().to_vec(), &text.as_bytes().to_vec());
    e
}

fn texts(e: &Editor) -> Vec<Vec<u8>> {
    e.rows.iter().map(|r| r.text.clone()).collect()
}

#[test]
fn return_splits_row_at_cursor() {
    let mut e = editor_with("abcdef\n", "t.txt");
    e.cx = 3;
    e.cy = 0;
    let a = e.process_keypress(Key::Char(13));
    assert_eq!(a, EditorAction::Idle);
    assert_eq!(texts(&e), vec![b"abc".to_vec(), b"def".to_vec()]);
    assert_eq!(e.cy, 1);
    assert_eq!(e.cx, 0);
    assert!(e.dirty);
}

#[test]
fn backspace_at_column_zero_joins_rows() {
    let mut e = editor_with("one\ntwo\nthree\n", "t.txt");
    e.cx = 0;
    e.cy = 2;
    e.process_keypress(Key::Char(127));
    assert_eq!(texts(&e), vec![b"one".to_vec(), b"twothree".to_vec()]);
    assert_eq!(e.cy, 1);
    assert_eq!(e.cx, 3);
    assert!(e.dirty);
}

#[test]
fn typing_inserts_and_advances() {
    let mut e = editor_with("ac\n", "t.txt");
    e.cx = 1;
    e.process_keypress(Key::Char(b'b'));
    assert_eq!(texts(&e), vec![b"abc".to_vec()]);
    assert_eq!(e.cx, 2);
    assert!(e.dirty);
}

#[test]
fn typing_on_empty_document_opens_a_row() {
    let mut e = Editor::new(24, 80);
    e.process_keypress(Key::Char(b'x'));
    assert_eq!(texts(&e), vec![b"x".to_vec()]);
    assert_eq!(e.cx, 1);
}

#[test]
fn delete_key_removes_under_cursor() {
    let mut e = editor_with("abc\n", "t.txt");
    e.cx = 1;
    e.process_keypress(Key::Delete);
    assert_eq!(texts(&e), vec![b"ac".to_vec()]);
    assert_eq!(e.cx, 1);
}

#[test]
fn delete_key_at_row_end_joins_next_row() {
    let mut e = editor_with("ab\ncd\n", "t.txt");
    e.cx = 2;
    e.cy = 0;
    e.process_keypress(Key::Delete);
    assert_eq!(texts(&e), vec![b"abcd".to_vec()]);
    assert_eq!(e.cy, 0);
    assert_eq!(e.cx, 2);
}

#[test]
fn quit_needs_three_presses_when_dirty() {
    let mut e = editor_with("x\n", "t.txt");
    e.process_keypress(Key::Char(b'y'));
    assert!(e.dirty);
    assert_eq!(e.process_keypress(Key::Char(17)), EditorAction::Idle);
    assert!(e.status_msg.windows(2).any(|w| w == b"2 "));
    assert_eq!(e.process_keypress(Key::Char(17)), EditorAction::Idle);
    assert!(e.status_msg.windows(2).any(|w| w == b"1 "));
    assert_eq!(e.process_keypress(Key::Char(17)), EditorAction::Quit);
}

#[test]
fn any_other_key_resets_the_quit_counter() {
    let mut e = editor_with("x\n", "t.txt");
    e.process_keypress(Key::Char(b'y'));
    assert_eq!(e.process_keypress(Key::Char(17)), EditorAction::Idle);
    assert_eq!(e.quit_times, 2);
    e.process_keypress(Key::ArrowLeft);
    assert_eq!(e.quit_times, 3);
    assert_eq!(e.process_keypress(Key::Char(17)), EditorAction::Idle);
    assert_eq!(e.process_keypress(Key::Char(17)), EditorAction::Idle);
    assert_eq!(e.process_keypress(Key::Char(17)), EditorAction::Quit);
}

#[test]
fn quit_is_immediate_when_clean() {
    let mut e = editor_with("x\n", "t.txt");
    assert!(!e.dirty);
    assert_eq!(e.process_keypress(Key::Char(17)), EditorAction::Quit);
}

#[test]
fn save_and_find_are_delegated() {
    let mut e = editor_with("x\n", "t.txt");
    assert_eq!(e.process_keypress(Key::Char(19)), EditorAction::Save);
    assert_eq!(e.process_keypress(Key::Char(6)), EditorAction::Find);
    assert_eq!(e.process_keypress(Key::Nothing), EditorAction::Idle);
}

#[test]
fn sticky_column_survives_short_rows() {
    let mut e = editor_with("abcdef\nab\nabcd\n", "t.txt");
    e.cx = 6;
    e.cy = 0;
    e.process_keypress(Key::ArrowDown);
    assert_eq!((e.cx, e.cy), (2, 1));
    assert_eq!(e.prev_cx, 6);
    e.process_keypress(Key::ArrowDown);
    assert_eq!((e.cx, e.cy), (4, 2));
}

#[test]
fn home_and_end_keys() {
    let mut e = editor_with("hello\n", "t.txt");
    e.cx = 2;
    e.process_keypress(Key::End);
    assert_eq!(e.cx, 5);
    e.process_keypress(Key::Home);
    assert_eq!(e.cx, 0);
}

#[test]
fn arrow_left_wraps_to_previous_row_end() {
    let mut e = editor_with("abc\nxy\n", "t.txt");
    e.cx = 0;
    e.cy = 1;
    e.process_keypress(Key::ArrowLeft);
    assert_eq!((e.cx, e.cy), (3, 0));
    let mut f = editor_with("abc\nxy\n", "t.txt");
    f.cx = 3;
    f.cy = 0;
    f.process_keypress(Key::ArrowRight);
    assert_eq!((f.cx, f.cy), (0, 1));
}

#[test]
fn page_down_moves_a_screen() {
    let mut text = String::new();
    for i in 0..50 {
        text.push_str(&format!("line{}\n", i));
    }
    let mut e = Editor::new(10, 80);
    e.open(b"t.txt".to_vec(), &text.as_bytes().to_vec());
    e.process_keypress(Key::PageDown);
    assert_eq!(e.cy, 18);
}

#[test]
fn scroll_follows_the_cursor() {
    let mut text = String::new();
    for i in 0..50 {
        text.push_str(&format!("line{}\n", i));
    }
    let mut e = Editor::new(10, 80);
    e.open(b"t.txt".to_vec(), &text.as_bytes().to_vec());
    e.cy = 30;
    e.refresh_screen(false);
    assert!(e.row_offset <= 30 && 30 < e.row_offset + 10);
    assert_eq!(e.row_offset, 21);
    e.cy = 3;
    e.refresh_screen(false);
    assert_eq!(e.row_offset, 3);
}

#[test]
fn insert_row_alone_marks_the_document_dirty() {
    let mut e = editor_with("abcdef\n", "t.txt");
    assert!(!e.dirty);
    e.cx = 3;
    e.cy = 0;
    e.insert_row();
    assert!(e.dirty);
    assert_eq!(texts(&e), vec![b"abc".to_vec(), b"def".to_vec()]);
}

#[test]
fn tab_key_inserts_a_tab_character() {
    let mut e = editor_with("ab\n", "t.txt");
    e.process_keypress(Key::Char(9));
    assert_eq!(texts(&e), vec![b"\tab".to_vec()]);
    assert_eq!(e.rows[0].rendered, b"    ab".to_vec());
    assert_eq!(e.cx, 1);
}

#[test]
fn control_bytes_outside_the_bindings_do_nothing() {
    let mut e = editor_with("ab\n", "t.txt");
    e.process_keypress(Key::Char(1));
    assert_eq!(texts(&e), vec![b"ab".to_vec()]);
    assert!(!e.dirty);
}
