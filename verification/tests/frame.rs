use vimacs::editor::Editor;
use vimacs::render::usize_to_dec;

fn editor_with(text: &str, name: &str, rows: usize, cols: usize) -> Editor {
    let mut e = Editor::new(rows, cols);
    e.open(name.as_bytes().to_vec(), &text.as_bytes().to_vec());
    e
}

fn find_sub(hay: &[u8], needle: &[u8]) -> bool {
    hay.windows(needle.len().max(1)).any(|w| w == needle)
}

#[test]
fn decimal_formatting() {
    assert_eq!(usize_to_dec(0), b"0".to_vec());
    assert_eq!(usize_to_dec(7), b"7".to_vec());
    assert_eq!(usize_to_dec(10), b"10".to_vec());
    assert_eq!(usize_to_dec(907), b"907".to_vec());
}

#[test]
fn status_bar_holds_name_count_and_position() {
    let mut e = editor_with("a\nb\nc\n", "t.txt", 10, 40);
    let mut out: Vec<u8> = Vec::new();
    e.draw_status_bar(&mut out);
    assert!(find_sub(&out, b"t.txt - 3 lines "));
    assert!(find_sub(&out, b"no ft"));
    assert!(find_sub(&out, b"1/3"));
    assert!(!find_sub(&out, b"(modified)"));
    e.dirty = true;
    e.cy = 2;
    let mut out2: Vec<u8> = Vec::new();
    e.draw_status_bar(&mut out2);
    assert!(find_sub(&out2, b" (modified) "));
    assert!(find_sub(&out2, b"3/3"));
}

#[test]
fn status_bar_is_exactly_screen_wide() {
    let e = editor_with("a\n", "t.c", 10, 30);
    let mut out: Vec<u8> = Vec::new();
    e.draw_status_bar(&mut out);
    let inner = &out[4..out.len() - 5];
    assert_eq!(inner.len(), 30);
}

#[test]
fn unnamed_document_shows_placeholder() {
    let e = Editor::new(10, 40);
    let mut out: Vec<u8> = Vec::new();
    e.draw_status_bar(&mut out);
    assert!(find_sub(&out, b"[No Name] - 0 lines "));
}

#[test]
fn message_bar_shows_and_truncates() {
    let mut e = editor_with("a\n", "t.txt", 10, 5);
    e.update_status(b"hello world".to_vec());
    let mut out: Vec<u8> = Vec::new();
    e.draw_message_bar(&mut out, true);
    assert_eq!(out, b"\x1b[Khello".to_vec());
    let mut out2: Vec<u8> = Vec::new();
    e.draw_message_bar(&mut out2, false);
    assert_eq!(out2, b"\x1b[K".to_vec());
}

#[test]
fn frame_shape_and_colors() {
    let mut e = editor_with("int x = 5;\n", "t.c", 5, 40);
    let frame = e.refresh_screen(false);
    assert!(frame.starts_with(b"\x1b[?25l\x1b[H"));
    assert!(frame.ends_with(b"\x1b[?25h"));
    assert!(find_sub(&frame, b"\x1b[32mint"));
    assert!(find_sub(&frame, b"\x1b[31m5"));
    assert!(find_sub(&frame, b"\x1b[1;2H"));
}

#[test]
fn welcome_line_on_empty_document() {
    let mut e = Editor::new(9, 60);
    let frame = e.refresh_screen(false);
    assert!(find_sub(&frame, b"ViMacs Editor -- Version"));
}

#[test]
fn horizontal_scroll_follows_render_column() {
    let mut e = editor_with("0123456789abcdefghij\n", "t.txt", 5, 10);
    e.cx = 15;
    let _ = e.refresh_screen(false);
    assert_eq!(e.col_offset, 6);
    assert_eq!(e.rx, 15);
}
