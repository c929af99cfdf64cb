use vimacs::row::Row;
use vimacs::editor::Editor;
use vimacs::syntax::Highlight;
use vimacs::syntax::Syntax;

fn c_rules() -> Syntax {
    let mut db = Syntax::hldb();
    db.remove(0)
}

fn row(text: &str, syn: &Syntax) -> Row {
    Row::from(text.as_bytes().to_vec(), syn)
}

#[test]
fn render_expands_tabs_to_next_stop() {
    let syn = Syntax::new();
    let r = row("a\tb", &syn);
    assert_eq!(r.rendered, b"a   b".to_vec());
    let r2 = row("\tx", &syn);
    assert_eq!(r2.rendered, b"    x".to_vec());
}

#[test]
fn tags_cover_rendered_after_every_mutation() {
    let syn = c_rules();
    let mut r = row("int\tx = 5;", &syn);
    assert_eq!(r.rendered.len(), r.highlight.len());
    r.insert(3, b'y', &syn);
    assert_eq!(r.rendered.len(), r.highlight.len());
    r.remove(0, &syn);
    assert_eq!(r.rendered.len(), r.highlight.len());
    let tail = r.split_off(2, &syn);
    assert_eq!(r.rendered.len(), r.highlight.len());
    assert_eq!(tail.rendered.len(), tail.highlight.len());
    r.join(&tail, &syn);
    assert_eq!(r.rendered.len(), r.highlight.len());
}

#[test]
fn cx_to_rx_exact_values_and_monotonic() {
    let syn = Syntax::new();
    let r = row("\tab\tc", &syn);
    assert_eq!(r.cx_to_rx(0), 0);
    assert_eq!(r.cx_to_rx(1), 4);
    assert_eq!(r.cx_to_rx(2), 5);
    assert_eq!(r.cx_to_rx(3), 6);
    assert_eq!(r.cx_to_rx(4), 8);
    assert_eq!(r.cx_to_rx(5), 9);
    assert_eq!(r.cx_to_rx(99), 9);
    let mut prev = 0;
    for cx in 0..10 {
        let rx = r.cx_to_rx(cx);
        assert!(rx >= prev);
        prev = rx;
    }
}

#[test]
fn rerender_of_unchanged_text_is_stable() {
    let syn = Syntax::new();
    let mut r = row("a\tbc", &syn);
    let before = r.rendered.clone();
    let rx_before = r.cx_to_rx(3);
    r.render();
    assert_eq!(r.rendered, before);
    assert_eq!(r.cx_to_rx(3), rx_before);
}

#[test]
fn highlight_c_like_scenario() {
    let syn = c_rules();
    let r1 = row("int x = 5;", &syn);
    assert_eq!(r1.highlight[0], Highlight::Keyword2);
    assert_eq!(r1.highlight[1], Highlight::Keyword2);
    assert_eq!(r1.highlight[2], Highlight::Keyword2);
    assert_eq!(r1.highlight[3], Highlight::Normal);
    assert_eq!(r1.highlight[4], Highlight::Normal);
    assert_eq!(r1.highlight[8], Highlight::Number);
    assert_eq!(r1.highlight[9], Highlight::Normal);
    let r2 = row("// comment", &syn);
    for i in 0..r2.highlight.len() {
        assert_eq!(r2.highlight[i], Highlight::Comment);
    }
    let r3 = row("\"str\"", &syn);
    for i in 0..r3.highlight.len() {
        assert_eq!(r3.highlight[i], Highlight::Str);
    }
}

#[test]
fn highlight_string_escape_keeps_string_open() {
    let syn = c_rules();
    let r = row("\"a\\\"b\"c", &syn);
    for i in 0..6 {
        assert_eq!(r.highlight[i], Highlight::Str);
    }
    assert_eq!(r.highlight[6], Highlight::Normal);
}

#[test]
fn keyword_needs_separator_after_it() {
    let syn = c_rules();
    let r = row("integer", &syn);
    for i in 0..r.highlight.len() {
        assert_eq!(r.highlight[i], Highlight::Normal);
    }
    let r2 = row("if(x)", &syn);
    assert_eq!(r2.highlight[0], Highlight::Keyword1);
    assert_eq!(r2.highlight[1], Highlight::Keyword1);
    assert_eq!(r2.highlight[2], Highlight::Normal);
}

#[test]
fn number_rules() {
    let syn = c_rules();
    let r = row("a1 1.5", &syn);
    assert_eq!(r.highlight[0], Highlight::Normal);
    assert_eq!(r.highlight[1], Highlight::Normal);
    assert_eq!(r.highlight[3], Highlight::Number);
    assert_eq!(r.highlight[4], Highlight::Number);
    assert_eq!(r.highlight[5], Highlight::Number);
}

#[test]
fn row_searches() {
    let syn = Syntax::new();
    let r = row("abcabcabc", &syn);
    let q = b"abc".to_vec();
    assert_eq!(r.search(&q), Some(0));
    assert_eq!(r.search_from(0, &q), Some(3));
    assert_eq!(r.search_from(3, &q), Some(6));
    assert_eq!(r.search_from(6, &q), None);
    assert_eq!(r.search_reverse(&q), Some(6));
    assert_eq!(r.search_reverse_to(6, &q), Some(3));
    assert_eq!(r.search_reverse_to(1, &q), Some(0));
    assert_eq!(r.search_reverse_to(0, &q), None);
    let missing = b"zzz".to_vec();
    assert_eq!(r.search(&missing), None);
}

#[test]
fn highlight_save_and_group_restore() {
    let syn = c_rules();
    let mut r = row("int x = 5;", &syn);
    let before = r.highlight.clone();
    let saved = r.save_highlight(0, 3).expect("span starts inside the row");
    r.set_highlight_from(Highlight::Match, 0, 3);
    assert_eq!(r.highlight[0], Highlight::Match);
    r.set_highlight_group(0, &saved);
    assert_eq!(r.highlight, before);
}

#[test]
fn clamped_getters() {
    let syn = Syntax::new();
    let r = row("hello", &syn);
    assert_eq!(r.get(1, 3), b"el".to_vec());
    assert_eq!(r.get(1, 99), b"ello".to_vec());
    assert_eq!(r.get(9, 12), Vec::<u8>::new());
    assert_eq!(r.get(9, 2), Vec::<u8>::new());
    assert_eq!(r.get_render_slice(9, 2), Vec::<u8>::new());
    assert_eq!(r.get_render_slice(0, 2), b"he".to_vec());
    assert_eq!(r.get_highlight_at(99), Highlight::Normal);
    assert_eq!(r.len(), 5);
    assert_eq!(r.get_text(), &b"hello".to_vec());
    assert_eq!(r.get_render(), &b"hello".to_vec());
}

#[test]
fn rules_are_selected_by_extension() {
    for name in ["a.c", "a.h", "b.cpp"] {
        let mut e = Editor::new(10, 40);
        e.open(name.as_bytes().to_vec(), &b"int x;\n".to_vec());
        assert_eq!(e.syntax.file_type, b"c".to_vec(), "rules for {}", name);
    }
    let mut plain = Editor::new(10, 40);
    plain.open(b"a.txt".to_vec(), &b"int x;\n".to_vec());
    assert_eq!(plain.syntax.file_type, Vec::<u8>::new());
    assert_eq!(plain.rows[0].highlight[0], Highlight::Normal);
}
