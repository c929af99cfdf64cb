use vimacs::keys::Key;
use vimacs::keys::decode;
use vimacs::keys::parse_cursor_report;
use vimacs::prompt::PromptEvent;
use vimacs::prompt::prompt_step;

#[test]
fn plain_bytes_decode_to_characters() {
    assert_eq!(decode(Some(b'a'), 0, 0, 0), Key::Char(b'a'));
    assert_eq!(decode(Some(13), 0, 0, 0), Key::Char(13));
    assert_eq!(decode(None, 0, 0, 0), Key::Nothing);
}

#[test]
fn csi_letter_sequences() {
    assert_eq!(decode(Some(27), b'[', b'A', 0), Key::ArrowUp);
    assert_eq!(decode(Some(27), b'[', b'B', 0), Key::ArrowDown);
    assert_eq!(decode(Some(27), b'[', b'C', 0), Key::ArrowRight);
    assert_eq!(decode(Some(27), b'[', b'D', 0), Key::ArrowLeft);
    assert_eq!(decode(Some(27), b'[', b'H', 0), Key::Home);
    assert_eq!(decode(Some(27), b'[', b'F', 0), Key::End);
}

#[test]
fn csi_digit_tilde_sequences() {
    assert_eq!(decode(Some(27), b'[', b'1', b'~'), Key::Home);
    assert_eq!(decode(Some(27), b'[', b'3', b'~'), Key::Delete);
    assert_eq!(decode(Some(27), b'[', b'4', b'~'), Key::End);
    assert_eq!(decode(Some(27), b'[', b'5', b'~'), Key::PageUp);
    assert_eq!(decode(Some(27), b'[', b'6', b'~'), Key::PageDown);
    assert_eq!(decode(Some(27), b'[', b'7', b'~'), Key::Home);
    assert_eq!(decode(Some(27), b'[', b'8', b'~'), Key::End);
    assert_eq!(decode(Some(27), b'[', b'9', b'~'), Key::Escape);
    assert_eq!(decode(Some(27), b'[', b'5', 0), Key::PageUp);
    assert_eq!(decode(Some(27), b'[', b'6', 0), Key::PageDown);
}

#[test]
fn alternate_reply_formats() {
    assert_eq!(decode(Some(27), b'O', b'H', 0), Key::Home);
    assert_eq!(decode(Some(27), b'O', b'F', 0), Key::End);
    assert_eq!(decode(Some(27), b'O', b'Z', 0), Key::Escape);
    assert_eq!(decode(Some(27), b'C', b'A', 0), Key::PageUp);
    assert_eq!(decode(Some(27), b'C', b'B', 0), Key::PageDown);
    assert_eq!(decode(Some(27), b'C', b'C', 0), Key::End);
    assert_eq!(decode(Some(27), b'C', b'D', 0), Key::Home);
}

#[test]
fn malformed_sequences_normalise_to_escape() {
    assert_eq!(decode(Some(27), 0, 0, 0), Key::Escape);
    assert_eq!(decode(Some(27), b'[', b'Z', 0), Key::Escape);
    assert_eq!(decode(Some(27), b'X', b'A', 0), Key::Escape);
}

#[test]
fn cursor_report_parses() {
    assert_eq!(parse_cursor_report(&b"\x1b[24;80R".to_vec()), Some((24, 80)));
    assert_eq!(parse_cursor_report(&b"junk\x1b[3;9Rtail".to_vec()), Some((3, 9)));
    assert_eq!(parse_cursor_report(&b"no report".to_vec()), None);
    assert_eq!(parse_cursor_report(&b"\x1b[12;x".to_vec()), None);
    assert_eq!(parse_cursor_report(&b"\x1b[12".to_vec()), None);
    assert_eq!(parse_cursor_report(&b"".to_vec()), None);
}

#[test]
fn prompt_typing_and_erasing() {
    match prompt_step(b"ab".to_vec(), Key::Char(b'c'), false) {
        PromptEvent::Pending(v) => assert_eq!(v, b"abc".to_vec()),
        _ => panic!("typing keeps a normal prompt open"),
    }
    match prompt_step(b"ab".to_vec(), Key::Char(b'c'), true) {
        PromptEvent::Changed(v) => assert_eq!(v, b"abc".to_vec()),
        _ => panic!("typing reports a change interactively"),
    }
    match prompt_step(b"ab".to_vec(), Key::Char(127), true) {
        PromptEvent::Changed(v) => assert_eq!(v, b"a".to_vec()),
        _ => panic!("erasing reports the shorter input"),
    }
    match prompt_step(b"a".to_vec(), Key::Char(8), true) {
        PromptEvent::Pending(v) => assert_eq!(v, b"".to_vec()),
        _ => panic!("erasing to empty keeps prompting"),
    }
}

#[test]
fn prompt_submit_accept_cancel() {
    match prompt_step(b"name".to_vec(), Key::Char(13), false) {
        PromptEvent::Submitted(v) => assert_eq!(v, b"name".to_vec()),
        _ => panic!("return submits a normal prompt"),
    }
    match prompt_step(b"q".to_vec(), Key::Char(13), true) {
        PromptEvent::Accepted(v) => assert_eq!(v, b"q".to_vec()),
        _ => panic!("return accepts an interactive prompt"),
    }
    assert!(matches!(prompt_step(b"q".to_vec(), Key::Escape, true), PromptEvent::Cancelled));
    match prompt_step(b"".to_vec(), Key::Char(13), true) {
        PromptEvent::Pending(v) => assert_eq!(v, b"".to_vec()),
        _ => panic!("return on empty input keeps prompting"),
    }
}

#[test]
fn prompt_arrows_navigate_or_submit() {
    assert!(matches!(
        prompt_step(b"q".to_vec(), Key::ArrowRight, true),
        PromptEvent::FindNext(_)
    ));
    assert!(matches!(
        prompt_step(b"q".to_vec(), Key::ArrowDown, true),
        PromptEvent::FindNext(_)
    ));
    assert!(matches!(
        prompt_step(b"q".to_vec(), Key::ArrowLeft, true),
        PromptEvent::FindPrev(_)
    ));
    assert!(matches!(prompt_step(b"q".to_vec(), Key::ArrowUp, true), PromptEvent::FindPrev(_)));
    assert!(matches!(
        prompt_step(b"q".to_vec(), Key::ArrowRight, false),
        PromptEvent::Submitted(_)
    ));
    assert!(matches!(prompt_step(b"".to_vec(), Key::ArrowRight, true), PromptEvent::Pending(_)));
}

#[test]
fn prompt_ignores_space_and_controls() {
    assert!(matches!(prompt_step(b"q".to_vec(), Key::Char(b' '), true), PromptEvent::Pending(_)));
    assert!(matches!(prompt_step(b"q".to_vec(), Key::PageUp, true), PromptEvent::Pending(_)));
}
