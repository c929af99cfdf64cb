//! Decoding raw input bytes into logical key events, and parsing the
//! terminal's cursor-position report.

use vstd::prelude::*;

verus! {

/// A logical key event, produced from one byte or one escape sequence.
/// `Nothing` is the neutral event of a read that timed out with no byte at
/// all; it is distinct from every real key.
#[derive(Clone, Copy, PartialEq, Eq, Structural, Debug)]
pub enum Key {
    Nothing,
    Escape,
    Char(u8),
    ArrowUp,
    ArrowDown,
    ArrowLeft,
    ArrowRight,
    PageUp,
    PageDown,
    Home,
    End,
    Delete,
}

/// The decoding table. `first` is the first byte read (`None` when the
/// read timed out empty); `s0,s1,s2` are the follow-up bytes read after an
/// escape byte, zero-filled when fewer arrived.
pub open spec fn decode_spec(first: Option<u8>, s0: u8, s1: u8, s2: u8) -> Key {
    match first {
        None => Key::Nothing,
        Some(b) => {
            if b != 27 {
                Key::Char(b)
            } else if s0 == 91 {
                if 48 <= s1 <= 57 && s2 == 126 {
                    if s1 == 49 {
                        Key::Home
                    } else if s1 == 51 {
                        Key::Delete
                    } else if s1 == 52 {
                        Key::End
                    } else if s1 == 53 {
                        Key::PageUp
                    } else if s1 == 54 {
                        Key::PageDown
                    } else if s1 == 55 {
                        Key::Home
                    } else if s1 == 56 {
                        Key::End
                    } else {
                        Key::Escape
                    }
                } else if s1 == 53 {
                    Key::PageUp
                } else if s1 == 54 {
                    Key::PageDown
                } else if s1 == 65 {
                    Key::ArrowUp
                } else if s1 == 66 {
                    Key::ArrowDown
                } else if s1 == 67 {
                    Key::ArrowRight
                } else if s1 == 68 {
                    Key::ArrowLeft
                } else if s1 == 72 {
                    Key::Home
                } else if s1 == 70 {
                    Key::End
                } else {
                    Key::Escape
                }
            } else if s0 == 79 {
                if s1 == 72 {
                    Key::Home
                } else if s1 == 70 {
                    Key::End
                } else {
                    Key::Escape
                }
            } else if s0 == 67 {
                if s1 == 65 {
                    Key::PageUp
                } else if s1 == 66 {
                    Key::PageDown
                } else if s1 == 67 {
                    Key::End
                } else if s1 == 68 {
                    Key::Home
                } else {
                    Key::Escape
                }
            } else {
                Key::Escape
            }
        },
    }
}

/// Decode one key press. Anything that is not a recognised escape
/// sequence normalises to a bare `Escape`; an empty read is `Nothing`.
pub fn decode(first: Option<u8>, s0: u8, s1: u8, s2: u8) -> (r: Key)
    ensures
        r == decode_spec(first, s0, s1, s2),
{
    match first {
        None => Key::Nothing,
        Some(b) => {
            if b != 27 {
                Key::Char(b)
            } else if s0 == 91 {
                if 48 <= s1 && s1 <= 57 && s2 == 126 {
                    if s1 == 49 {
                        Key::Home
                    } else if s1 == 51 {
                        Key::Delete
                    } else if s1 == 52 {
                        Key::End
                    } else if s1 == 53 {
                        Key::PageUp
                    } else if s1 == 54 {
                        Key::PageDown
                    } else if s1 == 55 {
                        Key::Home
                    } else if s1 == 56 {
                        Key::End
                    } else {
                        Key::Escape
                    }
                } else if s1 == 53 {
                    Key::PageUp
                } else if s1 == 54 {
                    Key::PageDown
                } else if s1 == 65 {
                    Key::ArrowUp
                } else if s1 == 66 {
                    Key::ArrowDown
                } else if s1 == 67 {
                    Key::ArrowRight
                } else if s1 == 68 {
                    Key::ArrowLeft
                } else if s1 == 72 {
                    Key::Home
                } else if s1 == 70 {
                    Key::End
                } else {
                    Key::Escape
                }
            } else if s0 == 79 {
                if s1 == 72 {
                    Key::Home
                } else if s1 == 70 {
                    Key::End
                } else {
                    Key::Escape
                }
            } else if s0 == 67 {
                if s1 == 65 {
                    Key::PageUp
                } else if s1 == 66 {
                    Key::PageDown
                } else if s1 == 67 {
                    Key::End
                } else if s1 == 68 {
                    Key::Home
                } else {
                    Key::Escape
                }
            } else {
                Key::Escape
            }
        },
    }
}

/// The position of the first `ESC [` pair at or after `i`.
pub open spec fn first_esc_bracket(s: Seq<u8>, i: int) -> Option<int>
    decreases s.len() - i,
{
    if i < 0 || i + 1 >= s.len() {
        None
    } else if s[i] == 27 && s[i + 1] == 91 {
        Some(i)
    } else {
        first_esc_bracket(s, i + 1)
    }
}

/// Parse a decimal run starting at `i`, ending at the terminator byte
/// `term`; `acc` carries the value of the digits already read.
pub open spec fn num_until(s: Seq<u8>, i: int, term: u8, acc: int) -> Option<(int, int)>
    decreases s.len() - i,
{
    if i < 0 || i >= s.len() {
        None
    } else if s[i] == term {
        Some((acc, i))
    } else if 48 <= s[i] <= 57 {
        num_until(s, i + 1, term, acc * 10 + (s[i] - 48))
    } else {
        None
    }
}

/// The meaning of a cursor-position report `ESC [ <rows> ; <cols> R`
/// anywhere in the buffer.
pub open spec fn parse_report(s: Seq<u8>) -> Option<(int, int)> {
    match first_esc_bracket(s, 0) {
        None => None,
        Some(i) => match num_until(s, i + 2, 59, 0) {
            None => None,
            Some((rows, j)) => match num_until(s, j + 1, 82, 0) {
                None => None,
                Some((cols, k)) => Some((rows, cols)),
            },
        },
    }
}

/// Parse the terminal's cursor-position report from a raw read buffer.
/// `None` when the buffer holds no well-formed report, or when a value
/// does not fit the machine word.
pub fn parse_cursor_report(buf: &Vec<u8>) -> (r: Option<(usize, usize)>)
    ensures
        match r {
            Some(rc) => parse_report(buf@) == Some((rc.0 as int, rc.1 as int)),
            None => parse_report(buf@) is None || (parse_report(buf@) matches Some(v) && (v.0
                > usize::MAX || v.1 > usize::MAX)),
        },
{
    let n = buf.len();
    let mut i: usize = 0;
    loop
        invariant
            i <= n,
            n == buf@.len(),
            first_esc_bracket(buf@, 0) == first_esc_bracket(buf@, i as int),
        ensures
            i + 1 < n,
            first_esc_bracket(buf@, 0) == Some(i as int),
        decreases n - i,
    {
        if n == 0 || i >= n - 1 {
            return None;
        }
        if buf[i] == 27 && buf[i + 1] == 91 {
            break;
        }
        i = i + 1;
    }
    let rows = match parse_num_until(buf, i + 2, 59) {
        Some(p) => p,
        None => {
            return None;
        },
    };
    let cols = match parse_num_until(buf, rows.1 + 1, 82) {
        Some(p) => p,
        None => {
            return None;
        },
    };
    Some((rows.0, cols.0))
}

/// The executable decimal-run parser behind `parse_cursor_report`.
/// `None` either mirrors the specification's `None` or reports a value
/// too large for the machine word.
fn parse_num_until(buf: &Vec<u8>, start: usize, term: u8) -> (r: Option<(usize, usize)>)
    ensures
        match r {
            Some(p) => num_until(buf@, start as int, term, 0) == Some((p.0 as int, p.1 as int))
                && p.1 < buf@.len(),
            None => num_until(buf@, start as int, term, 0) is None || (num_until(
                buf@,
                start as int,
                term,
                0,
            ) matches Some(v) && v.0 > usize::MAX),
        },
{
    let n = buf.len();
    let mut i: usize = start;
    let mut acc: usize = 0;
    loop
        invariant
            start <= i,
            n == buf@.len(),
            num_until(buf@, start as int, term, 0) == num_until(buf@, i as int, term, acc as int),
        ensures
            i < n,
            buf@[i as int] == term,
            num_until(buf@, start as int, term, 0) == Some((acc as int, i as int)),
        decreases n - i,
    {
        if i >= n {
            return None;
        }
        let c = buf[i];
        if c == term {
            break;
        }
        if c < 48 || c > 57 {
            return None;
        }
        let d = (c - 48) as usize;
        if acc > usize::MAX / 10 {
            proof {
                lemma_num_until_grows(buf@, i + 1, term, acc * 10 + d);
            }
            return None;
        }
        let mul = acc * 10;
        if d > usize::MAX - mul {
            proof {
                lemma_num_until_grows(buf@, i + 1, term, acc * 10 + d);
            }
            return None;
        }
        acc = mul + d;
        i = i + 1;
    }
    Some((acc, i))
}

/// A decimal run only ever grows the accumulated value.
proof fn lemma_num_until_grows(s: Seq<u8>, i: int, term: u8, acc: int)
    requires
        acc >= 0,
    ensures
        num_until(s, i, term, acc) matches Some(v) ==> v.0 >= acc,
    decreases s.len() - i,
{
    if 0 <= i < s.len() && s[i] != term && 48 <= s[i] <= 57 {
        lemma_num_until_grows(s, i + 1, term, acc * 10 + (s[i] - 48));
    }
}

} // verus!
