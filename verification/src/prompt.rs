//! The prompt line: one keystroke of editing on the input being typed,
//! reported back to the caller as a prompt event.
//!
//! In normal mode the caller keeps prompting until the input is submitted
//! or cancelled. In interactive mode every change of the input is
//! reported at once, and the arrow keys ask for the next or previous
//! search result instead of submitting.

use vstd::prelude::*;

use crate::keys::Key;

verus! {

/// What one prompt keystroke amounts to.
pub enum PromptEvent {
    /// No event yet: keep reading keys with this input.
    Pending(Vec<u8>),
    /// The prompt was abandoned.
    Cancelled,
    /// The input was submitted (normal mode).
    Submitted(Vec<u8>),
    /// The input changed under an interactive prompt.
    Changed(Vec<u8>),
    /// Ask for the next match of this input (interactive mode).
    FindNext(Vec<u8>),
    /// Ask for the previous match of this input (interactive mode).
    FindPrev(Vec<u8>),
    /// The input was accepted under an interactive prompt.
    Accepted(Vec<u8>),
}

/// The keys that erase one character: forward delete, Ctrl-H, backspace.
pub open spec fn is_erase_key(key: Key) -> bool {
    key == Key::Delete || key == Key::Char(8u8) || key == Key::Char(127u8)
}

/// The printable bytes a prompt accepts (space excluded).
pub open spec fn is_prompt_printable(key: Key) -> bool {
    key matches Key::Char(c) && 32 < c < 127
}

/// The input with its last character erased, if any.
pub open spec fn popped(s: Seq<u8>) -> Seq<u8> {
    if s.len() > 0 {
        s.drop_last()
    } else {
        s
    }
}

/// The keystroke neither cancels, erases, submits, types, nor navigates:
/// the prompt keeps waiting.
pub open spec fn prompt_passive(input: Seq<u8>, key: Key) -> bool {
    &&& key != Key::Escape
    &&& !is_erase_key(key)
    &&& !(key == Key::Char(13u8) && input.len() > 0)
    &&& !is_prompt_printable(key)
    &&& !(input.len() > 0 && (key == Key::ArrowLeft || key == Key::ArrowUp || key
        == Key::ArrowRight || key == Key::ArrowDown))
}

/// Apply one keystroke to the prompt input. Escape cancels; the erase
/// keys drop the last character; Return submits (or accepts) a non-empty
/// input; printable bytes append; with a non-empty input the arrow keys
/// submit it, or in interactive mode ask for the previous (left/up) or
/// next (right/down) match; anything else keeps prompting.
pub fn prompt_step(input: Vec<u8>, key: Key, interactive: bool) -> (r: PromptEvent)
    ensures
        (key == Key::Escape) == (r is Cancelled),
        key != Key::Escape && is_erase_key(key) ==> {
            let p = popped(input@);
            if interactive && p.len() > 0 {
                r matches PromptEvent::Changed(v) && v@ == p
            } else {
                r matches PromptEvent::Pending(v) && v@ == p
            }
        },
        key == Key::Char(13u8) && input@.len() > 0 ==> {
            if interactive {
                r matches PromptEvent::Accepted(v) && v@ == input@
            } else {
                r matches PromptEvent::Submitted(v) && v@ == input@
            }
        },
        is_prompt_printable(key) ==> (key matches Key::Char(c) && {
            let p = input@.push(c);
            if interactive {
                r matches PromptEvent::Changed(v) && v@ == p
            } else {
                r matches PromptEvent::Pending(v) && v@ == p
            }
        }),
        input@.len() > 0 && (key == Key::ArrowLeft || key == Key::ArrowUp) ==> {
            if interactive {
                r matches PromptEvent::FindPrev(v) && v@ == input@
            } else {
                r matches PromptEvent::Submitted(v) && v@ == input@
            }
        },
        input@.len() > 0 && (key == Key::ArrowRight || key == Key::ArrowDown) ==> {
            if interactive {
                r matches PromptEvent::FindNext(v) && v@ == input@
            } else {
                r matches PromptEvent::Submitted(v) && v@ == input@
            }
        },
        prompt_passive(input@, key) ==> (r matches PromptEvent::Pending(v) && v@ == input@),
{
    let mut input = input;
    if key == Key::Escape {
        return PromptEvent::Cancelled;
    }
    if key == Key::Delete || key == Key::Char(8) || key == Key::Char(127) {
        input.pop();
        if interactive && input.len() > 0 {
            return PromptEvent::Changed(input);
        }
        return PromptEvent::Pending(input);
    }
    if key == Key::Char(13) && input.len() > 0 {
        if interactive {
            return PromptEvent::Accepted(input);
        }
        return PromptEvent::Submitted(input);
    }
    if let Key::Char(c) = key {
        if 32 < c && c < 127 {
            input.push(c);
            if interactive {
                return PromptEvent::Changed(input);
            }
            return PromptEvent::Pending(input);
        }
    }
    if input.len() > 0 && (key == Key::ArrowLeft || key == Key::ArrowUp) {
        if interactive {
            return PromptEvent::FindPrev(input);
        }
        return PromptEvent::Submitted(input);
    }
    if input.len() > 0 && (key == Key::ArrowRight || key == Key::ArrowDown) {
        if interactive {
            return PromptEvent::FindNext(input);
        }
        return PromptEvent::Submitted(input);
    }
    PromptEvent::Pending(input)
}

} // verus!
