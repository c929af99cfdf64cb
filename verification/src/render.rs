//! Building the output frame: per-row content with color switches, the
//! status bar, the message bar, and the cursor positioning — one buffer
//! per frame, flushed by the caller in a single write.

use vstd::prelude::*;

use crate::editor::Editor;
use crate::messages::lines_label_spec;
use crate::messages::lines_label;
use crate::messages::lines_separator_spec;
use crate::messages::lines_separator;
use crate::messages::modified_label_spec;
use crate::messages::modified_label;
use crate::messages::no_filetype_label_spec;
use crate::messages::no_filetype_label;
use crate::messages::no_name_label_spec;
use crate::messages::no_name_label;
use crate::messages::welcome_message_spec;
use crate::messages::welcome_message;
use crate::row::Row;
use crate::row::clamped_slice;
use crate::row::copy_range;
use crate::row::spaces;
use crate::syntax::Highlight;
use crate::syntax::bytes_of;

verus! {

/// The decimal digits of `n`.
pub open spec fn dec_spec(n: nat) -> Seq<u8>
    decreases n,
{
    if n < 10 {
        seq![(48 + n) as u8]
    } else {
        dec_spec(n / 10).push((48 + n % 10) as u8)
    }
}

/// `n` in decimal.
pub fn usize_to_dec(n: usize) -> (r: Vec<u8>)
    ensures
        r@ == dec_spec(n as nat),
    decreases n,
{
    if n < 10 {
        let mut r: Vec<u8> = Vec::new();
        r.push(48 + (n as u8));
        proof {
            assert(r@ =~= dec_spec(n as nat));
        }
        r
    } else {
        let mut r = usize_to_dec(n / 10);
        r.push(48 + ((n % 10) as u8));
        r
    }
}

/// The fixed color code of a highlight class.
pub open spec fn color_of(h: Highlight) -> nat {
    match h {
        Highlight::Number => 31,
        Highlight::Normal => 39,
        Highlight::Match => 34,
        Highlight::Comment => 36,
        Highlight::Str => 35,
        Highlight::Keyword1 => 33,
        Highlight::Keyword2 => 32,
    }
}

/// The escape sequence switching the text color of a highlight class.
pub open spec fn color_seq(h: Highlight) -> Seq<u8> {
    seq![27u8, 91u8] + dec_spec(color_of(h)) + seq![109u8]
}

/// The tag of render column `idx`, `Normal` beyond the tags.
pub open spec fn hl_at(row: Row, idx: int) -> Highlight {
    if 0 <= idx < row.highlight@.len() {
        row.highlight@[idx]
    } else {
        Highlight::Normal
    }
}

/// The bytes of the visible slice `s` of a row, starting at absolute
/// render column `base + j` with previous class `prev`: a color switch is
/// emitted only where the class changes from the previous column.
pub open spec fn row_colored(row: Row, base: int, s: Seq<u8>, j: int, prev: Highlight) -> Seq<u8>
    decreases s.len() - j,
{
    if j < 0 || j >= s.len() {
        Seq::empty()
    } else {
        let h = hl_at(row, base + j);
        let head = if h != prev {
            color_seq(h) + seq![s[j]]
        } else {
            seq![s[j]]
        };
        head + row_colored(row, base, s, j + 1, h)
    }
}

/// The reset-to-default-color sequence.
pub open spec fn color_reset() -> Seq<u8> {
    seq![27u8, 91u8, 51u8, 57u8, 109u8]
}

/// Clear-to-end-of-line plus carriage return and line feed.
pub open spec fn line_suffix() -> Seq<u8> {
    seq![27u8, 91u8, 75u8, 13u8, 10u8]
}

/// The welcome line of an empty document, centred to the screen width.
pub open spec fn welcome_line_spec(cols: int) -> Seq<u8> {
    let w = welcome_message_spec();
    if w.len() > cols {
        w.take(cols)
    } else {
        let pad = (cols - w.len()) / 2;
        if pad > 0 {
            seq![126u8] + spaces((pad - 1) as nat) + w
        } else {
            w
        }
    }
}

/// The content of screen line `i`: a document row with its color
/// switches behind a leading tilde, the welcome line on an empty
/// document, or a bare tilde beyond the document's end.
pub open spec fn screen_line_spec(e: Editor, i: int) -> Seq<u8> {
    let cr = i + e.row_offset;
    if cr >= e.rows@.len() {
        if e.rows@.len() == 0 && i == e.screen_rows as int / 4 {
            welcome_line_spec(e.screen_cols as int)
        } else {
            seq![126u8]
        }
    } else {
        let row = e.rows@[cr];
        seq![126u8] + row_colored(
            row,
            e.col_offset as int,
            clamped_slice(row.rendered@, e.col_offset as int, e.col_offset + e.screen_cols),
            0,
            Highlight::Normal,
        ) + color_reset()
    }
}

/// The screen lines from `i` down, each closed by the line suffix.
pub open spec fn draw_rows_spec(e: Editor, i: int) -> Seq<u8>
    decreases e.screen_rows - i,
{
    if i < 0 || i >= e.screen_rows {
        Seq::empty()
    } else {
        screen_line_spec(e, i) + line_suffix() + draw_rows_spec(e, i + 1)
    }
}

/// The left text of the status bar: the file name (truncated to twenty
/// characters, or a stand-in when unnamed), the row count, the modified
/// mark, and the file-type label.
pub open spec fn status_left_spec(e: Editor) -> Seq<u8> {
    let name = if e.file_name@.len() == 0 {
        no_name_label_spec()
    } else if e.file_name@.len() <= 20 {
        e.file_name@
    } else {
        e.file_name@.take(20)
    };
    let base = name + lines_separator_spec() + dec_spec(e.rows@.len()) + lines_label_spec();
    let with_dirty = if e.dirty {
        base + modified_label_spec()
    } else {
        base
    };
    if e.syntax.file_type@.len() == 0 {
        with_dirty + no_filetype_label_spec()
    } else {
        with_dirty + e.syntax.file_type@
    }
}

/// The right text of the status bar: `current/total` rows.
pub open spec fn status_right_spec(e: Editor) -> Seq<u8> {
    dec_spec((e.cy + 1) as nat) + seq![47u8] + dec_spec(e.rows@.len())
}

/// The status line, padded or truncated to exactly the screen width, the
/// right text right-aligned when it fits.
pub open spec fn status_line_spec(e: Editor) -> Seq<u8> {
    let left = status_left_spec(e);
    let right = status_right_spec(e);
    let cols = e.screen_cols as int;
    if left.len() >= cols {
        left.take(cols)
    } else if right.len() <= cols - left.len() {
        left + spaces((cols - left.len() - right.len()) as nat) + right
    } else {
        left + spaces((cols - left.len()) as nat)
    }
}

/// Invert-video on.
pub open spec fn invert_on() -> Seq<u8> {
    seq![27u8, 91u8, 55u8, 109u8]
}

/// Formatting reset plus carriage return and line feed.
pub open spec fn invert_off_crlf() -> Seq<u8> {
    seq![27u8, 91u8, 109u8, 13u8, 10u8]
}

/// The full status bar as written to the frame.
pub open spec fn status_bar_spec(e: Editor) -> Seq<u8> {
    invert_on() + status_line_spec(e) + invert_off_crlf()
}

/// The message bar: clear the line, then the status message truncated to
/// the screen width — empty once the message has expired.
pub open spec fn message_bar_spec(e: Editor, visible: bool) -> Seq<u8> {
    let clear = seq![27u8, 91u8, 75u8];
    if !visible {
        clear
    } else if e.status_msg@.len() > e.screen_cols {
        clear + e.status_msg@.take(e.screen_cols as int)
    } else {
        clear + e.status_msg@
    }
}

/// Hide the cursor and home it.
pub open spec fn frame_prefix() -> Seq<u8> {
    seq![27u8, 91u8, 63u8, 50u8, 53u8, 108u8, 27u8, 91u8, 72u8]
}

/// Reposition the cursor inside the viewport and show it again.
pub open spec fn frame_suffix(e: Editor) -> Seq<u8> {
    seq![27u8, 91u8] + dec_spec((e.cy - e.row_offset + 1) as nat) + seq![59u8] + dec_spec(
        (e.rx - e.col_offset + 2) as nat,
    ) + seq![72u8] + seq![27u8, 91u8, 63u8, 50u8, 53u8, 104u8]
}

/// One whole frame, drawn from an already-scrolled editor state.
pub open spec fn frame_spec(e: Editor, msg_visible: bool) -> Seq<u8> {
    frame_prefix() + draw_rows_spec(e, 0) + status_bar_spec(e) + message_bar_spec(e, msg_visible)
        + frame_suffix(e)
}

impl Editor {
    /// The color-switch sequence for render column `i` of a row.
    pub fn index_to_color_string(&self, row: &Row, i: usize) -> (r: Vec<u8>)
        ensures
            r@ == color_seq(hl_at(*row, i as int)),
    {
        let color = self.syntax_to_color(row.get_highlight_at(i));
        let mut r = bytes_of([27u8, 91u8]);
        let d = usize_to_dec(color);
        crate::editor::append_bytes(&mut r, &d);
        r.push(109);
        proof {
            assert(r@ =~= color_seq(hl_at(*row, i as int)));
        }
        r
    }

    /// The fixed color code of a highlight class.
    pub fn syntax_to_color(&self, highlight: Highlight) -> (r: usize)
        ensures
            r == color_of(highlight),
    {
        match highlight {
            Highlight::Number => 31,
            Highlight::Normal => 39,
            Highlight::Match => 34,
            Highlight::Comment => 36,
            Highlight::Str => 35,
            Highlight::Keyword1 => 33,
            Highlight::Keyword2 => 32,
        }
    }

    /// Append the visible document rows (or filler lines) to the frame.
    pub fn draw_rows(&self, output: &mut Vec<u8>)
        requires
            self.wf(),
        ensures
            final(output)@ == old(output)@ + draw_rows_spec(*self, 0),
    {
        let mut i: usize = 0;
        while i < self.screen_rows
            invariant
                i <= self.screen_rows,
                self.wf(),
                old(output)@ + draw_rows_spec(*self, 0) == output@ + draw_rows_spec(
                    *self,
                    i as int,
                ),
            decreases self.screen_rows - i,
        {
            let ghost out0 = output@;
            let current_row = i + self.row_offset;
            if current_row >= self.rows.len() {
                if self.rows.len() == 0 && i == self.screen_rows / 4 {
                    self.draw_welcome(output);
                } else {
                    output.push(126);
                    proof {
                        assert(output@ =~= out0 + seq![126u8]);
                    }
                }
            } else {
                self.draw_visible_row(output, current_row);
            }
            output.push(27);
            output.push(91);
            output.push(75);
            output.push(13);
            output.push(10);
            proof {
                assert(output@ =~= out0 + screen_line_spec(*self, i as int) + line_suffix());
                assert(out0 + (screen_line_spec(*self, i as int) + (line_suffix()
                    + draw_rows_spec(*self, i + 1))) =~= (out0 + screen_line_spec(*self, i as int)
                    + line_suffix()) + draw_rows_spec(*self, i + 1));
            }
            i = i + 1;
        }
        proof {
            assert(output@ + Seq::<u8>::empty() =~= output@);
        }
    }

    /// Append the centred welcome line.
    fn draw_welcome(&self, output: &mut Vec<u8>)
        requires
            self.wf(),
        ensures
            final(output)@ == old(output)@ + welcome_line_spec(self.screen_cols as int),
    {
        let w = welcome_message();
        if w.len() > self.screen_cols {
            let cut = copy_range(&w, 0, self.screen_cols);
            crate::editor::append_bytes(output, &cut);
            proof {
                assert(cut@ =~= welcome_message_spec().take(self.screen_cols as int));
            }
        } else {
            let pad = (self.screen_cols - w.len()) / 2;
            let ghost out0 = output@;
            if pad > 0 {
                output.push(126);
                let mut j: usize = 1;
                while j < pad
                    invariant
                        1 <= j <= pad,
                        output@ == out0 + seq![126u8] + spaces((j - 1) as nat),
                    decreases pad - j,
                {
                    output.push(32);
                    proof {
                        assert(out0 + seq![126u8] + spaces(j as nat) =~= (out0 + seq![126u8]
                            + spaces((j - 1) as nat)).push(32u8));
                    }
                    j = j + 1;
                }
                crate::editor::append_bytes(output, &w);
                proof {
                    assert(output@ =~= out0 + welcome_line_spec(self.screen_cols as int));
                }
            } else {
                crate::editor::append_bytes(output, &w);
            }
        }
    }

    /// Append one visible document row: the leading tilde, the visible
    /// slice with color switches, and the color reset.
    fn draw_visible_row(&self, output: &mut Vec<u8>, current_row: usize)
        requires
            self.wf(),
            current_row < self.rows@.len(),
        ensures
            final(output)@ == old(output)@ + screen_line_spec(
                *self,
                current_row - self.row_offset,
            ),
    {
        let ghost i = current_row - self.row_offset as int;
        let ghost out0 = output@;
        output.push(126);
        let row = &self.rows[current_row];
        let slice = row.get_render_slice(self.col_offset, self.col_offset + self.screen_cols);
        let n = slice.len();
        proof {
            assert(n <= self.screen_cols);
        }
        let mut j: usize = 0;
        let mut prev = Highlight::Normal;
        let ghost base_out = output@;
        while j < n
            invariant
                j <= n,
                n == slice@.len(),
                n <= self.screen_cols,
                self.wf(),
                *row == self.rows@[current_row as int],
                current_row < self.rows@.len(),
                slice@ == clamped_slice(
                    row.rendered@,
                    self.col_offset as int,
                    self.col_offset + self.screen_cols,
                ),
                base_out + row_colored(*row, self.col_offset as int, slice@, 0, Highlight::Normal)
                    == output@ + row_colored(*row, self.col_offset as int, slice@, j as int, prev),
            decreases n - j,
        {
            let ghost outp = output@;
            let h = row.get_highlight_at(self.col_offset + j);
            if h != prev {
                let cs = self.index_to_color_string(row, self.col_offset + j);
                crate::editor::append_bytes(output, &cs);
            }
            output.push(slice[j]);
            proof {
                let hs = hl_at(*row, self.col_offset + j);
                if hs != prev {
                    assert(output@ =~= outp + (color_seq(hs) + seq![slice@[j as int]]));
                } else {
                    assert(output@ =~= outp + seq![slice@[j as int]]);
                }
                assert(outp + ((if hs != prev {
                    color_seq(hs) + seq![slice@[j as int]]
                } else {
                    seq![slice@[j as int]]
                }) + row_colored(*row, self.col_offset as int, slice@, j + 1, hs)) =~= output@
                    + row_colored(*row, self.col_offset as int, slice@, j + 1, hs));
            }
            prev = h;
            j = j + 1;
        }
        output.push(27);
        output.push(91);
        output.push(51);
        output.push(57);
        output.push(109);
        proof {
            assert(row_colored(*row, self.col_offset as int, slice@, n as int, prev)
                == Seq::<u8>::empty());
            assert(output@ + Seq::<u8>::empty() =~= output@);
            assert(output@ =~= out0 + screen_line_spec(*self, i));
        }
    }

    /// The left text of the status bar.
    fn status_left(&self) -> (r: Vec<u8>)
        ensures
            r@ == status_left_spec(*self),
    {
        let mut left: Vec<u8> = if self.file_name.len() == 0 {
            no_name_label()
        } else if self.file_name.len() <= 20 {
            copy_range(&self.file_name, 0, self.file_name.len())
        } else {
            copy_range(&self.file_name, 0, 20)
        };
        proof {
            if self.file_name@.len() != 0 && self.file_name@.len() <= 20 {
                assert(left@ =~= self.file_name@);
            }
        }
        let sep = lines_separator();
        crate::editor::append_bytes(&mut left, &sep);
        let count = usize_to_dec(self.rows.len());
        crate::editor::append_bytes(&mut left, &count);
        let label = lines_label();
        crate::editor::append_bytes(&mut left, &label);
        if self.dirty {
            let m = modified_label();
            crate::editor::append_bytes(&mut left, &m);
        }
        if self.syntax.file_type.len() == 0 {
            let ft = no_filetype_label();
            crate::editor::append_bytes(&mut left, &ft);
        } else {
            let ft = copy_range(&self.syntax.file_type, 0, self.syntax.file_type.len());
            proof {
                assert(ft@ =~= self.syntax.file_type@);
            }
            crate::editor::append_bytes(&mut left, &ft);
        }
        proof {
            assert(left@ =~= status_left_spec(*self));
        }
        left
    }

    /// The right text of the status bar.
    fn status_right(&self) -> (r: Vec<u8>)
        requires
            self.wf(),
        ensures
            r@ == status_right_spec(*self),
    {
        let mut right = usize_to_dec(self.cy + 1);
        right.push(47);
        let total = usize_to_dec(self.rows.len());
        crate::editor::append_bytes(&mut right, &total);
        proof {
            assert(right@ =~= status_right_spec(*self));
        }
        right
    }

    /// The status line, padded or truncated to exactly the screen width.
    fn status_line(&self) -> (r: Vec<u8>)
        requires
            self.wf(),
        ensures
            r@ == status_line_spec(*self),
    {
        let left = self.status_left();
        let right = self.status_right();
        let cols = self.screen_cols;
        if left.len() >= cols {
            let cut = copy_range(&left, 0, cols);
            proof {
                assert(cut@ =~= status_line_spec(*self));
            }
            cut
        } else {
            let space = cols - left.len();
            let mut line = copy_range(&left, 0, left.len());
            proof {
                assert(line@ =~= left@);
            }
            if right.len() <= space {
                let mut p: usize = 0;
                let pad = space - right.len();
                let ghost base = line@;
                while p < pad
                    invariant
                        p <= pad,
                        line@ == base + spaces(p as nat),
                    decreases pad - p,
                {
                    line.push(32);
                    proof {
                        assert(base + spaces((p + 1) as nat) =~= (base + spaces(p as nat)).push(
                            32u8,
                        ));
                    }
                    p = p + 1;
                }
                crate::editor::append_bytes(&mut line, &right);
                proof {
                    assert(line@ =~= status_line_spec(*self));
                }
                line
            } else {
                let mut p: usize = 0;
                let ghost base = line@;
                while p < space
                    invariant
                        p <= space,
                        line@ == base + spaces(p as nat),
                    decreases space - p,
                {
                    line.push(32);
                    proof {
                        assert(base + spaces((p + 1) as nat) =~= (base + spaces(p as nat)).push(
                            32u8,
                        ));
                    }
                    p = p + 1;
                }
                proof {
                    assert(line@ =~= status_line_spec(*self));
                }
                line
            }
        }
    }

    /// Append the status bar.
    pub fn draw_status_bar(&self, output: &mut Vec<u8>)
        requires
            self.wf(),
        ensures
            final(output)@ == old(output)@ + status_bar_spec(*self),
    {
        let ghost out0 = output@;
        output.push(27);
        output.push(91);
        output.push(55);
        output.push(109);
        let line = self.status_line();
        crate::editor::append_bytes(output, &line);
        output.push(27);
        output.push(91);
        output.push(109);
        output.push(13);
        output.push(10);
        proof {
            assert(output@ =~= out0 + status_bar_spec(*self));
        }
    }

    /// Append the message bar; `visible` says whether the message is
    /// still inside its display window.
    pub fn draw_message_bar(&self, output: &mut Vec<u8>, visible: bool)
        ensures
            final(output)@ == old(output)@ + message_bar_spec(*self, visible),
    {
        let ghost out0 = output@;
        output.push(27);
        output.push(91);
        output.push(75);
        if !visible {
            proof {
                assert(output@ =~= out0 + message_bar_spec(*self, visible));
            }
            return;
        }
        if self.status_msg.len() > self.screen_cols {
            let cut = copy_range(&self.status_msg, 0, self.screen_cols);
            crate::editor::append_bytes(output, &cut);
            proof {
                assert(output@ =~= out0 + message_bar_spec(*self, visible));
            }
        } else {
            let msg = copy_range(&self.status_msg, 0, self.status_msg.len());
            crate::editor::append_bytes(output, &msg);
            proof {
                assert(msg@ =~= self.status_msg@);
                assert(output@ =~= out0 + message_bar_spec(*self, visible));
            }
        }
    }

    /// Scroll the viewport after the cursor and build the whole frame as
    /// one buffer, ready for a single write.
    pub fn refresh_screen(&mut self, msg_visible: bool) -> (frame: Vec<u8>)
        requires
            old(self).wf(),
        ensures
            final(self).wf(),
            frame@ == frame_spec(*final(self), msg_visible),
            final(self).row_offset <= final(self).cy,
            final(self).cy < final(self).row_offset + final(self).screen_rows,
            final(self).col_offset <= final(self).rx,
            final(self).rx < final(self).col_offset + final(self).screen_cols,
            *final(self) == (Editor {
                rx: final(self).rx,
                row_offset: final(self).row_offset,
                col_offset: final(self).col_offset,
                ..*old(self)
            }),
    {
        self.scroll();
        let mut output = bytes_of([27u8, 91u8, 63u8, 50u8, 53u8, 108u8, 27u8, 91u8, 72u8]);
        proof {
            assert(output@ =~= frame_prefix());
        }
        self.draw_rows(&mut output);
        self.draw_status_bar(&mut output);
        self.draw_message_bar(&mut output, msg_visible);
        let ghost out0 = output@;
        output.push(27);
        output.push(91);
        let rowpos = usize_to_dec(self.cy - self.row_offset + 1);
        crate::editor::append_bytes(&mut output, &rowpos);
        output.push(59);
        let colpos = usize_to_dec(self.rx - self.col_offset + 2);
        crate::editor::append_bytes(&mut output, &colpos);
        output.push(72);
        output.push(27);
        output.push(91);
        output.push(63);
        output.push(50);
        output.push(53);
        output.push(104);
        proof {
            assert(output@ =~= out0 + frame_suffix(*self));
        }
        output
    }
}

} // verus!
