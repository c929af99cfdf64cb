//! The editor state: document rows, cursor and viewport, search anchors,
//! and the dispatch of logical keys onto them.

use vstd::prelude::*;

use crate::keys::Key;
use crate::messages::updated_syntax_prefix;
use crate::messages::updated_syntax_prefix_spec;
use crate::messages::help_message;
use crate::messages::help_message_spec;
use crate::messages::warn_quit_prefix;
use crate::messages::warn_quit_suffix;
use crate::messages::warn_quit_prefix_spec;
use crate::messages::warn_quit_suffix_spec;
use crate::row::MAX_ROW;
use crate::row::Row;
use crate::row::bytes_eq_at;
use crate::row::match_at;
use crate::row::rx_spec;
use crate::row::save_spec;
use crate::row::set_from_spec;
use crate::row::set_group_spec;
use crate::messages::saved_message;
use crate::messages::saved_message_spec;
use crate::prompt::PromptEvent;
use crate::storage::SaveProtocol;
use crate::storage::SaveStage;
use crate::storage::split_lines;
use crate::storage::split_lines_spec;
use crate::storage::texts_of;
use crate::syntax::Highlight;
use crate::syntax::Syntax;
use crate::syntax::highlight_spec;
use crate::syntax::syntax_is_c;

verus! {

/// Largest number of rows a document may hold; keeps row arithmetic,
/// including the viewport offsets, inside `usize` on every target.
pub const MAX_ROWS: usize = 0x0FFF_FFFF;

/// Largest screen dimension accepted from the terminal.
pub const MAX_SCREEN: usize = 65535;

/// Number of consecutive quit presses demanded while changes are unsaved.
pub const QUIT_PRESSES: usize = 3;

/// What the run loop must do after a key was dispatched: nothing further,
/// leave the process, drive the save protocol, or run the search prompt.
#[derive(Clone, Copy, PartialEq, Eq, Structural, Debug)]
pub enum EditorAction {
    Idle,
    Quit,
    Save,
    Find,
}

/// `t` ends with `s`.
pub open spec fn ends_with_spec(t: Seq<u8>, s: Seq<u8>) -> bool {
    &&& s.len() <= t.len()
    &&& t.subrange(t.len() - s.len(), t.len() as int) == s
}

/// Whether `v` ends with `suffix`.
pub fn ends_with_bytes(v: &Vec<u8>, suffix: &Vec<u8>) -> (r: bool)
    ensures
        r == ends_with_spec(v@, suffix@),
{
    if suffix.len() > v.len() {
        return false;
    }
    bytes_eq_at(v, v.len() - suffix.len(), suffix)
}

/// Whether `v` contains the byte `b`.
pub fn has_byte(v: &Vec<u8>, b: u8) -> (r: bool)
    ensures
        r == v@.contains(b),
{
    let n = v.len();
    let mut i: usize = 0;
    while i < n
        invariant
            i <= n,
            n == v@.len(),
            forall|j: int| 0 <= j < i ==> v@[j] != b,
        decreases n - i,
    {
        if v[i] == b {
            return true;
        }
        i = i + 1;
    }
    false
}

/// Whether `pat` occurs anywhere in `v`.
pub fn has_sub(v: &Vec<u8>, pat: &Vec<u8>) -> (r: bool)
    ensures
        r == exists|i: int| match_at(v@, pat@, i),
{
    let n = v.len();
    let m = pat.len();
    if m > n {
        return false;
    }
    if m == 0 {
        proof {
            assert(v@.subrange(0, 0) =~= pat@);
            assert(match_at(v@, pat@, 0));
        }
        return true;
    }
    let last = n - m;
    let mut i: usize = 0;
    while i <= last
        invariant
            i <= last + 1,
            last == n - m,
            1 <= m,
            n == v@.len(),
            m == pat@.len(),
            forall|j: int| 0 <= j < i ==> !match_at(v@, pat@, j),
        decreases last + 1 - i,
    {
        if bytes_eq_at(v, i, pat) {
            return true;
        }
        i = i + 1;
    }
    proof {
        assert forall|j: int| !match_at(v@, pat@, j) by {
            if 0 <= j && j + pat@.len() <= v@.len() {
                assert(j <= last);
            }
        }
    }
    false
}

/// Append `src` to `dst`.
pub fn append_bytes(dst: &mut Vec<u8>, src: &Vec<u8>)
    ensures
        final(dst)@ == old(dst)@ + src@,
{
    let n = src.len();
    let mut i: usize = 0;
    while i < n
        invariant
            i <= n,
            n == src@.len(),
            dst@ == old(dst)@ + src@.take(i as int),
        decreases n - i,
    {
        dst.push(src[i]);
        proof {
            assert(old(dst)@ + src@.take(i + 1) =~= (old(dst)@ + src@.take(i as int)).push(
                src@[i as int],
            ));
        }
        i = i + 1;
    }
    proof {
        assert(src@.take(n as int) =~= src@);
    }
}

/// The larger of two values.
pub open spec fn spec_max(a: int, b: int) -> int {
    if a >= b {
        a
    } else {
        b
    }
}

/// The raw length of row `y` of `rows`, zero outside the document.
pub open spec fn row_len_of(rows: Seq<Row>, y: int) -> int {
    if 0 <= y < rows.len() {
        rows[y].text@.len() as int
    } else {
        0
    }
}

/// One cursor move: the arrow's own step — with the remembered "sticky"
/// column applied on vertical motion — followed by the clamp to the
/// landing row's length, which in turn remembers the clamped-away column.
/// The result is the new `(cx, cy, prev_cx)`.
pub open spec fn move_cursor_spec(
    rows: Seq<Row>,
    cx: int,
    cy: int,
    prev_cx: int,
    key: Key,
) -> (int, int, int) {
    let stepped = if key == Key::ArrowUp {
        (spec_max(cx, prev_cx), if cy != 0 {
            cy - 1
        } else {
            0
        }, prev_cx)
    } else if key == Key::ArrowDown {
        (spec_max(cx, prev_cx), if cy < rows.len() {
            cy + 1
        } else {
            cy
        }, prev_cx)
    } else if key == Key::ArrowLeft {
        if cx > 0 {
            (cx - 1, cy, 0)
        } else if cy > 0 {
            (row_len_of(rows, cy - 1), cy - 1, 0)
        } else {
            (0, cy, 0)
        }
    } else if key == Key::ArrowRight {
        let rl = row_len_of(rows, cy);
        if cx < rl {
            (cx + 1, cy, 0)
        } else if cy < rows.len() && cx == rl {
            (0, cy + 1, 0)
        } else {
            (cx, cy, 0)
        }
    } else {
        (cx, cy, prev_cx)
    };
    let nl = row_len_of(rows, stepped.1);
    if stepped.0 > nl {
        (nl, stepped.1, stepped.0)
    } else {
        stepped
    }
}

/// `k` repetitions of one cursor move.
pub open spec fn multi_move(
    rows: Seq<Row>,
    cx: int,
    cy: int,
    prev_cx: int,
    key: Key,
    k: nat,
) -> (int, int, int)
    decreases k,
{
    if k == 0 {
        (cx, cy, prev_cx)
    } else {
        let s = multi_move(rows, cx, cy, prev_cx, key, (k - 1) as nat);
        move_cursor_spec(rows, s.0, s.1, s.2, key)
    }
}

/// The smaller of two values.
pub open spec fn spec_min(a: int, b: int) -> int {
    if a <= b {
        a
    } else {
        b
    }
}

/// The editor with only its status message replaced.
pub open spec fn with_status(e: Editor, msg: Vec<u8>) -> Editor {
    Editor { status_msg: msg, ..e }
}

/// The clamp of a cursor triple to its landing row's length; clamping
/// remembers the clamped-away column as the sticky column.
pub open spec fn clamp_cursor(rows: Seq<Row>, s: (int, int, int)) -> (int, int, int) {
    let nl = row_len_of(rows, s.1);
    if s.0 > nl {
        (nl, s.1, s.0)
    } else {
        s
    }
}

/// The unsaved-changes warning, naming the presses left.
pub open spec fn warn_msg_spec(presses: int) -> Seq<u8> {
    warn_quit_prefix_spec() + seq![(48 + presses) as u8] + warn_quit_suffix_spec()
}

/// The query occurs somewhere in the text.
pub open spec fn has_match_in(t: Seq<u8>, q: Seq<u8>) -> bool {
    exists|x: int| match_at(t, q, x)
}

/// `x` is the first occurrence of the query in the text.
pub open spec fn first_match_at(t: Seq<u8>, q: Seq<u8>, x: int) -> bool {
    &&& match_at(t, q, x)
    &&& forall|j: int| 0 <= j < x ==> !match_at(t, q, j)
}

/// `x` is the first occurrence strictly after `from`.
pub open spec fn first_match_after(t: Seq<u8>, q: Seq<u8>, from: int, x: int) -> bool {
    &&& x > from
    &&& match_at(t, q, x)
    &&& forall|j: int| from < j < x ==> !match_at(t, q, j)
}

/// `x` is the last occurrence of the query in the text.
pub open spec fn last_match_at(t: Seq<u8>, q: Seq<u8>, x: int) -> bool {
    &&& match_at(t, q, x)
    &&& forall|j: int| j > x ==> !match_at(t, q, j)
}

/// `x` is the last occurrence strictly before `before`.
pub open spec fn last_match_before(t: Seq<u8>, q: Seq<u8>, before: int, x: int) -> bool {
    &&& x < before
    &&& match_at(t, q, x)
    &&& forall|j: int| x < j < before ==> !match_at(t, q, j)
}

/// The row visited `k` steps forward of `sy`, wrapping past the last row.
pub open spec fn wrap_fwd(sy: int, k: int, n: int) -> int {
    if sy + k < n {
        sy + k
    } else {
        sy + k - n
    }
}

/// The row visited `k` steps backward of `sy`, wrapping past the first row.
pub open spec fn wrap_back(sy: int, k: int, n: int) -> int {
    if sy - k >= 0 {
        sy - k
    } else {
        sy - k + n
    }
}

/// A match of length `qlen` at `(y, x)` was marked: its span now carries
/// the `Match` tag, and the tags it overwrote are saved for the next
/// restore. Nothing else of the document changed.
pub open spec fn match_marked(pre: Editor, post: Editor, y: int, x: int, qlen: int) -> bool {
    &&& 0 <= y < pre.rows@.len()
    &&& post.rows@.len() == pre.rows@.len()
    &&& forall|i: int| 0 <= i < pre.rows@.len() && i != y ==> post.rows@[i] == pre.rows@[i]
    &&& post.rows@[y].text == pre.rows@[y].text
    &&& post.rows@[y].rendered == pre.rows@[y].rendered
    &&& post.rows@[y].highlight@ == set_from_spec(
        pre.rows@[y].highlight@,
        Highlight::Match,
        x,
        qlen,
    )
    &&& (post.saved_highlight matches Some(v) && v@ == save_spec(pre.rows@[y].highlight@, x, qlen))
}

/// The row a forward search starts in: the cursor row, or the first row
/// when the cursor sits past the document.
pub open spec fn start_row_fwd(pre: Editor) -> int {
    if pre.cy >= pre.rows@.len() {
        0
    } else {
        pre.cy as int
    }
}

/// The row a backward search starts in: the cursor row, or the last row
/// when the cursor sits past the document.
pub open spec fn start_row_back(pre: Editor) -> int {
    if pre.cy < pre.rows@.len() {
        pre.cy as int
    } else {
        pre.rows@.len() - 1
    }
}

/// The query occurs in some row of the document.
pub open spec fn any_row_has_match(rows: Seq<Row>, q: Seq<u8>) -> bool {
    exists|y: int| 0 <= y < rows.len() && has_match_in((#[trigger] rows[y]).text@, q)
}

/// The query occurs in the forward start row strictly after the cursor.
pub open spec fn fwd_tail_has_match(pre: Editor, q: Seq<u8>) -> bool {
    exists|x: int| x > pre.cx && match_at(pre.rows@[start_row_fwd(pre)].text@, q, x)
}

/// The query occurs in the backward start row strictly before the cursor.
pub open spec fn back_head_has_match(pre: Editor, q: Seq<u8>) -> bool {
    exists|x: int| x < pre.cx && match_at(pre.rows@[start_row_back(pre)].text@, q, x)
}

/// The forward wrap landed after `k` whole-row steps: the cursor sits on
/// the first occurrence in that row, and no earlier visited row held one.
pub open spec fn fwd_wrap_found(pre: Editor, post: Editor, q: Seq<u8>, k: int) -> bool {
    let n = pre.rows@.len() as int;
    &&& 1 <= k <= n
    &&& post.cy as int == wrap_fwd(start_row_fwd(pre), k, n)
    &&& first_match_at(pre.rows@[post.cy as int].text@, q, post.cx as int)
    &&& forall|k2: int|
        1 <= k2 < k ==> !has_match_in(
            pre.rows@[#[trigger] wrap_fwd(start_row_fwd(pre), k2, n)].text@,
            q,
        )
}

/// The backward wrap landed after `k` whole-row steps: the cursor sits on
/// the last occurrence in that row, and no earlier visited row held one.
pub open spec fn back_wrap_found(pre: Editor, post: Editor, q: Seq<u8>, k: int) -> bool {
    let n = pre.rows@.len() as int;
    &&& 1 <= k <= n
    &&& post.cy as int == wrap_back(start_row_back(pre), k, n)
    &&& last_match_at(pre.rows@[post.cy as int].text@, q, post.cx as int)
    &&& forall|k2: int|
        1 <= k2 < k ==> !has_match_in(
            pre.rows@[#[trigger] wrap_back(start_row_back(pre), k2, n)].text@,
            q,
        )
}

/// The whole effect of one "find next": nothing, when the query occurs
/// nowhere; else the cursor lands on the next occurrence in cyclic order —
/// first the remainder of the start row after the cursor, then each
/// following row's first occurrence, wrapping, the start row itself last —
/// and the found span is marked.
pub open spec fn find_next_rel(pre: Editor, post: Editor, q: Seq<u8>, found: bool) -> bool {
    if pre.rows@.len() == 0 {
        !found && post == pre
    } else {
        &&& found == any_row_has_match(pre.rows@, q)
        &&& !found ==> post == pre
        &&& found ==> {
            &&& match_marked(pre, post, post.cy as int, post.cx as int, q.len() as int)
            &&& post == (Editor {
                cx: post.cx,
                cy: post.cy,
                rows: post.rows,
                saved_highlight: post.saved_highlight,
                ..pre
            })
            &&& if fwd_tail_has_match(pre, q) {
                post.cy as int == start_row_fwd(pre) && first_match_after(
                    pre.rows@[start_row_fwd(pre)].text@,
                    q,
                    pre.cx as int,
                    post.cx as int,
                )
            } else {
                exists|k: int| #[trigger] fwd_wrap_found(pre, post, q, k)
            }
        }
    }
}

/// The whole effect of one "find previous", the mirror image of
/// `find_next_rel`: the remainder of the start row before the cursor
/// first, then each preceding row's last occurrence, wrapping backward.
pub open spec fn find_prev_rel(pre: Editor, post: Editor, q: Seq<u8>, found: bool) -> bool {
    if pre.rows@.len() == 0 {
        !found && post == pre
    } else {
        &&& found == any_row_has_match(pre.rows@, q)
        &&& !found ==> post == pre
        &&& found ==> {
            &&& match_marked(pre, post, post.cy as int, post.cx as int, q.len() as int)
            &&& post == (Editor {
                cx: post.cx,
                cy: post.cy,
                rows: post.rows,
                saved_highlight: post.saved_highlight,
                ..pre
            })
            &&& if back_head_has_match(pre, q) {
                post.cy as int == start_row_back(pre) && last_match_before(
                    pre.rows@[start_row_back(pre)].text@,
                    q,
                    pre.cx as int,
                    post.cx as int,
                )
            } else {
                exists|k: int| #[trigger] back_wrap_found(pre, post, q, k)
            }
        }
    }
}

/// The place of position `(y, x)` in the cyclic forward search order: the
/// remainder of the start row after the cursor comes first (rank zero),
/// then each following row in wrapping order, and the start row up to the
/// cursor comes last.
pub open spec fn cyc_rank(pre: Editor, y: int, x: int) -> int {
    let n = pre.rows@.len() as int;
    let sy = start_row_fwd(pre);
    if y == sy && x > pre.cx {
        0
    } else if y > sy {
        y - sy
    } else if y < sy {
        y - sy + n
    } else {
        n
    }
}

/// `(y1, x1)` comes strictly before `(y2, x2)` in the cyclic forward
/// search order that starts just after the cursor.
pub open spec fn cyc_before(pre: Editor, y1: int, x1: int, y2: int, x2: int) -> bool {
    ||| cyc_rank(pre, y1, x1) < cyc_rank(pre, y2, x2)
    ||| (cyc_rank(pre, y1, x1) == cyc_rank(pre, y2, x2) && x1 < x2)
}

/// The search is cyclic, one step at a time: a successful "find next"
/// lands on an occurrence of the query, and no other occurrence lies
/// cyclically between the cursor and the landing point. Repeated "find
/// next" therefore walks the occurrences in cyclic order and, after as
/// many steps as there are occurrences, returns to the first one.
pub proof fn lemma_find_next_lands_on_nearest(pre: Editor, post: Editor, q: Seq<u8>)
    requires
        find_next_rel(pre, post, q, true),
        pre.rows@.len() > 0,
    ensures
        0 <= post.cy < pre.rows@.len(),
        match_at(pre.rows@[post.cy as int].text@, q, post.cx as int),
        forall|y: int, x: int|
            0 <= y < pre.rows@.len() && #[trigger] match_at(pre.rows@[y].text@, q, x) ==> !cyc_before(
                pre,
                y,
                x,
                post.cy as int,
                post.cx as int,
            ),
{
    let n = pre.rows@.len() as int;
    let sy = start_row_fwd(pre);
    let ly = post.cy as int;
    let lx = post.cx as int;
    if fwd_tail_has_match(pre, q) {
        assert(ly == sy && first_match_after(pre.rows@[sy].text@, q, pre.cx as int, lx));
        assert(cyc_rank(pre, ly, lx) == 0);
        assert forall|y: int, x: int|
            0 <= y < n && #[trigger] match_at(pre.rows@[y].text@, q, x) implies !cyc_before(
            pre,
            y,
            x,
            ly,
            lx,
        ) by {
            if cyc_before(pre, y, x, ly, lx) {
                assert(cyc_rank(pre, y, x) == 0 && x < lx);
                assert(y == sy && x > pre.cx);
                assert(!match_at(pre.rows@[sy].text@, q, x));
            }
        }
    } else {
        let k = choose|k: int| #[trigger] fwd_wrap_found(pre, post, q, k);
        assert(fwd_wrap_found(pre, post, q, k));
        assert(match_at(pre.rows@[ly].text@, q, lx));
        assert(cyc_rank(pre, ly, lx) == k) by {
            if k < n {
                assert(ly == wrap_fwd(sy, k, n));
                assert(ly != sy);
            } else {
                assert(ly == wrap_fwd(sy, n, n) == sy);
                assert(lx <= pre.cx) by {
                    if lx > pre.cx {
                        assert(fwd_tail_has_match(pre, q));
                    }
                }
            }
        }
        assert forall|y: int, x: int|
            0 <= y < n && #[trigger] match_at(pre.rows@[y].text@, q, x) implies !cyc_before(
            pre,
            y,
            x,
            ly,
            lx,
        ) by {
            if cyc_before(pre, y, x, ly, lx) {
                let r = cyc_rank(pre, y, x);
                assert(r <= k);
                if r == 0 {
                    assert(y == sy && x > pre.cx);
                    assert(fwd_tail_has_match(pre, q));
                } else if r < k {
                    assert(wrap_fwd(sy, r, n) == y);
                    assert(!has_match_in(pre.rows@[wrap_fwd(sy, r, n)].text@, q));
                    assert(has_match_in(pre.rows@[y].text@, q));
                } else {
                    assert(r == k && x < lx);
                    assert(y == ly) by {
                        if k < n {
                            assert(wrap_fwd(sy, r, n) == y);
                        } else {
                            assert(y == sy);
                        }
                    }
                    assert(first_match_at(pre.rows@[ly].text@, q, lx));
                }
            }
        }
    }
}

/// A row-major coordinate for cursor positions. One row spans more
/// columns than any row can hold (`MAX_ROW + 1` many), so distinct
/// positions get distinct coordinates and row-major order is coordinate
/// order.
pub open spec fn cpos(y: int, x: int) -> int {
    y * 0x1000_0000 + x
}

/// The forward cyclic distance from the cursor to position `(y, x)`: the
/// coordinate difference, wrapped once around the document for positions
/// at or before the cursor (the cursor's own position is a full cycle
/// away).
pub open spec fn cyc_dist(pre: Editor, y: int, x: int) -> int {
    let d = cpos(y, x) - cpos(start_row_fwd(pre), pre.cx as int);
    if d > 0 {
        d
    } else {
        d + pre.rows@.len() * 0x1000_0000
    }
}

/// The cyclic distance expands to the rank-and-column form: `rank` whole
/// rows plus the column offset from the cursor.
proof fn lemma_cyc_dist_rank(pre: Editor, y: int, x: int)
    requires
        pre.rows@.len() >= 1,
        0 <= y < pre.rows@.len(),
        0 <= x < 0x1000_0000,
        pre.cx < 0x1000_0000,
    ensures
        cyc_dist(pre, y, x) == cyc_rank(pre, y, x) * 0x1000_0000 + x - pre.cx,
{
}

/// The anchored cyclic order and the cyclic distance agree.
proof fn lemma_cyc_before_iff_dist(pre: Editor, y1: int, x1: int, y2: int, x2: int)
    requires
        pre.rows@.len() >= 1,
        0 <= y1 < pre.rows@.len(),
        0 <= y2 < pre.rows@.len(),
        0 <= x1 < 0x1000_0000,
        0 <= x2 < 0x1000_0000,
        pre.cx < 0x1000_0000,
    ensures
        cyc_before(pre, y1, x1, y2, x2) <==> cyc_dist(pre, y1, x1) < cyc_dist(pre, y2, x2),
{
    lemma_cyc_dist_rank(pre, y1, x1);
    lemma_cyc_dist_rank(pre, y2, x2);
}

/// The index one step onward in a cyclic walk over `n` slots.
pub open spec fn idx_step(j: int, n: int) -> int {
    if j + 1 < n {
        j + 1
    } else {
        0
    }
}

/// The index `k` steps onward in a cyclic walk over `n` slots.
pub open spec fn idx_add(j: int, k: nat, n: int) -> int
    decreases k,
{
    if k == 0 {
        j
    } else {
        idx_step(idx_add(j, (k - 1) as nat, n), n)
    }
}

proof fn lemma_idx_add_no_wrap(j: int, k: nat, n: int)
    requires
        0 <= j,
        j + k < n,
    ensures
        idx_add(j, k, n) == j + k,
    decreases k,
{
    if k > 0 {
        lemma_idx_add_no_wrap(j, (k - 1) as nat, n);
    }
}

proof fn lemma_idx_add_split(j: int, a: nat, b: nat, n: int)
    ensures
        idx_add(j, a + b, n) == idx_add(idx_add(j, a, n), b, n),
    decreases b,
{
    if b > 0 {
        lemma_idx_add_split(j, a, (b - 1) as nat, n);
        assert(a + b == (a + (b - 1) as nat) + 1);
        assert(idx_add(j, a + b, n) == idx_step(idx_add(j, (a + b - 1) as nat, n), n));
    }
}

/// A whole cycle of `n` steps returns to the same slot.
proof fn lemma_idx_add_full(j: int, n: int)
    requires
        0 <= j < n,
    ensures
        idx_add(j, n as nat, n) == j,
{
    let a = (n - 1 - j) as nat;
    lemma_idx_add_no_wrap(j, a, n);
    assert(idx_add(j, a, n) == n - 1);
    lemma_idx_add_split(j, a, (1 + j) as nat, n);
    assert(a + (1 + j) as nat == n as nat);
    lemma_idx_add_split(n - 1, 1nat, j as nat, n);
    assert(idx_add(n - 1, 0nat, n) == n - 1);
    assert(idx_add(n - 1, 1nat, n) == 0);
    lemma_idx_add_no_wrap(0, j as nat, n);
}

/// `occs` lists every occurrence of the query in the document, each
/// exactly once, in row-major order.
pub open spec fn occurrence_list(rows: Seq<Row>, q: Seq<u8>, occs: Seq<(int, int)>) -> bool {
    &&& forall|i: int|
        0 <= i < occs.len() ==> {
            let p = #[trigger] occs[i];
            0 <= p.0 < rows.len() && match_at(rows[p.0].text@, q, p.1)
        }
    &&& forall|i: int, i2: int|
        #![trigger occs[i], occs[i2]]
        0 <= i < i2 < occs.len() ==> cpos(occs[i].0, occs[i].1) < cpos(occs[i2].0, occs[i2].1)
    &&& forall|y: int, x: int|
        0 <= y < rows.len() && #[trigger] match_at(rows[y].text@, q, x) ==> exists|i: int|
            0 <= i < occs.len() && occs[i] == (y, x)
}

/// A search step keeps the session well formed and leaves every row's
/// raw text (and with it the occurrence set) unchanged.
pub proof fn lemma_find_next_preserves(pre: Editor, post: Editor, q: Seq<u8>, found: bool)
    requires
        pre.wf(),
        find_next_rel(pre, post, q, found),
    ensures
        post.wf(),
        post.rows@.len() == pre.rows@.len(),
        forall|y: int| 0 <= y < pre.rows@.len() ==> (#[trigger] post.rows@[y]).text == pre.rows@[y].text,
{
    if pre.rows@.len() > 0 && found {
        let y = post.cy as int;
        assert(match_marked(pre, post, y, post.cx as int, q.len() as int));
        assert forall|i: int| 0 <= i < post.rows@.len() implies (#[trigger] post.rows@[i]).wf() by {
            if i != y {
                assert(post.rows@[i] == pre.rows@[i]);
            } else {
                assert(post.rows@[i].text == pre.rows@[i].text);
                assert(post.rows@[i].rendered == pre.rows@[i].rendered);
            }
        }
    }
}

/// The search visits occurrences in forward wrap order, one per call:
/// from the occurrence at slot `j` of the row-major occurrence list, a
/// successful "find next" lands exactly on the occurrence at the next
/// slot, wrapping from the last slot back to the first.
pub proof fn lemma_find_next_visits_in_order(
    pre: Editor,
    post: Editor,
    q: Seq<u8>,
    occs: Seq<(int, int)>,
    j: int,
)
    requires
        pre.wf(),
        q.len() >= 1,
        pre.rows@.len() > 0,
        find_next_rel(pre, post, q, true),
        occurrence_list(pre.rows@, q, occs),
        0 <= j < occs.len(),
        pre.cy as int == occs[j].0,
        pre.cx as int == occs[j].1,
    ensures
        post.cy as int == occs[idx_step(j, occs.len() as int)].0,
        post.cx as int == occs[idx_step(j, occs.len() as int)].1,
{
    let n = pre.rows@.len() as int;
    let nn = occs.len() as int;
    let w: int = 0x1000_0000;
    assert(start_row_fwd(pre) == pre.cy as int);
    assert forall|i: int| 0 <= i < nn implies 0 <= (#[trigger] occs[i]).1 < w && 0 <= occs[i].0
        < n && cpos(occs[i].0, occs[i].1) < n * w by {
        assert(match_at(pre.rows@[occs[i].0].text@, q, occs[i].1));
        assert(pre.rows@[occs[i].0].wf());
        assert(occs[i].1 + q.len() <= pre.rows@[occs[i].0].text@.len());
    }
    assert(pre.cx < w);
    lemma_find_next_lands_on_nearest(pre, post, q);
    let ry = post.cy as int;
    let rx = post.cx as int;
    let j2 = choose|i: int| 0 <= i < occs.len() && occs[i] == (ry, rx);
    assert(0 <= j2 < nn && occs[j2] == (ry, rx));
    let tj = idx_step(j, nn);
    let ty = occs[tj].0;
    let tx = occs[tj].1;
    let cj = cpos(occs[j].0, occs[j].1);
    // the next slot minimises the cyclic distance over the whole list
    assert forall|i: int| 0 <= i < nn implies cyc_dist(pre, ty, tx) <= cyc_dist(
        pre,
        occs[i].0,
        occs[i].1,
    ) by {
        let ci = cpos(occs[i].0, occs[i].1);
        let ct = cpos(ty, tx);
        if j + 1 < nn {
            assert(ct > cj);
            if i > j {
                assert(ci >= ct);
            } else {
                assert(ci <= cj);
                assert(cyc_dist(pre, occs[i].0, occs[i].1) == ci - cj + n * w);
            }
        } else {
            assert(tj == 0);
            assert(ct <= cj);
            assert(ci <= cj);
            assert(ci >= ct);
        }
    }
    // the landing minimises it too, by the cyclically-nearest property
    assert forall|i: int| 0 <= i < nn implies cyc_dist(pre, ry, rx) <= cyc_dist(
        pre,
        occs[i].0,
        occs[i].1,
    ) by {
        assert(match_at(pre.rows@[occs[i].0].text@, q, occs[i].1));
        assert(!cyc_before(pre, occs[i].0, occs[i].1, ry, rx));
        lemma_cyc_before_iff_dist(pre, occs[i].0, occs[i].1, ry, rx);
    }
    // two minima of an injective distance coincide
    assert(cyc_dist(pre, ty, tx) == cyc_dist(pre, ry, rx));
    assert(cpos(ty, tx) == cpos(ry, rx)) by {
        let ct = cpos(ty, tx);
        let cr = cpos(ry, rx);
        assert(0 <= ct < n * w && 0 <= cr < n * w);
    }
    assert(ty == ry && tx == rx);
}

/// The slot walk along a chain of search steps: from slot `j` at state
/// `i`, the remaining steps advance the slot once each, cyclically.
proof fn lemma_cycle_chain(
    states: Seq<Editor>,
    q: Seq<u8>,
    occs: Seq<(int, int)>,
    i: int,
    j: int,
)
    requires
        q.len() >= 1,
        occs.len() >= 1,
        2 <= states.len(),
        1 <= i < states.len(),
        forall|k: int|
            0 <= k < states.len() - 1 ==> find_next_rel(#[trigger] states[k], states[k + 1], q, true),
        states[i].wf(),
        states[i].rows@.len() > 0,
        occurrence_list(states[i].rows@, q, occs),
        0 <= j < occs.len(),
        states[i].cy as int == occs[j].0,
        states[i].cx as int == occs[j].1,
    ensures
        states.last().cy as int == occs[idx_add(
            j,
            (states.len() - 1 - i) as nat,
            occs.len() as int,
        )].0,
        states.last().cx as int == occs[idx_add(
            j,
            (states.len() - 1 - i) as nat,
            occs.len() as int,
        )].1,
    decreases states.len() - i,
{
    let nn = occs.len() as int;
    if i == states.len() - 1 {
        assert(idx_add(j, 0nat, nn) == j);
    } else {
        let pre = states[i];
        let post = states[i + 1];
        assert(find_next_rel(pre, post, q, true));
        lemma_find_next_visits_in_order(pre, post, q, occs, j);
        lemma_find_next_preserves(pre, post, q, true);
        assert(occurrence_list(post.rows@, q, occs)) by {
            assert forall|i2: int| 0 <= i2 < occs.len() implies {
                let p = #[trigger] occs[i2];
                0 <= p.0 < post.rows@.len() && match_at(post.rows@[p.0].text@, q, p.1)
            } by {
                assert(match_at(pre.rows@[occs[i2].0].text@, q, occs[i2].1));
                assert(post.rows@[occs[i2].0].text == pre.rows@[occs[i2].0].text);
            }
            assert forall|y: int, x: int|
                0 <= y < post.rows@.len() && #[trigger] match_at(post.rows@[y].text@, q, x)
                    implies exists|i2: int| 0 <= i2 < occs.len() && occs[i2] == (y, x) by {
                assert(post.rows@[y].text == pre.rows@[y].text);
                assert(match_at(pre.rows@[y].text@, q, x));
            }
        }
        let j1 = idx_step(j, nn);
        lemma_cycle_chain(states, q, occs, i + 1, j1);
        let rest = (states.len() - 2 - i) as nat;
        lemma_idx_add_split(j, 1nat, rest, nn);
        assert(idx_add(j, 0nat, nn) == j);
        assert(idx_add(j, 1nat, nn) == j1);
        assert((states.len() - 1 - i) as nat == 1nat + rest);
    }
}

/// The search cycle closed: over a document holding exactly the
/// occurrences of `occs` (each once, in row-major order), a run of
/// `occs.len() + 1` consecutive successful "find next" calls ends on the
/// very position the first call found — the walk visits one occurrence
/// per call in forward wrap order and returns to the first match.
/// `states` are the editor states around the calls: `states[k]` steps to
/// `states[k + 1]`.
pub proof fn lemma_find_next_full_cycle(states: Seq<Editor>, q: Seq<u8>, occs: Seq<(int, int)>)
    requires
        q.len() >= 1,
        occs.len() >= 1,
        states.len() == occs.len() + 2,
        states[0].wf(),
        states[0].rows@.len() > 0,
        occurrence_list(states[0].rows@, q, occs),
        forall|k: int|
            0 <= k < states.len() - 1 ==> find_next_rel(#[trigger] states[k], states[k + 1], q, true),
    ensures
        states.last().cy == states[1].cy,
        states.last().cx == states[1].cx,
{
    let nn = occs.len() as int;
    assert(find_next_rel(states[0], states[1], q, true));
    lemma_find_next_lands_on_nearest(states[0], states[1], q);
    lemma_find_next_preserves(states[0], states[1], q, true);
    let ry = states[1].cy as int;
    let rx = states[1].cx as int;
    assert(match_at(states[0].rows@[ry].text@, q, rx));
    let j1 = choose|i: int| 0 <= i < occs.len() && occs[i] == (ry, rx);
    assert(0 <= j1 < nn && occs[j1] == (ry, rx));
    assert(occurrence_list(states[1].rows@, q, occs)) by {
        assert forall|i2: int| 0 <= i2 < occs.len() implies {
            let p = #[trigger] occs[i2];
            0 <= p.0 < states[1].rows@.len() && match_at(states[1].rows@[p.0].text@, q, p.1)
        } by {
            assert(match_at(states[0].rows@[occs[i2].0].text@, q, occs[i2].1));
            assert(states[1].rows@[occs[i2].0].text == states[0].rows@[occs[i2].0].text);
        }
        assert forall|y: int, x: int|
            0 <= y < states[1].rows@.len() && #[trigger] match_at(states[1].rows@[y].text@, q, x)
                implies exists|i2: int| 0 <= i2 < occs.len() && occs[i2] == (y, x) by {
            assert(states[1].rows@[y].text == states[0].rows@[y].text);
            assert(match_at(states[0].rows@[y].text@, q, x));
        }
    }
    lemma_cycle_chain(states, q, occs, 1, j1);
    assert((states.len() - 2) as nat == nn as nat);
    lemma_idx_add_full(j1, nn);
}

/// The search is cyclic: with a single occurrence of the query in the
/// whole document and the cursor already on it, "find next" wraps through
/// every row and returns to that same occurrence. (With several
/// occurrences, `find_next_rel` states the cyclic order one step at a
/// time: the remainder of the current row first, then each following
/// row, wrapping, the current row last.)
pub proof fn lemma_find_next_cycles_single(
    pre: Editor,
    post: Editor,
    q: Seq<u8>,
    found: bool,
    y0: int,
    x0: int,
)
    requires
        find_next_rel(pre, post, q, found),
        pre.rows@.len() > 0,
        0 <= y0 < pre.rows@.len(),
        match_at(pre.rows@[y0].text@, q, x0),
        forall|y: int, x: int|
            0 <= y < pre.rows@.len() && #[trigger] match_at(pre.rows@[y].text@, q, x) ==> y == y0
                && x == x0,
        pre.cy as int == y0,
        pre.cx as int == x0,
    ensures
        found,
        post.cy as int == y0,
        post.cx as int == x0,
{
    assert(has_match_in(pre.rows@[y0].text@, q));
    assert(any_row_has_match(pre.rows@, q));
    assert(!fwd_tail_has_match(pre, q)) by {
        if fwd_tail_has_match(pre, q) {
            let x = choose|x: int|
                x > pre.cx && match_at(pre.rows@[start_row_fwd(pre)].text@, q, x);
            assert(start_row_fwd(pre) == y0);
            assert(x == x0);
        }
    }
    let k = choose|k: int| #[trigger] fwd_wrap_found(pre, post, q, k);
    assert(match_at(pre.rows@[post.cy as int].text@, q, post.cx as int));
}

/// The effect of giving back the saved highlight: the tags the current
/// match's span overwrote are written back at the cursor, and the saved
/// copy is cleared. Without a saved copy, or with the cursor off the
/// document, nothing is written.
pub open spec fn restore_rel(pre: Editor, post: Editor) -> bool {
    &&& post == (Editor { rows: post.rows, saved_highlight: None, ..pre })
    &&& match pre.saved_highlight {
        None => post.rows == pre.rows,
        Some(v) => {
            if pre.cy < pre.rows@.len() {
                &&& post.rows@.len() == pre.rows@.len()
                &&& forall|i: int|
                    0 <= i < pre.rows@.len() && i != pre.cy ==> post.rows@[i] == pre.rows@[i]
                &&& post.rows@[pre.cy as int].text == pre.rows@[pre.cy as int].text
                &&& post.rows@[pre.cy as int].rendered == pre.rows@[pre.cy as int].rendered
                &&& post.rows@[pre.cy as int].highlight@ == set_group_spec(
                    pre.rows@[pre.cy as int].highlight@,
                    pre.cx as int,
                    v@,
                )
            } else {
                post.rows == pre.rows
            }
        },
    }
}

/// After a successful search the anchor follows the match; otherwise the
/// state is left as the search left it.
pub open spec fn post_anchor(mid: Editor, post: Editor, found: bool) -> bool {
    if found {
        post == (Editor { saved_cx: mid.cx, saved_cy: mid.cy, ..mid })
    } else {
        post == mid
    }
}

/// The file name selects the built-in C-like rules: it ends in one of the
/// rules' extensions.
pub open spec fn selects_c(name: Seq<u8>) -> bool {
    ||| ends_with_spec(name, seq![46u8, 99u8])
    ||| ends_with_spec(name, seq![46u8, 104u8])
    ||| ends_with_spec(name, seq![46u8, 99u8, 112u8, 112u8])
}

/// `s` is the empty rule set.
pub open spec fn syntax_empty(s: Syntax) -> bool {
    &&& s.file_type@.len() == 0
    &&& s.file_match@.len() == 0
    &&& s.single_line_comment_start@.len() == 0
    &&& s.flags == 0
    &&& s.in_string is None
    &&& s.keywords@.len() == 0
}

/// The effect of a row break at the cursor (`insert_row`): past the end
/// a fresh empty row is appended; mid-row the row splits at the cursor
/// column; at the end of a row an empty row opens below it. Like every
/// mutating operation, it marks the document dirty.
pub open spec fn insert_row_rel(pre: Editor, post: Editor) -> bool {
    &&& post == (Editor { rows: post.rows, dirty: true, ..pre })
    &&& post.rows@.len() == pre.rows@.len() + 1
    &&& pre.cy == pre.rows@.len() ==> {
        &&& post.rows@.take(pre.rows@.len() as int) == pre.rows@
        &&& post.rows@.last().text@.len() == 0
    }
    &&& (pre.cy < pre.rows@.len() && pre.cx < row_len_of(pre.rows@, pre.cy as int)) ==> {
        let cy = pre.cy as int;
        let cx = pre.cx as int;
        &&& forall|i: int| 0 <= i < cy ==> post.rows@[i] == pre.rows@[i]
        &&& post.rows@[cy].text@ == pre.rows@[cy].text@.take(cx)
        &&& post.rows@[cy + 1].text@ == pre.rows@[cy].text@.skip(cx)
        &&& post.rows@[cy].highlight@ == highlight_spec(post.rows@[cy].rendered@, pre.syntax)
        &&& post.rows@[cy + 1].highlight@ == highlight_spec(
            post.rows@[cy + 1].rendered@,
            pre.syntax,
        )
        &&& forall|i: int|
            cy + 2 <= i < post.rows@.len() ==> post.rows@[i] == pre.rows@[i - 1]
    }
    &&& (pre.cy < pre.rows@.len() && pre.cx >= row_len_of(pre.rows@, pre.cy as int)) ==> {
        let cy = pre.cy as int;
        &&& forall|i: int| 0 <= i <= cy ==> post.rows@[i] == pre.rows@[i]
        &&& post.rows@[cy + 1].text@.len() == 0
        &&& forall|i: int|
            cy + 2 <= i < post.rows@.len() ==> post.rows@[i] == pre.rows@[i - 1]
    }
}

/// The effect of inserting one character at the cursor (`insert_char`):
/// the cursor row gains `c` at the cursor column — a fresh row when the
/// cursor sat past the last one — and the document is dirty.
pub open spec fn insert_char_rel(pre: Editor, post: Editor, c: u8) -> bool {
    &&& post == (Editor { rows: post.rows, dirty: true, ..pre })
    &&& pre.cy < pre.rows@.len() ==> {
        let cy = pre.cy as int;
        &&& post.rows@.len() == pre.rows@.len()
        &&& forall|i: int|
            0 <= i < post.rows@.len() && i != cy ==> post.rows@[i] == pre.rows@[i]
        &&& post.rows@[cy].text@ == pre.rows@[cy].text@.insert(pre.cx as int, c)
        &&& post.rows@[cy].highlight@ == highlight_spec(post.rows@[cy].rendered@, pre.syntax)
    }
    &&& pre.cy == pre.rows@.len() ==> {
        &&& post.rows@.len() == pre.rows@.len() + 1
        &&& forall|i: int| 0 <= i < pre.rows@.len() ==> post.rows@[i] == pre.rows@[i]
        &&& post.rows@.last().text@ == seq![c]
        &&& post.rows@.last().highlight@ == highlight_spec(
            post.rows@.last().rendered@,
            pre.syntax,
        )
    }
}

/// The effect of a backspace (`delete_char`): before the cursor column one
/// character is removed; at column zero of a later row, the row joins onto
/// the one above and the cursor lands on the join point; at the origin, or
/// past the document, nothing happens.
pub open spec fn delete_char_rel(pre: Editor, post: Editor) -> bool {
    &&& pre.cy == pre.rows@.len() ==> post == pre
    &&& (pre.cy < pre.rows@.len() && pre.cx > 0) ==> {
        let cy = pre.cy as int;
        &&& post == (Editor { rows: post.rows, cx: (pre.cx - 1) as usize, dirty: true, ..pre })
        &&& post.rows@.len() == pre.rows@.len()
        &&& forall|i: int|
            0 <= i < post.rows@.len() && i != cy ==> post.rows@[i] == pre.rows@[i]
        &&& post.rows@[cy].text@ == pre.rows@[cy].text@.remove(pre.cx - 1)
        &&& post.rows@[cy].highlight@ == highlight_spec(post.rows@[cy].rendered@, pre.syntax)
    }
    &&& (pre.cy < pre.rows@.len() && pre.cx == 0 && pre.cy > 0) ==> {
        let cy = pre.cy as int;
        &&& post == (Editor {
            rows: post.rows,
            cx: post.cx,
            cy: (pre.cy - 1) as usize,
            dirty: true,
            ..pre
        })
        &&& post.cx as int == row_len_of(pre.rows@, cy - 1)
        &&& post.rows@.len() == pre.rows@.len() - 1
        &&& forall|i: int| 0 <= i < cy - 1 ==> post.rows@[i] == pre.rows@[i]
        &&& post.rows@[cy - 1].text@ == pre.rows@[cy - 1].text@ + pre.rows@[cy].text@
        &&& post.rows@[cy - 1].highlight@ == highlight_spec(
            post.rows@[cy - 1].rendered@,
            pre.syntax,
        )
        &&& forall|i: int| cy <= i < post.rows@.len() ==> post.rows@[i] == pre.rows@[i + 1]
    }
    &&& (pre.cy < pre.rows@.len() && pre.cx == 0 && pre.cy == 0) ==> post == pre
}

/// The whole editor session: the document, the cursor and viewport, the
/// latest status message, and the search state.
pub struct Editor {
    pub cx: usize,
    pub cy: usize,
    pub row_offset: usize,
    pub col_offset: usize,
    pub screen_rows: usize,
    pub screen_cols: usize,
    pub rx: usize,
    pub prev_cx: usize,
    pub rows: Vec<Row>,
    pub file_name: Vec<u8>,
    pub status_msg: Vec<u8>,
    pub dirty: bool,
    pub quit_times: usize,
    pub saved_cx: usize,
    pub saved_cy: usize,
    pub just_searched: bool,
    pub saved_highlight: Option<Vec<Highlight>>,
    pub syntax: Syntax,
}

impl Editor {
    /// The session invariant: every row is well formed, the cursor stays
    /// on the document (one row past the end only at column zero), and the
    /// bookkeeping fields stay within the machine's bounds.
    pub open spec fn wf(&self) -> bool {
        &&& self.wf_core()
        &&& self.cy < self.rows@.len() ==> self.cx <= self.rows@[self.cy as int].text@.len()
        &&& self.cy == self.rows@.len() ==> self.cx == 0
    }

    /// The invariant minus the cursor-column clauses: briefly suspended
    /// while a deletion and the cursor adjustment that follows it happen
    /// one after the other.
    pub open spec fn wf_core(&self) -> bool {
        &&& self.rows@.len() <= MAX_ROWS
        &&& forall|i: int| 0 <= i < self.rows@.len() ==> (#[trigger] self.rows@[i]).wf()
        &&& self.cy <= self.rows@.len()
        &&& self.row_offset <= MAX_ROWS
        &&& self.col_offset <= 4 * MAX_ROW
        &&& self.syntax.wf()
        &&& 1 <= self.screen_rows <= MAX_SCREEN
        &&& 1 <= self.screen_cols <= MAX_SCREEN
        &&& 1 <= self.quit_times <= QUIT_PRESSES
    }

    /// The raw text of row `y`, or the empty text one past the end.
    pub open spec fn row_text(&self, y: int) -> Seq<u8> {
        if 0 <= y < self.rows@.len() {
            self.rows@[y].text@
        } else {
            Seq::empty()
        }
    }

    /// The raw length of row `y`, zero past the end.
    pub open spec fn row_len(&self, y: int) -> int {
        self.row_text(y).len() as int
    }

    /// A fresh session for a terminal of the given usable size.
    pub fn new(screen_rows: usize, screen_cols: usize) -> (e: Editor)
        requires
            1 <= screen_rows <= MAX_SCREEN,
            1 <= screen_cols <= MAX_SCREEN,
        ensures
            e.cx == 0 && e.cy == 0 && e.row_offset == 0 && e.col_offset == 0 && e.rx == 0
                && e.prev_cx == 0,
            e.rows@.len() == 0,
            e.file_name@.len() == 0,
            e.status_msg@ == help_message_spec(),
            !e.dirty,
            e.quit_times == QUIT_PRESSES,
            e.saved_cx == 0 && e.saved_cy == 0,
            !e.just_searched,
            e.saved_highlight is None,
            syntax_empty(e.syntax),
            e.screen_rows == screen_rows,
            e.screen_cols == screen_cols,
            e.wf(),
    {
        Editor {
            cx: 0,
            cy: 0,
            row_offset: 0,
            col_offset: 0,
            screen_rows,
            screen_cols,
            rx: 0,
            prev_cx: 0,
            rows: Vec::new(),
            file_name: Vec::new(),
            status_msg: help_message(),
            dirty: false,
            quit_times: QUIT_PRESSES,
            saved_cx: 0,
            saved_cy: 0,
            just_searched: false,
            saved_highlight: None,
            syntax: Syntax::new(),
        }
    }

    /// Set the status message.
    pub fn update_status(&mut self, message: Vec<u8>)
        ensures
            *final(self) == (Editor { status_msg: message, ..*old(self) }),
    {
        self.status_msg = message;
    }

    /// Re-run highlighting of every row against the active rules.
    pub fn update_syntax(&mut self)
        requires
            old(self).syntax.wf(),
            forall|i: int| 0 <= i < old(self).rows@.len() ==> (#[trigger] old(self).rows@[i]).wf(),
        ensures
            *final(self) == (Editor { rows: final(self).rows, ..*old(self) }),
            final(self).rows@.len() == old(self).rows@.len(),
            forall|i: int|
                0 <= i < old(self).rows@.len() ==> {
                    &&& (#[trigger] final(self).rows@[i]).text == old(self).rows@[i].text
                    &&& final(self).rows@[i].rendered == old(self).rows@[i].rendered
                    &&& final(self).rows@[i].highlight@ == highlight_spec(
                        old(self).rows@[i].rendered@,
                        old(self).syntax,
                    )
                    &&& final(self).rows@[i].wf()
                },
    {
        let n = self.rows.len();
        let mut i: usize = 0;
        while i < n
            invariant
                i <= n,
                n == self.rows@.len(),
                self.syntax == old(self).syntax,
                self.syntax.wf(),
                *self == (Editor { rows: self.rows, ..*old(self) }),
                forall|j: int| 0 <= j < n ==> (#[trigger] old(self).rows@[j]).wf(),
                forall|j: int|
                    0 <= j < i ==> {
                        &&& (#[trigger] self.rows@[j]).text == old(self).rows@[j].text
                        &&& self.rows@[j].rendered == old(self).rows@[j].rendered
                        &&& self.rows@[j].highlight@ == highlight_spec(
                            old(self).rows@[j].rendered@,
                            old(self).syntax,
                        )
                        &&& self.rows@[j].wf()
                    },
                forall|j: int| i <= j < n ==> #[trigger] self.rows@[j] == old(self).rows@[j],
            decreases n - i,
        {
            self.rows[i].update_highlight(&self.syntax);
            i = i + 1;
        }
    }

    /// Select the rules matching the file name — the C-like rules when it
    /// ends in one of their extensions, the empty rules otherwise — and
    /// re-highlight every row. A match by extension also announces the
    /// file type in the status message.
    pub fn select_syntax_highlight(&mut self)
        requires
            old(self).wf(),
        ensures
            final(self).wf(),
            selects_c(old(self).file_name@) ==> syntax_is_c(final(self).syntax)
                && final(self).status_msg@ == updated_syntax_prefix_spec() + seq![99u8],
            !selects_c(old(self).file_name@) ==> syntax_empty(final(self).syntax)
                && final(self).status_msg == old(self).status_msg,
            final(self).rows@.len() == old(self).rows@.len(),
            forall|i: int|
                0 <= i < old(self).rows@.len() ==> {
                    &&& (#[trigger] final(self).rows@[i]).text == old(self).rows@[i].text
                    &&& final(self).rows@[i].rendered == old(self).rows@[i].rendered
                    &&& final(self).rows@[i].highlight@ == highlight_spec(
                        old(self).rows@[i].rendered@,
                        final(self).syntax,
                    )
                },
            *final(self) == (Editor {
                rows: final(self).rows,
                syntax: final(self).syntax,
                status_msg: final(self).status_msg,
                ..*old(self)
            }),
    {
        let mut db = Syntax::hldb();
        let entry = db.remove(0);
        let has_dot = has_byte(&self.file_name, 46);
        let n_m = entry.file_match.len();
        let mut mi: usize = 0;
        let mut chosen_ext = false;
        let mut chosen_sub = false;
        while mi < n_m
            invariant_except_break
                !chosen_ext,
                !chosen_sub,
                forall|k: int|
                    0 <= k < mi ==> !ends_with_spec(
                        self.file_name@,
                        (#[trigger] entry.file_match@[k])@,
                    ),
            invariant
                mi <= n_m,
                n_m == entry.file_match@.len(),
                syntax_is_c(entry),
                has_dot == self.file_name@.contains(46u8),
                self == old(self),
            ensures
                self == old(self),
                syntax_is_c(entry),
                n_m == entry.file_match@.len(),
                !chosen_sub,
                chosen_ext ==> mi < n_m && ends_with_spec(
                    self.file_name@,
                    entry.file_match@[mi as int]@,
                ),
                !chosen_ext ==> forall|k: int|
                    0 <= k < n_m ==> !ends_with_spec(
                        self.file_name@,
                        (#[trigger] entry.file_match@[k])@,
                    ),
            decreases n_m - mi,
        {
            let m = &entry.file_match[mi];
            let is_ext = m.len() >= 1 && m[0] == 46;
            proof {
                assert(is_ext);
            }
            if is_ext {
                if has_dot && ends_with_bytes(&self.file_name, m) {
                    chosen_ext = true;
                    break;
                } else {
                    proof {
                        if ends_with_spec(self.file_name@, m@) {
                            assert(self.file_name@[self.file_name@.len() - m@.len()] == m@[0]);
                            assert(self.file_name@.contains(46u8));
                        }
                    }
                    mi = mi + 1;
                }
            } else {
                if has_sub(&self.file_name, m) {
                    chosen_sub = true;
                    break;
                } else {
                    mi = mi + 1;
                }
            }
        }
        if chosen_ext {
            proof {
                assert(selects_c(self.file_name@));
            }
            let mut msg = updated_syntax_prefix();
            append_bytes(&mut msg, &entry.file_type);
            proof {
                assert(msg@ =~= updated_syntax_prefix_spec() + seq![99u8]);
            }
            self.syntax = entry;
            self.update_syntax();
            self.update_status(msg);
        } else if chosen_sub {
            self.syntax = entry;
            self.update_syntax();
        } else {
            proof {
                assert(!selects_c(self.file_name@)) by {
                    assert(entry.file_match@[0]@ == seq![46u8, 99u8]);
                    assert(entry.file_match@[1]@ == seq![46u8, 104u8]);
                    assert(entry.file_match@[2]@ == seq![46u8, 99u8, 112u8, 112u8]);
                }
            }
            self.syntax = Syntax::new();
            self.update_syntax();
        }
    }

    /// Bind a file name, select rules for it, and fill the document with
    /// the file's lines.
    pub fn open(&mut self, file_name: Vec<u8>, bytes: &Vec<u8>)
        requires
            old(self).wf(),
            old(self).cx == 0,
            old(self).cy == 0,
            old(self).row_offset == 0,
            bytes@.len() <= MAX_ROW,
        ensures
            final(self).wf(),
            final(self).file_name@ == file_name@,
            texts_of(final(self).rows@) == split_lines_spec(bytes@),
            selects_c(file_name@) ==> syntax_is_c(final(self).syntax) && final(self).status_msg@
                == updated_syntax_prefix_spec() + seq![99u8],
            !selects_c(file_name@) ==> syntax_empty(final(self).syntax) && final(self).status_msg
                == old(self).status_msg,
            forall|i: int|
                0 <= i < final(self).rows@.len() ==> {
                    &&& (#[trigger] final(self).rows@[i]).wf()
                    &&& final(self).rows@[i].highlight@ == highlight_spec(
                        final(self).rows@[i].rendered@,
                        final(self).syntax,
                    )
                },
            *final(self) == (Editor {
                rows: final(self).rows,
                file_name: final(self).file_name,
                status_msg: final(self).status_msg,
                syntax: final(self).syntax,
                ..*old(self)
            }),
    {
        self.file_name = file_name;
        self.select_syntax_highlight();
        let lines = split_lines(bytes);
        let n = lines.len();
        let mut rows: Vec<Row> = Vec::new();
        let mut k: usize = 0;
        proof {
            assert(texts_of(rows@) =~= lines@.map_values(|v: Vec<u8>| v@).take(0));
        }
        while k < n
            invariant
                k <= n,
                n == lines@.len(),
                n <= bytes@.len() <= MAX_ROW,
                self.syntax.wf(),
                self.file_name@ == file_name@,
                selects_c(file_name@) ==> syntax_is_c(self.syntax) && self.status_msg@
                    == updated_syntax_prefix_spec() + seq![99u8],
                !selects_c(file_name@) ==> syntax_empty(self.syntax) && self.status_msg == old(
                    self,
                ).status_msg,
                forall|j: int| 0 <= j < n ==> (#[trigger] lines@[j])@.len() <= MAX_ROW,
                texts_of(rows@) == lines@.map_values(|v: Vec<u8>| v@).take(k as int),
                rows@.len() == k,
                forall|i: int|
                    0 <= i < k ==> {
                        &&& (#[trigger] rows@[i]).wf()
                        &&& rows@[i].highlight@ == highlight_spec(rows@[i].rendered@, self.syntax)
                    },
                *self == (Editor {
                    rows: self.rows,
                    file_name: self.file_name,
                    status_msg: self.status_msg,
                    syntax: self.syntax,
                    ..*old(self)
                }),
            decreases n - k,
        {
            let line = crate::row::copy_range(&lines[k], 0, lines[k].len());
            proof {
                assert(line@ =~= lines@[k as int]@);
            }
            let ghost rows0 = rows@;
            let row = Row::from(line, &self.syntax);
            rows.push(row);
            proof {
                assert(texts_of(rows@) =~= texts_of(rows0).push(lines@[k as int]@));
                assert(lines@.map_values(|v: Vec<u8>| v@).take(k + 1) =~= lines@.map_values(
                    |v: Vec<u8>| v@,
                ).take(k as int).push(lines@[k as int]@));
            }
            k = k + 1;
        }
        proof {
            assert(lines@.map_values(|v: Vec<u8>| v@).take(n as int) =~= lines@.map_values(
                |v: Vec<u8>| v@,
            ));
        }
        self.rows = rows;
    }

    /// Insert a row break at the cursor: past the end a fresh empty row is
    /// appended; mid-row the row is split at the cursor column; at the end
    /// of a row an empty row opens below it. The cursor itself stays put;
    /// the document is marked dirty.
    pub fn insert_row(&mut self)
        requires
            old(self).wf(),
            old(self).rows@.len() < MAX_ROWS,
        ensures
            final(self).wf(),
            insert_row_rel(*old(self), *final(self)),
    {
        self.dirty = true;
        if self.cy >= self.rows.len() {
            self.rows.push(Row::new());
            proof {
                assert(self.rows@.take(old(self).rows@.len() as int) =~= old(self).rows@);
                assert(insert_row_rel(*old(self), *self));
            }
            return;
        }
        if self.cx < self.rows[self.cy].len() {
            let next = self.rows[self.cy].split_off(self.cx, &self.syntax);
            self.rows.insert(self.cy + 1, next);
            proof {
                assert(insert_row_rel(*old(self), *self));
            }
        } else {
            self.rows.insert(self.cy + 1, Row::new());
            proof {
                assert(insert_row_rel(*old(self), *self));
            }
        }
    }

    /// Insert one printable character at the cursor column, opening a
    /// fresh row when the cursor sits past the last one. Marks the
    /// document dirty; the cursor itself stays put.
    pub fn insert_char(&mut self, c: u8)
        requires
            old(self).wf(),
            old(self).rows@.len() < MAX_ROWS,
            old(self).cy < old(self).rows@.len() ==> old(self).rows@[old(
                self,
            ).cy as int].text@.len() < MAX_ROW,
        ensures
            final(self).wf(),
            insert_char_rel(*old(self), *final(self), c),
    {
        if self.cy == self.rows.len() {
            self.rows.push(Row::new());
        }
        self.rows[self.cy].insert(self.cx, c, &self.syntax);
        proof {
            if old(self).cy == old(self).rows@.len() {
                assert(Seq::<u8>::empty().insert(old(self).cx as int, c) =~= seq![c]);
            }
        }
        self.dirty = true;
    }

    /// Remove the character at raw column `index` of the cursor row; out
    /// of range, nothing happens.
    pub fn delete_row_char(&mut self, index: usize)
        requires
            old(self).wf(),
            old(self).cy < old(self).rows@.len(),
        ensures
            final(self).wf_core(),
            index >= old(self).row_len(old(self).cy as int) ==> *final(self) == *old(self),
            index < old(self).row_len(old(self).cy as int) ==> {
                let cy = old(self).cy as int;
                &&& *final(self) == (Editor {
                    rows: final(self).rows,
                    dirty: true,
                    ..*old(self)
                })
                &&& final(self).rows@.len() == old(self).rows@.len()
                &&& forall|i: int|
                    0 <= i < final(self).rows@.len() && i != cy ==> final(self).rows@[i] == old(
                        self,
                    ).rows@[i]
                &&& final(self).rows@[cy].text@ == old(self).rows@[cy].text@.remove(index as int)
                &&& final(self).rows@[cy].highlight@ == highlight_spec(
                    final(self).rows@[cy].rendered@,
                    old(self).syntax,
                )
            },
    {
        if index >= self.rows[self.cy].len() {
            return;
        }
        self.dirty = true;
        self.rows[self.cy].remove(index, &self.syntax);
    }

    /// Backspace: before the cursor column delete one character; at column
    /// zero of a later row, join the row onto the one above and place the
    /// cursor at the join point. Either way the change marks the document
    /// dirty.
    pub fn delete_char(&mut self)
        requires
            old(self).wf(),
            old(self).cx == 0 && 0 < old(self).cy < old(self).rows@.len() ==> old(self).row_len(
                old(self).cy - 1,
            ) + old(self).row_len(old(self).cy as int) <= MAX_ROW,
        ensures
            final(self).wf(),
            delete_char_rel(*old(self), *final(self)),
    {
        if self.cy >= self.rows.len() {
            return;
        }
        if self.cx > 0 {
            self.delete_row_char(self.cx - 1);
            self.cx = self.cx - 1;
        } else if self.cy > 0 {
            let removed = self.rows.remove(self.cy);
            let prev_len = self.rows[self.cy - 1].len();
            self.rows[self.cy - 1].join(&removed, &self.syntax);
            self.cx = prev_len;
            self.cy = self.cy - 1;
            self.dirty = true;
        }
    }

    /// Move the cursor one step as `move_cursor_spec` says: arrows step,
    /// vertical motion re-applies the sticky column, and the landing row
    /// clamps the column.
    pub fn move_cursor(&mut self, key: Key)
        requires
            old(self).wf_core(),
        ensures
            final(self).wf(),
            *final(self) == (Editor {
                cx: final(self).cx,
                cy: final(self).cy,
                prev_cx: final(self).prev_cx,
                ..*old(self)
            }),
            (final(self).cx as int, final(self).cy as int, final(self).prev_cx as int)
                == move_cursor_spec(
                old(self).rows@,
                old(self).cx as int,
                old(self).cy as int,
                old(self).prev_cx as int,
                key,
            ),
    {
        let row_exists = self.cy < self.rows.len();
        let row_size = if row_exists {
            self.rows[self.cy].len()
        } else {
            0
        };
        match key {
            Key::ArrowUp => {
                if self.cy != 0 {
                    self.cy = self.cy - 1;
                }
                if self.prev_cx > self.cx {
                    self.cx = self.prev_cx;
                }
            },
            Key::ArrowDown => {
                if self.cy < self.rows.len() {
                    self.cy = self.cy + 1;
                }
                if self.prev_cx > self.cx {
                    self.cx = self.prev_cx;
                }
            },
            Key::ArrowLeft => {
                self.prev_cx = 0;
                if self.cx > 0 {
                    self.cx = self.cx - 1;
                } else if self.cy > 0 {
                    self.cy = self.cy - 1;
                    self.cx = self.rows[self.cy].len();
                }
            },
            Key::ArrowRight => {
                self.prev_cx = 0;
                if self.cx < row_size {
                    self.cx = self.cx + 1;
                } else if row_exists && self.cx == row_size {
                    self.cy = self.cy + 1;
                    self.cx = 0;
                }
            },
            _ => {
            },
        }
        let new_row_len = if self.cy < self.rows.len() {
            self.rows[self.cy].len()
        } else {
            0
        };
        if self.cx > new_row_len {
            self.prev_cx = self.cx;
            self.cx = new_row_len;
        }
    }

    /// Mark the match of length `qlen` under the cursor: save the span's
    /// tags and overwrite them with `Match`.
    fn mark_match(&mut self, qlen: usize)
        requires
            old(self).wf(),
            1 <= qlen,
            old(self).cy < old(self).rows@.len(),
            old(self).cx + qlen <= old(self).rows@[old(self).cy as int].text@.len(),
        ensures
            final(self).wf(),
            match_marked(*old(self), *final(self), old(self).cy as int, old(self).cx as int, qlen as int),
            *final(self) == (Editor {
                rows: final(self).rows,
                saved_highlight: final(self).saved_highlight,
                ..*old(self)
            }),
    {
        proof {
            crate::row::lemma_render_len(old(self).rows@[old(self).cy as int].text@);
        }
        let saved = self.rows[self.cy].save_highlight(self.cx, qlen);
        self.saved_highlight = saved;
        self.rows[self.cy].set_highlight_from(Highlight::Match, self.cx, qlen);
    }

    /// Move to and mark the next occurrence of the query in cyclic order,
    /// as `find_next_rel` says; `false` when the query occurs nowhere.
    pub fn find_next(&mut self, query: &Vec<u8>) -> (found: bool)
        requires
            old(self).wf(),
            query@.len() >= 1,
        ensures
            final(self).wf(),
            find_next_rel(*old(self), *final(self), query@, found),
    {
        let n = self.rows.len();
        if n == 0 {
            return false;
        }
        let sy = if self.cy >= n {
            0
        } else {
            self.cy
        };
        match self.rows[sy].search_from(self.cx, query) {
            Some(index) => {
                self.cy = sy;
                self.cx = index;
                self.mark_match(query.len());
                proof {
                    let pre = *old(self);
                    let q = query@;
                    assert(start_row_fwd(pre) == sy as int);
                    assert(match_at(pre.rows@[start_row_fwd(pre)].text@, q, self.cx as int));
                    assert(has_match_in(pre.rows@[start_row_fwd(pre)].text@, q));
                    assert(any_row_has_match(pre.rows@, q));
                    assert(fwd_tail_has_match(pre, q));
                    assert(first_match_after(
                        pre.rows@[start_row_fwd(pre)].text@,
                        q,
                        pre.cx as int,
                        self.cx as int,
                    ));
                    assert(match_marked(pre, *self, self.cy as int, self.cx as int, q.len() as int));
                    assert(*self == (Editor {
                        cx: self.cx,
                        cy: self.cy,
                        rows: self.rows,
                        saved_highlight: self.saved_highlight,
                        ..pre
                    }));
                    assert(find_next_rel(pre, *self, q, true));
                }
                return true;
            },
            None => {
            },
        }
        let mut k: usize = 1;
        while k <= n
            invariant
                1 <= k <= n + 1,
                n == self.rows@.len(),
                n >= 1,
                sy == (if old(self).cy >= n {
                    0
                } else {
                    old(self).cy as int
                }),
                query@.len() >= 1,
                *self == *old(self),
                self.wf(),
                forall|j: int| j > self.cx ==> !match_at(self.rows@[sy as int].text@, query@, j),
                forall|k2: int|
                    1 <= k2 < k ==> !has_match_in(
                        self.rows@[#[trigger] wrap_fwd(sy as int, k2, n as int)].text@,
                        query@,
                    ),
            decreases n + 1 - k,
        {
            let y = if sy + k < n {
                sy + k
            } else {
                sy + k - n
            };
            match self.rows[y].search(query) {
                Some(index) => {
                    self.cy = y;
                    self.cx = index;
                    let ghost kk = k as int;
                    self.mark_match(query.len());
                    proof {
                        let pre = *old(self);
                        let q = query@;
                        assert(start_row_fwd(pre) == sy as int);
                        assert(wrap_fwd(start_row_fwd(pre), kk, n as int) == y);
                        assert(match_at(pre.rows@[y as int].text@, q, self.cx as int));
                        assert(has_match_in(pre.rows@[y as int].text@, q));
                        assert(any_row_has_match(pre.rows@, q));
                        assert(first_match_at(pre.rows@[y as int].text@, q, self.cx as int));
                        assert(match_marked(pre, *self, self.cy as int, self.cx as int, q.len() as int));
                        assert(*self == (Editor {
                            cx: self.cx,
                            cy: self.cy,
                            rows: self.rows,
                            saved_highlight: self.saved_highlight,
                            ..pre
                        }));
                        assert(!fwd_tail_has_match(pre, q)) by {
                            if fwd_tail_has_match(pre, q) {
                                let x = choose|x: int|
                                    x > pre.cx && match_at(
                                        pre.rows@[start_row_fwd(pre)].text@,
                                        q,
                                        x,
                                    );
                                assert(!match_at(pre.rows@[sy as int].text@, q, x));
                            }
                        }
                        assert forall|k2: int| 1 <= k2 < kk implies !has_match_in(
                            pre.rows@[#[trigger] wrap_fwd(start_row_fwd(pre), k2, n as int)].text@,
                            q,
                        ) by {
                            assert(wrap_fwd(start_row_fwd(pre), k2, n as int) == wrap_fwd(
                                sy as int,
                                k2,
                                n as int,
                            ));
                            assert(!has_match_in(
                                pre.rows@[wrap_fwd(sy as int, k2, n as int)].text@,
                                q,
                            ));
                        }
                        assert(fwd_wrap_found(pre, *self, q, kk));
                        assert(exists|k: int| #[trigger] fwd_wrap_found(pre, *self, q, k));
                        assert(find_next_rel(pre, *self, q, true));
                    }
                    return true;
                },
                None => {
                },
            }
            k = k + 1;
        }
        proof {
            let pre = *old(self);
            let q = query@;
            assert forall|y: int| 0 <= y < n implies !has_match_in(
                (#[trigger] pre.rows@[y]).text@,
                q,
            ) by {
                let k2 = if y > sy {
                    y - sy
                } else {
                    y - sy + n
                };
                assert(1 <= k2 <= n);
                assert(wrap_fwd(sy as int, k2, n as int) == y);
                assert(!has_match_in(self.rows@[wrap_fwd(sy as int, k2, n as int)].text@, q));
                assert(self.rows@[y] == pre.rows@[y]);
            }
            assert(!any_row_has_match(pre.rows@, q)) by {
                if any_row_has_match(pre.rows@, q) {
                    let y = choose|y: int|
                        0 <= y < pre.rows@.len() && has_match_in((#[trigger] pre.rows@[y]).text@, q);
                    assert(!has_match_in(pre.rows@[y].text@, q));
                }
            }
            assert(find_next_rel(pre, *self, q, false));
        }
        false
    }

    /// Move to and mark the previous occurrence of the query in cyclic
    /// order, as `find_prev_rel` says; `false` when the query occurs
    /// nowhere.
    pub fn find_prev(&mut self, query: &Vec<u8>) -> (found: bool)
        requires
            old(self).wf(),
            query@.len() >= 1,
        ensures
            final(self).wf(),
            find_prev_rel(*old(self), *final(self), query@, found),
    {
        let n = self.rows.len();
        if n == 0 {
            return false;
        }
        let sy = if self.cy < n {
            self.cy
        } else {
            n - 1
        };
        match self.rows[sy].search_reverse_to(self.cx, query) {
            Some(index) => {
                self.cy = sy;
                self.cx = index;
                self.mark_match(query.len());
                proof {
                    let pre = *old(self);
                    let q = query@;
                    assert(start_row_back(pre) == sy as int);
                    assert(match_at(pre.rows@[start_row_back(pre)].text@, q, self.cx as int));
                    assert(has_match_in(pre.rows@[start_row_back(pre)].text@, q));
                    assert(any_row_has_match(pre.rows@, q));
                    assert(back_head_has_match(pre, q));
                    assert(last_match_before(
                        pre.rows@[start_row_back(pre)].text@,
                        q,
                        pre.cx as int,
                        self.cx as int,
                    ));
                    assert(match_marked(pre, *self, self.cy as int, self.cx as int, q.len() as int));
                    assert(*self == (Editor {
                        cx: self.cx,
                        cy: self.cy,
                        rows: self.rows,
                        saved_highlight: self.saved_highlight,
                        ..pre
                    }));
                    assert(find_prev_rel(pre, *self, q, true));
                }
                return true;
            },
            None => {
            },
        }
        let mut k: usize = 1;
        while k <= n
            invariant
                1 <= k <= n + 1,
                n == self.rows@.len(),
                n >= 1,
                sy == (if old(self).cy < n {
                    old(self).cy as int
                } else {
                    n - 1
                }),
                query@.len() >= 1,
                *self == *old(self),
                self.wf(),
                forall|j: int| j < self.cx ==> !match_at(self.rows@[sy as int].text@, query@, j),
                forall|k2: int|
                    1 <= k2 < k ==> !has_match_in(
                        self.rows@[#[trigger] wrap_back(sy as int, k2, n as int)].text@,
                        query@,
                    ),
            decreases n + 1 - k,
        {
            let y = if sy >= k {
                sy - k
            } else {
                sy + n - k
            };
            match self.rows[y].search_reverse(query) {
                Some(index) => {
                    self.cy = y;
                    self.cx = index;
                    let ghost kk = k as int;
                    self.mark_match(query.len());
                    proof {
                        let pre = *old(self);
                        let q = query@;
                        assert(start_row_back(pre) == sy as int);
                        assert(wrap_back(start_row_back(pre), kk, n as int) == y);
                        assert(match_at(pre.rows@[y as int].text@, q, self.cx as int));
                        assert(has_match_in(pre.rows@[y as int].text@, q));
                        assert(any_row_has_match(pre.rows@, q));
                        assert(last_match_at(pre.rows@[y as int].text@, q, self.cx as int));
                        assert(match_marked(pre, *self, self.cy as int, self.cx as int, q.len() as int));
                        assert(*self == (Editor {
                            cx: self.cx,
                            cy: self.cy,
                            rows: self.rows,
                            saved_highlight: self.saved_highlight,
                            ..pre
                        }));
                        assert(!back_head_has_match(pre, q)) by {
                            if back_head_has_match(pre, q) {
                                let x = choose|x: int|
                                    x < pre.cx && match_at(
                                        pre.rows@[start_row_back(pre)].text@,
                                        q,
                                        x,
                                    );
                                assert(!match_at(pre.rows@[sy as int].text@, q, x));
                            }
                        }
                        assert forall|k2: int| 1 <= k2 < kk implies !has_match_in(
                            pre.rows@[#[trigger] wrap_back(start_row_back(pre), k2, n as int)].text@,
                            q,
                        ) by {
                            assert(wrap_back(start_row_back(pre), k2, n as int) == wrap_back(
                                sy as int,
                                k2,
                                n as int,
                            ));
                            assert(!has_match_in(
                                pre.rows@[wrap_back(sy as int, k2, n as int)].text@,
                                q,
                            ));
                        }
                        assert(back_wrap_found(pre, *self, q, kk));
                        assert(exists|k: int| #[trigger] back_wrap_found(pre, *self, q, k));
                        assert(find_prev_rel(pre, *self, q, true));
                    }
                    return true;
                },
                None => {
                },
            }
            k = k + 1;
        }
        proof {
            let pre = *old(self);
            let q = query@;
            assert forall|y: int| 0 <= y < n implies !has_match_in(
                (#[trigger] pre.rows@[y]).text@,
                q,
            ) by {
                let k2 = if y < sy {
                    sy - y
                } else {
                    sy - y + n
                };
                assert(1 <= k2 <= n);
                assert(wrap_back(sy as int, k2, n as int) == y);
                assert(!has_match_in(self.rows@[wrap_back(sy as int, k2, n as int)].text@, q));
                assert(self.rows@[y] == pre.rows@[y]);
            }
            assert(!any_row_has_match(pre.rows@, q)) by {
                if any_row_has_match(pre.rows@, q) {
                    let y = choose|y: int|
                        0 <= y < pre.rows@.len() && has_match_in((#[trigger] pre.rows@[y]).text@, q);
                    assert(!has_match_in(pre.rows@[y].text@, q));
                }
            }
            assert(find_prev_rel(pre, *self, q, false));
        }
        false
    }

    /// Enter search: remember the cursor as the restore anchor.
    pub fn find_begin(&mut self)
        ensures
            *final(self) == (Editor {
                saved_cx: old(self).cx,
                saved_cy: old(self).cy,
                just_searched: true,
                ..*old(self)
            }),
    {
        self.saved_cx = self.cx;
        self.saved_cy = self.cy;
        self.just_searched = true;
    }

    /// Give the saved highlight back to the row it came from, undoing the
    /// temporary `Match` tag of the previous match.
    pub fn find_restore_highlight(&mut self)
        requires
            old(self).wf(),
        ensures
            final(self).wf(),
            restore_rel(*old(self), *final(self)),
    {
        let saved = self.saved_highlight.take();
        match saved {
            Some(hl) => {
                if self.cy < self.rows.len() {
                    self.rows[self.cy].set_highlight_group(self.cx, &hl);
                }
            },
            None => {
            },
        }
    }

    /// One round of the search prompt: give back the previous match's
    /// highlight, then act on the prompt event — search forward, backward,
    /// accept the query where it already matches at the cursor, and move
    /// the restore anchor onto an explicitly found match. Cancelling ends
    /// the search: the cursor returns to the saved anchor (clamped onto
    /// the document), so a search whose matches were never explicitly
    /// accepted leaves the cursor where it entered.
    pub fn find_event(&mut self, ev: &PromptEvent) -> (found: bool)
        requires
            old(self).wf(),
            ev matches PromptEvent::Changed(q) ==> q@.len() >= 1,
            ev matches PromptEvent::FindNext(q) ==> q@.len() >= 1,
            ev matches PromptEvent::FindPrev(q) ==> q@.len() >= 1,
            ev matches PromptEvent::Accepted(q) ==> q@.len() >= 1,
        ensures
            final(self).wf(),
            (ev is Cancelled || ev is Submitted || ev is Pending) ==> found
                && final(self).cy as int == spec_min(
                old(self).saved_cy as int,
                old(self).rows@.len() as int,
            ) && final(self).cx as int == spec_min(
                old(self).saved_cx as int,
                row_len_of(old(self).rows@, final(self).cy as int),
            ) && !final(self).just_searched && (exists|mid: Editor|
                #[trigger] restore_rel(*old(self), mid) && *final(self) == (Editor {
                    cx: final(self).cx,
                    cy: final(self).cy,
                    just_searched: false,
                    ..mid
                })),
            ev matches PromptEvent::FindNext(q) ==> exists|mid: Editor, mid2: Editor|
                restore_rel(*old(self), mid) && #[trigger] find_next_rel(mid, mid2, q@, found)
                    && post_anchor(mid2, *final(self), found),
            ev matches PromptEvent::Accepted(q) ==> exists|mid: Editor, mid2: Editor|
                restore_rel(*old(self), mid) && #[trigger] find_next_rel(mid, mid2, q@, found)
                    && post_anchor(mid2, *final(self), found),
            ev matches PromptEvent::FindPrev(q) ==> exists|mid: Editor, mid2: Editor|
                restore_rel(*old(self), mid) && #[trigger] find_prev_rel(mid, mid2, q@, found)
                    && post_anchor(mid2, *final(self), found),
            ev matches PromptEvent::Changed(q) ==> exists|mid: Editor|
                #[trigger] restore_rel(*old(self), mid) && (if mid.cy < mid.rows@.len()
                    && match_at(mid.rows@[mid.cy as int].text@, q@, mid.cx as int) {
                    found && match_marked(
                        mid,
                        *final(self),
                        mid.cy as int,
                        mid.cx as int,
                        q@.len() as int,
                    ) && *final(self) == (Editor {
                        rows: final(self).rows,
                        saved_highlight: final(self).saved_highlight,
                        ..mid
                    })
                } else {
                    find_next_rel(mid, *final(self), q@, found)
                }),
    {
        self.find_restore_highlight();
        let ghost mid = *self;
        match ev {
            PromptEvent::FindNext(q) => {
                let f = self.find_next(q);
                let ghost mid2 = *self;
                if f {
                    self.saved_cx = self.cx;
                    self.saved_cy = self.cy;
                }
                proof {
                    assert(restore_rel(*old(self), mid) && find_next_rel(mid, mid2, q@, f)
                        && post_anchor(mid2, *self, f));
                }
                f
            },
            PromptEvent::Accepted(q) => {
                let f = self.find_next(q);
                let ghost mid2 = *self;
                if f {
                    self.saved_cx = self.cx;
                    self.saved_cy = self.cy;
                }
                proof {
                    assert(restore_rel(*old(self), mid) && find_next_rel(mid, mid2, q@, f)
                        && post_anchor(mid2, *self, f));
                }
                f
            },
            PromptEvent::FindPrev(q) => {
                let f = self.find_prev(q);
                let ghost mid2 = *self;
                if f {
                    self.saved_cx = self.cx;
                    self.saved_cy = self.cy;
                }
                proof {
                    assert(restore_rel(*old(self), mid) && find_prev_rel(mid, mid2, q@, f)
                        && post_anchor(mid2, *self, f));
                }
                f
            },
            PromptEvent::Changed(q) => {
                if self.cy < self.rows.len() && bytes_eq_at(&self.rows[self.cy].text, self.cx, q) {
                    self.mark_match(q.len());
                    proof {
                        assert(restore_rel(*old(self), mid));
                    }
                    true
                } else {
                    let f = self.find_next(q);
                    proof {
                        assert(restore_rel(*old(self), mid) && find_next_rel(
                            mid,
                            *self,
                            q@,
                            f,
                        ));
                    }
                    f
                }
            },
            _ => {
                self.just_searched = false;
                self.cy = if self.saved_cy < self.rows.len() {
                    self.saved_cy
                } else {
                    self.rows.len()
                };
                let rl = if self.cy < self.rows.len() {
                    self.rows[self.cy].len()
                } else {
                    0
                };
                self.cx = if self.saved_cx < rl {
                    self.saved_cx
                } else {
                    rl
                };
                proof {
                    assert(restore_rel(*old(self), mid));
                    assert(*self == (Editor {
                        cx: self.cx,
                        cy: self.cy,
                        just_searched: false,
                        ..mid
                    }));
                }
                true
            },
        }
    }

    /// Recompute the render column and pull the viewport after the cursor,
    /// so that the cursor row and render column lie inside the visible
    /// window.
    pub fn scroll(&mut self)
        requires
            old(self).wf(),
        ensures
            final(self).wf(),
            *final(self) == (Editor {
                rx: final(self).rx,
                row_offset: final(self).row_offset,
                col_offset: final(self).col_offset,
                ..*old(self)
            }),
            final(self).rx as int == rx_spec(
                old(self).row_text(old(self).cy as int),
                old(self).cx as int,
            ),
            final(self).row_offset <= old(self).cy < final(self).row_offset + old(
                self,
            ).screen_rows,
            final(self).col_offset <= final(self).rx < final(self).col_offset + old(
                self,
            ).screen_cols,
            final(self).row_offset == (if old(self).cy < old(self).row_offset {
                old(self).cy as int
            } else if old(self).cy >= old(self).row_offset + old(self).screen_rows {
                old(self).cy - old(self).screen_rows + 1
            } else {
                old(self).row_offset as int
            }),
            final(self).col_offset == (if final(self).rx < old(self).col_offset {
                final(self).rx as int
            } else if final(self).rx >= old(self).col_offset + old(self).screen_cols {
                final(self).rx - old(self).screen_cols + 1
            } else {
                old(self).col_offset as int
            }),
    {
        self.rx = 0;
        if self.cy < self.rows.len() {
            self.rx = self.rows[self.cy].cx_to_rx(self.cx);
        }
        proof {
            if old(self).cy < old(self).rows@.len() {
                let t = old(self).rows@[old(self).cy as int].text@;
                let end = if old(self).cx as int <= t.len() {
                    old(self).cx as int
                } else {
                    t.len() as int
                };
                crate::row::lemma_render_len(t.take(end));
            }
        }
        if self.cy < self.row_offset {
            self.row_offset = self.cy;
        }
        if self.cy >= self.row_offset + self.screen_rows {
            self.row_offset = self.cy - self.screen_rows + 1;
        }
        if self.rx < self.col_offset {
            self.col_offset = self.rx;
        }
        if self.rx >= self.col_offset + self.screen_cols {
            self.col_offset = self.rx - self.screen_cols + 1;
        }
    }

    /// Repeat one arrow move `times` times (a page scroll).
    fn move_cursor_times(&mut self, key: Key, times: usize)
        requires
            old(self).wf_core(),
        ensures
            final(self).wf_core(),
            times > 0 ==> final(self).wf(),
            *final(self) == (Editor {
                cx: final(self).cx,
                cy: final(self).cy,
                prev_cx: final(self).prev_cx,
                ..*old(self)
            }),
            (final(self).cx as int, final(self).cy as int, final(self).prev_cx as int)
                == multi_move(
                old(self).rows@,
                old(self).cx as int,
                old(self).cy as int,
                old(self).prev_cx as int,
                key,
                times as nat,
            ),
    {
        let mut t: usize = 0;
        while t < times
            invariant
                t <= times,
                self.wf_core(),
                t > 0 ==> self.wf(),
                *self == (Editor {
                    cx: self.cx,
                    cy: self.cy,
                    prev_cx: self.prev_cx,
                    ..*old(self)
                }),
                (self.cx as int, self.cy as int, self.prev_cx as int) == multi_move(
                    old(self).rows@,
                    old(self).cx as int,
                    old(self).cy as int,
                    old(self).prev_cx as int,
                    key,
                    t as nat,
                ),
            decreases times - t,
        {
            self.move_cursor(key);
            t = t + 1;
        }
    }

    /// Dispatch one logical key: move the cursor or viewport, edit the
    /// document, count down the guarded quit, or hand an action — quit,
    /// save, find — back to the run loop. Every key but the neutral tick
    /// first clears the status message.
    #[verifier::rlimit(100)]
    pub fn process_keypress(&mut self, key: Key) -> (action: EditorAction)
        requires
            old(self).wf(),
            key == Key::Char(13u8) ==> old(self).rows@.len() < MAX_ROWS,
            (key matches Key::Char(c) && (c == 9 || (32 <= c <= 126))) ==> old(self).rows@.len()
                < MAX_ROWS && (old(self).cy < old(self).rows@.len() ==> old(self).rows@[old(
                self,
            ).cy as int].text@.len() < MAX_ROW),
            (key == Key::Char(8u8) || key == Key::Char(127u8)) ==> (old(self).cx == 0 && 0 < old(
                self,
            ).cy < old(self).rows@.len() ==> old(self).row_len(old(self).cy - 1) + old(
                self,
            ).row_len(old(self).cy as int) <= MAX_ROW),
            key == Key::Delete ==> (old(self).cy < old(self).rows@.len() && old(self).cx == old(
                self,
            ).row_len(old(self).cy as int) && old(self).cy + 1 < old(self).rows@.len() ==> old(
                self,
            ).row_len(old(self).cy as int) + old(self).row_len(old(self).cy + 1) <= MAX_ROW),
        ensures
            final(self).wf(),
            key == Key::Nothing ==> *final(self) == *old(self) && action == EditorAction::Idle,
            key == Key::Char(19u8) ==> action == EditorAction::Save && *final(self) == (Editor {
                status_msg: final(self).status_msg,
                quit_times: QUIT_PRESSES as usize,
                ..*old(self)
            }) && final(self).status_msg@.len() == 0,
            key == Key::Char(6u8) ==> action == EditorAction::Find && *final(self) == (Editor {
                status_msg: final(self).status_msg,
                quit_times: QUIT_PRESSES as usize,
                ..*old(self)
            }) && final(self).status_msg@.len() == 0,
            key == Key::Char(17u8) ==> (if old(self).dirty && old(self).quit_times > 1 {
                action == EditorAction::Idle && *final(self) == (Editor {
                    status_msg: final(self).status_msg,
                    quit_times: (old(self).quit_times - 1) as usize,
                    ..*old(self)
                }) && final(self).status_msg@ == warn_msg_spec(old(self).quit_times - 1)
            } else {
                action == EditorAction::Quit
            }),
            key == Key::Char(12u8) ==> action == EditorAction::Idle && *final(self) == (Editor {
                status_msg: final(self).status_msg,
                quit_times: QUIT_PRESSES as usize,
                ..*old(self)
            }) && final(self).status_msg@.len() == 0,
            (key == Key::ArrowUp || key == Key::ArrowDown || key == Key::ArrowLeft || key
                == Key::ArrowRight) ==> action == EditorAction::Idle && *final(self) == (Editor {
                cx: final(self).cx,
                cy: final(self).cy,
                prev_cx: final(self).prev_cx,
                status_msg: final(self).status_msg,
                quit_times: QUIT_PRESSES as usize,
                ..*old(self)
            }) && final(self).status_msg@.len() == 0 && (final(self).cx as int,
            final(self).cy as int, final(self).prev_cx as int) == move_cursor_spec(
                old(self).rows@,
                old(self).cx as int,
                old(self).cy as int,
                old(self).prev_cx as int,
                key,
            ),
            key == Key::PageDown ==> action == EditorAction::Idle && *final(self) == (Editor {
                cx: final(self).cx,
                cy: final(self).cy,
                prev_cx: final(self).prev_cx,
                status_msg: final(self).status_msg,
                quit_times: QUIT_PRESSES as usize,
                ..*old(self)
            }) && final(self).status_msg@.len() == 0 && (final(self).cx as int,
            final(self).cy as int, final(self).prev_cx as int) == clamp_cursor(
                old(self).rows@,
                multi_move(
                    old(self).rows@,
                    old(self).cx as int,
                    spec_min(
                        old(self).row_offset + old(self).screen_rows - 1,
                        old(self).rows@.len() as int,
                    ),
                    old(self).prev_cx as int,
                    Key::ArrowDown,
                    (old(self).screen_rows - 1) as nat,
                ),
            ),
            key == Key::PageUp ==> action == EditorAction::Idle && *final(self) == (Editor {
                cx: final(self).cx,
                cy: final(self).cy,
                prev_cx: final(self).prev_cx,
                status_msg: final(self).status_msg,
                quit_times: QUIT_PRESSES as usize,
                ..*old(self)
            }) && final(self).status_msg@.len() == 0 && (final(self).cx as int,
            final(self).cy as int, final(self).prev_cx as int) == clamp_cursor(
                old(self).rows@,
                multi_move(
                    old(self).rows@,
                    old(self).cx as int,
                    spec_min(old(self).row_offset as int, old(self).rows@.len() as int),
                    old(self).prev_cx as int,
                    Key::ArrowUp,
                    (old(self).screen_rows - 1) as nat,
                ),
            ),
            key == Key::Home ==> action == EditorAction::Idle && *final(self) == (Editor {
                cx: 0,
                status_msg: final(self).status_msg,
                quit_times: QUIT_PRESSES as usize,
                ..*old(self)
            }) && final(self).status_msg@.len() == 0,
            key == Key::End ==> action == EditorAction::Idle && *final(self) == (Editor {
                cx: (if old(self).cy < old(self).rows@.len() {
                    old(self).row_len(old(self).cy as int) as usize
                } else {
                    old(self).cx
                }),
                status_msg: final(self).status_msg,
                quit_times: QUIT_PRESSES as usize,
                ..*old(self)
            }) && final(self).status_msg@.len() == 0,
            key == Key::Escape ==> action == EditorAction::Idle && final(self).status_msg@.len()
                == 0 && final(self).quit_times == QUIT_PRESSES && (if old(self).just_searched {
                &&& !final(self).just_searched
                &&& final(self).cy as int == spec_min(
                    old(self).saved_cy as int,
                    old(self).rows@.len() as int,
                )
                &&& final(self).cx as int == spec_min(
                    old(self).saved_cx as int,
                    row_len_of(old(self).rows@, final(self).cy as int),
                )
                &&& *final(self) == (Editor {
                    cx: final(self).cx,
                    cy: final(self).cy,
                    just_searched: false,
                    status_msg: final(self).status_msg,
                    quit_times: QUIT_PRESSES as usize,
                    ..*old(self)
                })
            } else {
                *final(self) == (Editor {
                    status_msg: final(self).status_msg,
                    quit_times: QUIT_PRESSES as usize,
                    ..*old(self)
                })
            }),
            key == Key::Char(13u8) ==> action == EditorAction::Idle
                && final(self).status_msg@.len() == 0 && (exists|m: Editor|
                #[trigger] insert_row_rel(with_status(*old(self), final(self).status_msg), m) && *final(self) == (Editor {
                    cy: (old(self).cy + 1) as usize,
                    cx: 0,
                    prev_cx: 0,
                    dirty: true,
                    quit_times: QUIT_PRESSES as usize,
                    ..m
                })),
            (key == Key::Char(8u8) || key == Key::Char(127u8)) ==> action == EditorAction::Idle
                && final(self).status_msg@.len() == 0 && (exists|m: Editor|
                #[trigger] delete_char_rel(with_status(*old(self), final(self).status_msg), m) && *final(self) == (Editor { quit_times: QUIT_PRESSES as usize, ..m })),
            key == Key::Delete ==> action == EditorAction::Idle && final(self).status_msg@.len()
                == 0 && (exists|m: Editor, m2: Editor|
                (m.cx as int, m.cy as int, m.prev_cx as int) == move_cursor_spec(
                    old(self).rows@,
                    old(self).cx as int,
                    old(self).cy as int,
                    old(self).prev_cx as int,
                    Key::ArrowRight,
                ) && m == (Editor {
                    cx: m.cx,
                    cy: m.cy,
                    prev_cx: m.prev_cx,
                    status_msg: final(self).status_msg,
                    ..*old(self)
                }) && #[trigger] delete_char_rel(m, m2) && *final(self) == (Editor {
                    quit_times: QUIT_PRESSES as usize,
                    ..m2
                })),
            key matches Key::Char(c) ==> ((c == 9 || (32 <= c <= 126)) ==> action
                == EditorAction::Idle && final(self).status_msg@.len() == 0 && (exists|m: Editor|
                #[trigger] insert_char_rel(
                    with_status(*old(self), final(self).status_msg),
                    m,
                    c,
                ) && *final(self) == (Editor {
                    cx: final(self).cx,
                    cy: final(self).cy,
                    prev_cx: final(self).prev_cx,
                    quit_times: QUIT_PRESSES as usize,
                    ..m
                }) && (final(self).cx as int, final(self).cy as int, final(self).prev_cx as int)
                    == move_cursor_spec(
                    m.rows@,
                    m.cx as int,
                    m.cy as int,
                    m.prev_cx as int,
                    Key::ArrowRight,
                ))),
            (key matches Key::Char(c) && !(c == 9 || (32 <= c <= 126)) && c != 13 && c != 8
                && c != 127 && c != 19 && c != 17 && c != 12 && c != 6) ==> action
                == EditorAction::Idle && final(self).status_msg@.len() == 0 && *final(self)
                == (Editor {
                status_msg: final(self).status_msg,
                quit_times: QUIT_PRESSES as usize,
                ..*old(self)
            }),
    {
        if key == Key::Nothing {
            return EditorAction::Idle;
        }
        self.update_status(Vec::new());
        let ghost pre1 = *self;
        let ghost mut mid = *self;
        let ghost mut mid2 = *self;
        let mut action = EditorAction::Idle;
        match key {
            Key::Char(13u8) => {
                self.insert_row();
                proof {
                    mid = *self;
                }
                self.cy = self.cy + 1;
                self.cx = 0;
                self.prev_cx = 0;
            },
            Key::ArrowUp | Key::ArrowDown | Key::ArrowLeft | Key::ArrowRight => {
                self.move_cursor(key);
            },
            Key::PageDown => {
                let target = self.row_offset + self.screen_rows - 1;
                self.cy = if target < self.rows.len() {
                    target
                } else {
                    self.rows.len()
                };
                self.move_cursor_times(Key::ArrowDown, self.screen_rows - 1);
                let nl = if self.cy < self.rows.len() {
                    self.rows[self.cy].len()
                } else {
                    0
                };
                if self.cx > nl {
                    self.prev_cx = self.cx;
                    self.cx = nl;
                }
            },
            Key::PageUp => {
                self.cy = if self.row_offset < self.rows.len() {
                    self.row_offset
                } else {
                    self.rows.len()
                };
                self.move_cursor_times(Key::ArrowUp, self.screen_rows - 1);
                let nl = if self.cy < self.rows.len() {
                    self.rows[self.cy].len()
                } else {
                    0
                };
                if self.cx > nl {
                    self.prev_cx = self.cx;
                    self.cx = nl;
                }
            },
            Key::Home => {
                self.cx = 0;
            },
            Key::End => {
                if self.cy < self.rows.len() {
                    self.cx = self.rows[self.cy].len();
                }
            },
            Key::Char(8u8) => {
                self.delete_char();
                proof {
                    mid = *self;
                }
            },
            Key::Char(127u8) => {
                self.delete_char();
                proof {
                    mid = *self;
                }
            },
            Key::Delete => {
                self.move_cursor(Key::ArrowRight);
                proof {
                    mid = *self;
                }
                self.delete_char();
                proof {
                    mid2 = *self;
                }
            },
            Key::Char(19u8) => {
                action = EditorAction::Save;
            },
            Key::Char(17u8) => {
                if self.dirty && self.quit_times > 1 {
                    self.quit_times = self.quit_times - 1;
                    let mut msg = warn_quit_prefix();
                    msg.push(48 + (self.quit_times as u8));
                    let suffix = warn_quit_suffix();
                    append_bytes(&mut msg, &suffix);
                    proof {
                        assert(msg@ =~= warn_msg_spec(self.quit_times as int));
                    }
                    self.update_status(msg);
                    return EditorAction::Idle;
                }
                return EditorAction::Quit;
            },
            Key::Char(12u8) => {
            },
            Key::Char(6u8) => {
                action = EditorAction::Find;
            },
            Key::Escape => {
                if self.just_searched {
                    self.just_searched = false;
                    self.cy = if self.saved_cy < self.rows.len() {
                        self.saved_cy
                    } else {
                        self.rows.len()
                    };
                    let rl = if self.cy < self.rows.len() {
                        self.rows[self.cy].len()
                    } else {
                        0
                    };
                    self.cx = if self.saved_cx < rl {
                        self.saved_cx
                    } else {
                        rl
                    };
                }
            },
            Key::Char(c) => {
                if c == 9 || (32 <= c && c <= 126) {
                    self.insert_char(c);
                    proof {
                        mid = *self;
                    }
                    self.move_cursor(Key::ArrowRight);
                }
            },
            _ => {
            },
        }
        self.quit_times = QUIT_PRESSES;
        proof {
            let lit = with_status(*old(self), self.status_msg);
            assert(pre1 == lit);
            if key == Key::Char(13u8) {
                assert(insert_row_rel(lit, mid));
                assert(*self == (Editor {
                    cy: (old(self).cy + 1) as usize,
                    cx: 0,
                    prev_cx: 0,
                    dirty: true,
                    quit_times: QUIT_PRESSES as usize,
                    ..mid
                }));
            }
            if key == Key::Char(8u8) || key == Key::Char(127u8) {
                assert(delete_char_rel(lit, mid));
                assert(*self == (Editor { quit_times: QUIT_PRESSES as usize, ..mid }));
            }
            if key == Key::Delete {
                assert((mid.cx as int, mid.cy as int, mid.prev_cx as int) == move_cursor_spec(
                    old(self).rows@,
                    old(self).cx as int,
                    old(self).cy as int,
                    old(self).prev_cx as int,
                    Key::ArrowRight,
                ));
                assert(mid == (Editor {
                    cx: mid.cx,
                    cy: mid.cy,
                    prev_cx: mid.prev_cx,
                    status_msg: self.status_msg,
                    ..*old(self)
                }));
                assert(delete_char_rel(mid, mid2));
                assert(*self == (Editor { quit_times: QUIT_PRESSES as usize, ..mid2 }));
            }
            if let Key::Char(c) = key {
                if c == 9 || (32 <= c && c <= 126) {
                    assert(insert_char_rel(lit, mid, c));
                    assert((self.cx as int, self.cy as int, self.prev_cx as int)
                        == move_cursor_spec(
                        mid.rows@,
                        mid.cx as int,
                        mid.cy as int,
                        mid.prev_cx as int,
                        Key::ArrowRight,
                    ));
                    assert(*self == (Editor {
                        cx: self.cx,
                        cy: self.cy,
                        prev_cx: self.prev_cx,
                        quit_times: QUIT_PRESSES as usize,
                        ..mid
                    }));
                }
            }
        }
        action
    }

    /// Bind a (new) file name, as the save-as prompt hands it over.
    pub fn set_file_name(&mut self, name: Vec<u8>)
        ensures
            *final(self) == (Editor { file_name: name, ..*old(self) }),
    {
        self.file_name = name;
    }

    /// Open a save of the document: re-select the rules for the (possibly
    /// new) file name, re-highlight, and hand back the atomic save
    /// protocol, loaded with the current document and the lock path
    /// derived from the target.
    pub fn start_save(&mut self) -> (p: SaveProtocol)
        requires
            old(self).wf(),
        ensures
            final(self).wf(),
            final(self).file_name == old(self).file_name,
            texts_of(final(self).rows@) == texts_of(old(self).rows@),
            p.target@ == old(self).file_name@,
            p.lock@ == crate::storage::lock_path_spec(old(self).file_name@),
            p.lock@ != p.target@,
            p.content@ == crate::storage::serialize_spec(texts_of(old(self).rows@)),
            p.stage == SaveStage::WriteLock,
            !p.succeeded,
            p.wf(),
            selects_c(old(self).file_name@) ==> syntax_is_c(final(self).syntax),
            !selects_c(old(self).file_name@) ==> syntax_empty(final(self).syntax),
            *final(self) == (Editor {
                rows: final(self).rows,
                syntax: final(self).syntax,
                status_msg: final(self).status_msg,
                ..*old(self)
            }),
    {
        self.select_syntax_highlight();
        let p = SaveProtocol::begin(&self.file_name, &self.rows);
        proof {
            assert(texts_of(self.rows@) =~= texts_of(old(self).rows@));
        }
        p
    }

    /// Close a save: a successful one clears the dirty flag and announces
    /// itself; a failed one leaves the document marked dirty (the caller
    /// reports the failing step).
    pub fn finish_save(&mut self, succeeded: bool)
        ensures
            succeeded ==> *final(self) == (Editor {
                dirty: false,
                status_msg: final(self).status_msg,
                ..*old(self)
            }) && final(self).status_msg@ == saved_message_spec(),
            !succeeded ==> *final(self) == *old(self),
    {
        if succeeded {
            self.dirty = false;
            self.update_status(saved_message());
        }
    }
}

} // verus!
