//! One line of text: raw content, its tab-expanded render form, and one
//! highlight tag per rendered character.

use vstd::prelude::*;

use crate::syntax::ALLOW_SINGLE_QUOTE;
use crate::syntax::HIGHLIGHT_NUMBERS;
use crate::syntax::HIGHLIGHT_STRINGS;
use crate::syntax::Highlight;
use crate::syntax::Keyword;
use crate::syntax::Syntax;
use crate::syntax::TAB_STOP;
use crate::syntax::comment_at;
use crate::syntax::first_kw;
use crate::syntax::highlight_spec;
use crate::syntax::hl_from;
use crate::syntax::is_separator;
use crate::syntax::kw_match_at;
use crate::syntax::lemma_first_kw_match;
use crate::syntax::lemma_highlight_spec_len;
use crate::syntax::spec_is_separator;
use crate::syntax::strings_on;

verus! {

/// Largest raw length a row may reach; keeps all column arithmetic,
/// including tab expansion (at most four columns per character), inside
/// `usize` on every target.
pub const MAX_ROW: usize = 0x0FFF_FFFF;

/// A run of `n` spaces.
pub open spec fn spaces(n: nat) -> Seq<u8> {
    Seq::new(n, |i: int| 32u8)
}

/// The render form of raw text: every tab expands to spaces up to the next
/// multiple of `TAB_STOP`; every other character stands as itself.
pub open spec fn render_spec(t: Seq<u8>) -> Seq<u8>
    decreases t.len(),
{
    if t.len() == 0 {
        Seq::empty()
    } else {
        let prefix = render_spec(t.drop_last());
        if t.last() == 9u8 {
            prefix + spaces((TAB_STOP - (prefix.len() % (TAB_STOP as nat))) as nat)
        } else {
            prefix.push(t.last())
        }
    }
}

/// Rendering expands each character to at least one and at most `TAB_STOP`
/// columns.
pub proof fn lemma_render_len(t: Seq<u8>)
    ensures
        t.len() <= render_spec(t).len() <= TAB_STOP * t.len(),
    decreases t.len(),
{
    if t.len() > 0 {
        lemma_render_len(t.drop_last());
    }
}

/// The render column of raw column `cx`: the rendered length of the raw
/// prefix of length `cx` (clamped to the text length).
pub open spec fn rx_spec(t: Seq<u8>, cx: int) -> int {
    let end = if cx <= t.len() {
        if cx < 0 {
            0
        } else {
            cx
        }
    } else {
        t.len() as int
    };
    render_spec(t.take(end)).len() as int
}

/// Rendering more of the text never shortens the rendered prefix.
proof fn lemma_render_take_monotonic(t: Seq<u8>, a: int, b: int)
    requires
        0 <= a <= b <= t.len(),
    ensures
        render_spec(t.take(a)).len() <= render_spec(t.take(b)).len(),
    decreases b - a,
{
    if a < b {
        lemma_render_take_monotonic(t, a, b - 1);
        assert(t.take(b).drop_last() =~= t.take(b - 1));
        assert(render_spec(t.take(b - 1)).len() <= render_spec(t.take(b)).len());
    }
}

/// The cursor-to-render-column map is monotonically non-decreasing.
pub proof fn lemma_rx_monotonic(t: Seq<u8>, cx1: int, cx2: int)
    requires
        cx1 <= cx2,
    ensures
        rx_spec(t, cx1) <= rx_spec(t, cx2),
{
    let a = if cx1 <= t.len() {
        if cx1 < 0 {
            0
        } else {
            cx1
        }
    } else {
        t.len() as int
    };
    let b = if cx2 <= t.len() {
        if cx2 < 0 {
            0
        } else {
            cx2
        }
    } else {
        t.len() as int
    };
    lemma_render_take_monotonic(t, a, b);
}

/// Rendered text contains no tab.
proof fn lemma_render_no_tab(t: Seq<u8>)
    ensures
        forall|i: int| 0 <= i < render_spec(t).len() ==> render_spec(t)[i] != 9u8,
    decreases t.len(),
{
    if t.len() > 0 {
        lemma_render_no_tab(t.drop_last());
        let prefix = render_spec(t.drop_last());
        assert forall|i: int| 0 <= i < render_spec(t).len() implies render_spec(t)[i] != 9u8 by {
            if i < prefix.len() {
                assert(render_spec(t)[i] == prefix[i]);
            } else if t.last() == 9u8 {
                assert(render_spec(t)[i] == 32u8);
            } else {
                assert(render_spec(t)[i] == t.last());
            }
        }
    }
}

/// Rendering tab-free text changes nothing.
proof fn lemma_render_tab_free(t: Seq<u8>)
    requires
        forall|i: int| 0 <= i < t.len() ==> t[i] != 9u8,
    ensures
        render_spec(t) == t,
    decreases t.len(),
{
    if t.len() > 0 {
        assert(forall|i: int|
            0 <= i < t.drop_last().len() ==> #[trigger] t.drop_last()[i] == t[i]);
        lemma_render_tab_free(t.drop_last());
        assert(render_spec(t) =~= t);
    }
}

/// Rendering is idempotent: re-rendering already-rendered text is the
/// identity, so a re-render of unchanged text leaves every render column
/// (and with it `rx_spec`) unchanged.
pub proof fn lemma_render_idempotent(t: Seq<u8>)
    ensures
        render_spec(render_spec(t)) == render_spec(t),
{
    lemma_render_no_tab(t);
    lemma_render_tab_free(render_spec(t));
}

/// The query occurs (whole) at position `i` of the text.
pub open spec fn match_at(t: Seq<u8>, q: Seq<u8>, i: int) -> bool {
    &&& 0 <= i
    &&& i + q.len() <= t.len()
    &&& t.subrange(i, i + q.len()) == q
}

/// Whether `needle` occurs (whole) at position `i` of `hay`.
pub fn bytes_eq_at(hay: &Vec<u8>, i: usize, needle: &Vec<u8>) -> (r: bool)
    ensures
        r == match_at(hay@, needle@, i as int),
{
    let n = hay.len();
    let m = needle.len();
    if m > n || i > n - m {
        return false;
    }
    let mut j: usize = 0;
    while j < m
        invariant
            j <= m,
            m == needle@.len(),
            n == hay@.len(),
            i + m <= n,
            forall|k: int| 0 <= k < j ==> hay@[i + k] == needle@[k],
        decreases m - j,
    {
        if hay[i + j] != needle[j] {
            proof {
                assert(hay@.subrange(i as int, i + needle@.len())[j as int] != needle@[j as int]);
            }
            return false;
        }
        j = j + 1;
    }
    proof {
        assert(hay@.subrange(i as int, i + needle@.len()) =~= needle@);
    }
    true
}

/// A copy of `v[lo..hi]`.
pub fn copy_range(v: &Vec<u8>, lo: usize, hi: usize) -> (r: Vec<u8>)
    requires
        lo <= hi <= v@.len(),
    ensures
        r@ == v@.subrange(lo as int, hi as int),
{
    let mut r: Vec<u8> = Vec::new();
    let mut i: usize = lo;
    while i < hi
        invariant
            lo <= i <= hi <= v@.len(),
            r@ == v@.subrange(lo as int, i as int),
        decreases hi - i,
    {
        r.push(v[i]);
        proof {
            assert(v@.subrange(lo as int, i + 1) =~= v@.subrange(lo as int, i as int).push(
                v@[i as int],
            ));
        }
        i = i + 1;
    }
    r
}

/// Whether `kw` matches (whole, followed by a separator or end-of-row) at
/// position `i` of the rendered text.
fn kw_matches(r: &Vec<u8>, kw: &Keyword, i: usize) -> (res: bool)
    ensures
        res == kw_match_at(r@, *kw, i as int),
{
    if kw.text.len() < 1 {
        return false;
    }
    if !bytes_eq_at(r, i, &kw.text) {
        return false;
    }
    let n = r.len();
    let end = i + kw.text.len();
    if end == r.len() {
        true
    } else {
        is_separator(r[end])
    }
}

/// The first keyword of the table that matches at position `i`, as its
/// length and class.
fn find_keyword(r: &Vec<u8>, kws: &Vec<Keyword>, i: usize) -> (res: Option<(usize, Highlight)>)
    ensures
        match res {
            Some(p) => first_kw(r@, kws@, i as int) matches Some(kw) && kw.text@.len() == p.0
                && kw.class == p.1,
            None => first_kw(r@, kws@, i as int) is None,
        },
{
    let mut k: usize = 0;
    proof {
        assert(kws@.skip(0) =~= kws@);
    }
    while k < kws.len()
        invariant
            k <= kws@.len(),
            first_kw(r@, kws@, i as int) == first_kw(r@, kws@.skip(k as int), i as int),
        decreases kws@.len() - k,
    {
        proof {
            assert(kws@.skip(k as int)[0] == kws@[k as int]);
        }
        if kw_matches(r, &kws[k], i) {
            return Some((kws[k].text.len(), kws[k].class));
        }
        proof {
            assert(kws@.skip(k as int).drop_first() =~= kws@.skip(k + 1));
        }
        k = k + 1;
    }
    proof {
        assert(kws@.skip(k as int).len() == 0);
    }
    None
}

/// The clamped slice `t[low..high]`: empty when `low` is out of range, and
/// cut off at the end of `t`.
pub open spec fn clamped_slice(t: Seq<u8>, low: int, high: int) -> Seq<u8> {
    if low >= t.len() {
        Seq::empty()
    } else if high >= t.len() {
        t.subrange(low, t.len() as int)
    } else {
        t.subrange(low, high)
    }
}

/// Tags after overwriting the span `[start, start + distance)` with `h`
/// (clamped to the tag sequence).
pub open spec fn set_from_spec(
    hl: Seq<Highlight>,
    h: Highlight,
    start: int,
    distance: int,
) -> Seq<Highlight> {
    Seq::new(
        hl.len(),
        |j: int|
            if start <= j < start + distance {
                h
            } else {
                hl[j]
            },
    )
}

/// The tags of the span `[start, start + distance)`, clamped to the tag
/// sequence; meaningful only when `start` is in range.
pub open spec fn save_spec(hl: Seq<Highlight>, start: int, distance: int) -> Seq<Highlight> {
    hl.subrange(
        start,
        if start + distance <= hl.len() {
            start + distance
        } else {
            hl.len() as int
        },
    )
}

/// Tags after writing a saved group back at `start` (clamped to the tag
/// sequence).
pub open spec fn set_group_spec(hl: Seq<Highlight>, start: int, g: Seq<Highlight>) -> Seq<
    Highlight,
> {
    Seq::new(
        hl.len(),
        |j: int|
            if start <= j < start + g.len() {
                g[j - start]
            } else {
                hl[j]
            },
    )
}

/// Cancelling a search restores every tag the match touched: saving a span,
/// overwriting it with the `Match` tag, and writing the saved span back
/// yields the original tags — and when the span lies beyond the tags, the
/// overwrite already changed nothing.
pub proof fn lemma_search_highlight_restore(hl: Seq<Highlight>, start: int, d: int, m: Highlight)
    requires
        0 <= start,
        0 <= d,
    ensures
        start < hl.len() ==> set_group_spec(
            set_from_spec(hl, m, start, d),
            start,
            save_spec(hl, start, d),
        ) == hl,
        start >= hl.len() ==> set_from_spec(hl, m, start, d) == hl,
{
    if start < hl.len() {
        assert(set_group_spec(set_from_spec(hl, m, start, d), start, save_spec(hl, start, d))
            =~= hl);
    } else {
        assert(set_from_spec(hl, m, start, d) =~= hl);
    }
}

/// One line of text. `rendered` is always derived from `text` by tab
/// expansion, and `highlight` holds exactly one tag per rendered character.
pub struct Row {
    pub text: Vec<u8>,
    pub rendered: Vec<u8>,
    pub highlight: Vec<Highlight>,
}

impl Row {
    /// The row invariant: the render form is derived from the raw text and
    /// the tags cover it exactly.
    pub open spec fn wf(&self) -> bool {
        &&& self.text@.len() <= MAX_ROW
        &&& self.rendered@ == render_spec(self.text@)
        &&& self.highlight@.len() == self.rendered@.len()
    }

    /// The empty row.
    pub fn new() -> (r: Row)
        ensures
            r.text@ == Seq::<u8>::empty(),
            r.rendered@ == Seq::<u8>::empty(),
            r.highlight@ == Seq::<Highlight>::empty(),
            r.wf(),
    {
        let r = Row { text: Vec::new(), rendered: Vec::new(), highlight: Vec::new() };
        proof {
            assert(render_spec(r.text@) =~= Seq::<u8>::empty());
        }
        r
    }

    pub fn len(&self) -> (r: usize)
        ensures
            r == self.text@.len(),
    {
        self.text.len()
    }

    pub fn get_text(&self) -> (r: &Vec<u8>)
        ensures
            r == &self.text,
    {
        &self.text
    }

    pub fn get_render(&self) -> (r: &Vec<u8>)
        ensures
            r == &self.rendered,
    {
        &self.rendered
    }

    /// Re-derive the render form from the raw text. The tags are left as
    /// they are; callers re-run highlighting afterwards.
    pub fn render(&mut self)
        requires
            old(self).text@.len() <= MAX_ROW,
        ensures
            final(self).text == old(self).text,
            final(self).highlight == old(self).highlight,
            final(self).rendered@ == render_spec(old(self).text@),
    {
        let n = self.text.len();
        let mut rendered: Vec<u8> = Vec::new();
        let mut i: usize = 0;
        while i < n
            invariant
                i <= n,
                n == self.text@.len(),
                n <= MAX_ROW,
                rendered@ == render_spec(self.text@.take(i as int)),
            decreases n - i,
        {
            proof {
                assert(self.text@.take(i + 1).drop_last() =~= self.text@.take(i as int));
                assert(self.text@.take(i + 1).last() == self.text@[i as int]);
                lemma_render_len(self.text@.take(i as int));
            }
            let c = self.text[i];
            if c == 9 {
                let pad = TAB_STOP - (rendered.len() % TAB_STOP);
                let ghost pre = rendered@;
                let mut j: usize = 0;
                while j < pad
                    invariant
                        j <= pad,
                        pad == TAB_STOP - (pre.len() % (TAB_STOP as nat)),
                        rendered@ == pre + spaces(j as nat),
                    decreases pad - j,
                {
                    rendered.push(32);
                    proof {
                        assert(pre + spaces((j + 1) as nat) =~= (pre + spaces(j as nat)).push(
                            32u8,
                        ));
                    }
                    j = j + 1;
                }
                proof {
                    assert(rendered@ == render_spec(self.text@.take(i + 1)));
                }
            } else {
                rendered.push(c);
                proof {
                    assert(rendered@ == render_spec(self.text@.take(i + 1)));
                }
            }
            i = i + 1;
        }
        proof {
            assert(self.text@.take(n as int) =~= self.text@);
        }
        self.rendered = rendered;
    }

    /// Map a raw cursor column to its render column.
    pub fn cx_to_rx(&self, cx: usize) -> (rx: usize)
        requires
            self.text@.len() <= MAX_ROW,
        ensures
            rx == rx_spec(self.text@, cx as int),
    {
        let mut rx: usize = 0;
        let end = if cx < self.text.len() {
            cx
        } else {
            self.text.len()
        };
        let mut i: usize = 0;
        while i < end
            invariant
                i <= end,
                end <= self.text@.len() <= MAX_ROW,
                rx == render_spec(self.text@.take(i as int)).len(),
                rx <= TAB_STOP * i,
            decreases end - i,
        {
            proof {
                assert(self.text@.take(i + 1).drop_last() =~= self.text@.take(i as int));
                assert(self.text@.take(i + 1).last() == self.text@[i as int]);
            }
            let c = self.text[i];
            if c == 9 {
                rx = rx + (TAB_STOP - 1) - rx % TAB_STOP + 1;
            } else {
                rx = rx + 1;
            }
            i = i + 1;
        }
        proof {
            if cx < self.text@.len() {
                assert(end == cx);
            } else {
                assert(self.text@.take(end as int) =~= self.text@);
            }
        }
        rx
    }

    /// A copy of the raw text between `low` and `high`, clamped to the
    /// row. A start past the end yields the empty text whatever `high` is.
    pub fn get(&self, low: usize, high: usize) -> (r: Vec<u8>)
        requires
            low <= high || low >= self.text@.len(),
        ensures
            r@ == clamped_slice(self.text@, low as int, high as int),
    {
        if low >= self.text.len() {
            Vec::new()
        } else if high >= self.text.len() {
            copy_range(&self.text, low, self.text.len())
        } else {
            copy_range(&self.text, low, high)
        }
    }

    /// A copy of the rendered text between `low` and `high`, clamped to
    /// the rendered row. A start past the end yields the empty text
    /// whatever `high` is.
    pub fn get_render_slice(&self, low: usize, high: usize) -> (r: Vec<u8>)
        requires
            low <= high || low >= self.rendered@.len(),
        ensures
            r@ == clamped_slice(self.rendered@, low as int, high as int),
    {
        if low >= self.rendered.len() {
            Vec::new()
        } else if high >= self.rendered.len() {
            copy_range(&self.rendered, low, self.rendered.len())
        } else {
            copy_range(&self.rendered, low, high)
        }
    }

    /// The first occurrence of `query` in the row, if any.
    pub fn search(&self, query: &Vec<u8>) -> (r: Option<usize>)
        requires
            query@.len() >= 1,
        ensures
            match r {
                Some(i) => match_at(self.text@, query@, i as int) && (forall|j: int|
                    0 <= j < i ==> !match_at(self.text@, query@, j)),
                None => forall|j: int| !match_at(self.text@, query@, j),
            },
    {
        if query.len() > self.text.len() {
            return None;
        }
        let last = self.text.len() - query.len();
        let mut i: usize = 0;
        while i <= last
            invariant
                query@.len() >= 1,
                i <= last + 1,
                self.text@.len() <= usize::MAX,
                last == self.text@.len() - query@.len(),
                forall|j: int| 0 <= j < i ==> !match_at(self.text@, query@, j),
            decreases last + 1 - i,
        {
            if bytes_eq_at(&self.text, i, query) {
                return Some(i);
            }
            i = i + 1;
        }
        None
    }

    /// The first occurrence of `query` strictly after position `index`.
    pub fn search_from(&self, index: usize, query: &Vec<u8>) -> (r: Option<usize>)
        requires
            query@.len() >= 1,
        ensures
            match r {
                Some(i) => i > index && match_at(self.text@, query@, i as int) && (forall|j: int|
                    index < j < i ==> !match_at(self.text@, query@, j)),
                None => forall|j: int| j > index ==> !match_at(self.text@, query@, j),
            },
    {
        if index >= self.text.len() {
            return None;
        }
        let mut i: usize = index + 1;
        while i < self.text.len()
            invariant
                index < i,
                i <= self.text@.len(),
                forall|j: int| index < j < i ==> !match_at(self.text@, query@, j),
            decreases self.text@.len() - i,
        {
            if bytes_eq_at(&self.text, i, query) {
                return Some(i);
            }
            i = i + 1;
        }
        None
    }

    /// The last occurrence of `query` in the row, if any.
    pub fn search_reverse(&self, query: &Vec<u8>) -> (r: Option<usize>)
        requires
            query@.len() >= 1,
        ensures
            match r {
                Some(i) => match_at(self.text@, query@, i as int) && (forall|j: int|
                    j > i ==> !match_at(self.text@, query@, j)),
                None => forall|j: int| !match_at(self.text@, query@, j),
            },
    {
        if query.len() > self.text.len() {
            return None;
        }
        let mut i: usize = self.text.len() - query.len() + 1;
        while i > 0
            invariant
                i <= self.text@.len() - query@.len() + 1,
                forall|j: int| j >= i ==> !match_at(self.text@, query@, j),
            decreases i,
        {
            i = i - 1;
            if bytes_eq_at(&self.text, i, query) {
                return Some(i);
            }
        }
        None
    }

    /// Re-run the one-pass highlighting scan over the rendered text,
    /// replacing every tag. The result is exactly `highlight_spec`.
    pub fn update_highlight(&mut self, syntax: &Syntax)
        requires
            syntax.wf(),
        ensures
            final(self).text == old(self).text,
            final(self).rendered == old(self).rendered,
            final(self).highlight@ == highlight_spec(old(self).rendered@, *syntax),
            final(self).highlight@.len() == final(self).rendered@.len(),
    {
        let n = self.rendered.len();
        let flags = syntax.flags;
        let mut hl: Vec<Highlight> = Vec::new();
        let mut i: usize = 0;
        let mut prev_sep: bool = true;
        let mut in_str: Option<u8> = None;
        let mut prev: Highlight = Highlight::Normal;
        while i < n
            invariant
                i <= n,
                n == self.rendered@.len(),
                flags == syntax.flags,
                syntax.wf(),
                hl@.len() == i,
                highlight_spec(self.rendered@, *syntax) == hl@ + hl_from(
                    self.rendered@,
                    *syntax,
                    i as int,
                    prev_sep,
                    in_str,
                    prev,
                ),
            decreases n - i,
        {
            let ghost r = self.rendered@;
            let ghost pre = hl@;
            let ghost i0 = i as int;
            let ghost ps0 = prev_sep;
            let ghost is0 = in_str;
            let ghost pv0 = prev;
            let ghost tail0 = hl_from(r, *syntax, i0, ps0, is0, pv0);
            let c = self.rendered[i];
            if in_str.is_none() && syntax.single_line_comment_start.len() > 0 && bytes_eq_at(
                &self.rendered,
                i,
                &syntax.single_line_comment_start,
            ) {
                proof {
                    assert(comment_at(r, syntax.single_line_comment_start@, i0));
                    assert(tail0 == Seq::new((n - i0) as nat, |x: int| Highlight::Comment));
                }
                let mut j: usize = i;
                while j < n
                    invariant
                        i0 <= j <= n,
                        hl@ == pre + Seq::new((j - i0) as nat, |x: int| Highlight::Comment),
                    decreases n - j,
                {
                    hl.push(Highlight::Comment);
                    proof {
                        assert(pre + Seq::new((j + 1 - i0) as nat, |x: int| Highlight::Comment)
                            =~= (pre + Seq::new((j - i0) as nat, |x: int| Highlight::Comment)).push(
                            Highlight::Comment,
                        ));
                    }
                    j = j + 1;
                }
                i = n;
                proof {
                    assert(hl@ =~= pre + tail0);
                    assert(hl_from(r, *syntax, n as int, prev_sep, in_str, prev)
                        == Seq::<Highlight>::empty());
                    assert(hl@ + Seq::<Highlight>::empty() =~= hl@);
                }
            } else if (flags & HIGHLIGHT_STRINGS != 0) && in_str.is_some() {
                proof {
                    assert(strings_on(*syntax));
                }
                let q = match in_str {
                    Some(x) => x,
                    None => 0,
                };
                if c == 92 && i + 1 < n {
                    hl.push(Highlight::Str);
                    hl.push(Highlight::Str);
                    prev = Highlight::Str;
                    i = i + 2;
                    proof {
                        assert(tail0 == seq![Highlight::Str, Highlight::Str] + hl_from(
                            r,
                            *syntax,
                            i0 + 2,
                            ps0,
                            is0,
                            Highlight::Str,
                        ));
                        assert(hl@ =~= pre + seq![Highlight::Str, Highlight::Str]);
                        assert(pre + (seq![Highlight::Str, Highlight::Str] + hl_from(
                            r,
                            *syntax,
                            i0 + 2,
                            ps0,
                            is0,
                            Highlight::Str,
                        )) =~= hl@ + hl_from(r, *syntax, i0 + 2, ps0, is0, Highlight::Str));
                    }
                } else {
                    hl.push(Highlight::Str);
                    if c == q {
                        in_str = None;
                    }
                    prev_sep = true;
                    prev = Highlight::Str;
                    i = i + 1;
                    proof {
                        assert(tail0 == seq![Highlight::Str] + hl_from(
                            r,
                            *syntax,
                            i0 + 1,
                            true,
                            in_str,
                            Highlight::Str,
                        ));
                        assert(hl@ =~= pre + seq![Highlight::Str]);
                        assert(pre + (seq![Highlight::Str] + hl_from(
                            r,
                            *syntax,
                            i0 + 1,
                            true,
                            in_str,
                            Highlight::Str,
                        )) =~= hl@ + hl_from(r, *syntax, i0 + 1, true, in_str, Highlight::Str));
                    }
                }
            } else if (flags & HIGHLIGHT_STRINGS != 0) && (c == 34 || ((flags & ALLOW_SINGLE_QUOTE
                != 0) && c == 39)) {
                hl.push(Highlight::Str);
                in_str = Some(c);
                prev = Highlight::Str;
                i = i + 1;
                proof {
                    assert(tail0 == seq![Highlight::Str] + hl_from(
                        r,
                        *syntax,
                        i0 + 1,
                        ps0,
                        Some(r[i0]),
                        Highlight::Str,
                    ));
                    assert(hl@ =~= pre + seq![Highlight::Str]);
                    assert(pre + (seq![Highlight::Str] + hl_from(
                        r,
                        *syntax,
                        i0 + 1,
                        ps0,
                        Some(r[i0]),
                        Highlight::Str,
                    )) =~= hl@ + hl_from(r, *syntax, i0 + 1, ps0, Some(r[i0]), Highlight::Str));
                }
            } else if (flags & HIGHLIGHT_NUMBERS != 0) && (((48 <= c && c <= 57) && (prev_sep
                || prev == Highlight::Number)) || (c == 46 && prev == Highlight::Number)) {
                hl.push(Highlight::Number);
                prev = Highlight::Number;
                i = i + 1;
                proof {
                    assert(tail0 == seq![Highlight::Number] + hl_from(
                        r,
                        *syntax,
                        i0 + 1,
                        ps0,
                        is0,
                        Highlight::Number,
                    ));
                    assert(hl@ =~= pre + seq![Highlight::Number]);
                    assert(pre + (seq![Highlight::Number] + hl_from(
                        r,
                        *syntax,
                        i0 + 1,
                        ps0,
                        is0,
                        Highlight::Number,
                    )) =~= hl@ + hl_from(r, *syntax, i0 + 1, ps0, is0, Highlight::Number));
                }
            } else {
                let found = if prev_sep {
                    find_keyword(&self.rendered, &syntax.keywords, i)
                } else {
                    None
                };
                match found {
                    Some((klen, class)) => {
                        proof {
                            lemma_first_kw_match(r, syntax.keywords@, i0);
                        }
                        let mut j: usize = 0;
                        while j < klen
                            invariant
                                j <= klen,
                                i0 + klen <= n,
                                hl@ == pre + Seq::new(j as nat, |x: int| class),
                            decreases klen - j,
                        {
                            hl.push(class);
                            proof {
                                assert(pre + Seq::new((j + 1) as nat, |x: int| class) =~= (pre
                                    + Seq::new(j as nat, |x: int| class)).push(class));
                            }
                            j = j + 1;
                        }
                        prev_sep = false;
                        prev = class;
                        i = i + klen;
                        proof {
                            assert(tail0 == Seq::new(klen as nat, |x: int| class) + hl_from(
                                r,
                                *syntax,
                                i0 + klen,
                                false,
                                is0,
                                class,
                            ));
                            assert(pre + (Seq::new(klen as nat, |x: int| class) + hl_from(
                                r,
                                *syntax,
                                i0 + klen,
                                false,
                                is0,
                                class,
                            )) =~= hl@ + hl_from(r, *syntax, i0 + klen, false, is0, class));
                        }
                    },
                    None => {
                        hl.push(Highlight::Normal);
                        prev_sep = is_separator(c);
                        prev = Highlight::Normal;
                        i = i + 1;
                        proof {
                            assert(tail0 == seq![Highlight::Normal] + hl_from(
                                r,
                                *syntax,
                                i0 + 1,
                                spec_is_separator(r[i0]),
                                is0,
                                Highlight::Normal,
                            ));
                            assert(hl@ =~= pre + seq![Highlight::Normal]);
                            assert(pre + (seq![Highlight::Normal] + hl_from(
                                r,
                                *syntax,
                                i0 + 1,
                                spec_is_separator(r[i0]),
                                is0,
                                Highlight::Normal,
                            )) =~= hl@ + hl_from(
                                r,
                                *syntax,
                                i0 + 1,
                                spec_is_separator(r[i0]),
                                is0,
                                Highlight::Normal,
                            ));
                        }
                    },
                }
            }
        }
        proof {
            assert(hl_from(self.rendered@, *syntax, n as int, prev_sep, in_str, prev)
                == Seq::<Highlight>::empty());
            assert(hl@ + Seq::<Highlight>::empty() =~= hl@);
            lemma_highlight_spec_len(self.rendered@, *syntax);
        }
        self.highlight = hl;
    }

    /// A row built from raw text: the render form and the tags are derived
    /// immediately.
    pub fn from(text: Vec<u8>, syntax: &Syntax) -> (r: Row)
        requires
            text@.len() <= MAX_ROW,
            syntax.wf(),
        ensures
            r.text@ == text@,
            r.rendered@ == render_spec(text@),
            r.highlight@ == highlight_spec(render_spec(text@), *syntax),
            r.wf(),
    {
        let mut row = Row { text, rendered: Vec::new(), highlight: Vec::new() };
        row.render();
        row.update_highlight(syntax);
        row
    }

    /// Insert one character at raw column `index` and re-derive.
    pub fn insert(&mut self, index: usize, c: u8, syntax: &Syntax)
        requires
            index <= old(self).text@.len(),
            old(self).text@.len() < MAX_ROW,
            syntax.wf(),
        ensures
            final(self).text@ == old(self).text@.insert(index as int, c),
            final(self).rendered@ == render_spec(final(self).text@),
            final(self).highlight@ == highlight_spec(final(self).rendered@, *syntax),
            final(self).wf(),
    {
        self.text.insert(index, c);
        self.render();
        self.update_highlight(syntax);
    }

    /// Remove the character at raw column `index` and re-derive.
    pub fn remove(&mut self, index: usize, syntax: &Syntax)
        requires
            index < old(self).text@.len(),
            old(self).text@.len() <= MAX_ROW,
            syntax.wf(),
        ensures
            final(self).text@ == old(self).text@.remove(index as int),
            final(self).rendered@ == render_spec(final(self).text@),
            final(self).highlight@ == highlight_spec(final(self).rendered@, *syntax),
            final(self).wf(),
    {
        self.text.remove(index);
        self.render();
        self.update_highlight(syntax);
    }

    /// Append the other row's raw text to this one and re-derive.
    pub fn join(&mut self, other: &Row, syntax: &Syntax)
        requires
            old(self).text@.len() + other.text@.len() <= MAX_ROW,
            syntax.wf(),
        ensures
            final(self).text@ == old(self).text@ + other.text@,
            final(self).rendered@ == render_spec(final(self).text@),
            final(self).highlight@ == highlight_spec(final(self).rendered@, *syntax),
            final(self).wf(),
    {
        let n = other.text.len();
        let mut i: usize = 0;
        while i < n
            invariant
                i <= n,
                n == other.text@.len(),
                self.text@ == old(self).text@ + other.text@.take(i as int),
                self.rendered == old(self).rendered,
                self.highlight == old(self).highlight,
            decreases n - i,
        {
            self.text.push(other.text[i]);
            proof {
                assert(old(self).text@ + other.text@.take(i + 1) =~= (old(self).text@
                    + other.text@.take(i as int)).push(other.text@[i as int]));
            }
            i = i + 1;
        }
        proof {
            assert(other.text@.take(n as int) =~= other.text@);
        }
        self.render();
        self.update_highlight(syntax);
    }

    /// Cut the row at raw column `index`: this row keeps the head, the
    /// returned row carries the tail; both are re-derived.
    pub fn split_off(&mut self, index: usize, syntax: &Syntax) -> (r: Row)
        requires
            index <= old(self).text@.len(),
            old(self).text@.len() <= MAX_ROW,
            syntax.wf(),
        ensures
            final(self).text@ == old(self).text@.take(index as int),
            r.text@ == old(self).text@.skip(index as int),
            final(self).rendered@ == render_spec(final(self).text@),
            final(self).highlight@ == highlight_spec(final(self).rendered@, *syntax),
            r.rendered@ == render_spec(r.text@),
            r.highlight@ == highlight_spec(r.rendered@, *syntax),
            final(self).wf(),
            r.wf(),
    {
        let tail = self.text.split_off(index);
        proof {
            assert(self.text@ =~= old(self).text@.take(index as int));
            assert(tail@ =~= old(self).text@.skip(index as int));
        }
        self.render();
        self.update_highlight(syntax);
        Row::from(tail, syntax)
    }

    /// The tag at render column `index`; out-of-range columns read `Normal`.
    pub fn get_highlight_at(&self, index: usize) -> (r: Highlight)
        ensures
            r == if (index as int) < self.highlight@.len() {
                self.highlight@[index as int]
            } else {
                Highlight::Normal
            },
    {
        if index >= self.highlight.len() {
            Highlight::Normal
        } else {
            self.highlight[index]
        }
    }

    /// Overwrite `distance` tags starting at `start` with `highlight`,
    /// clamped to the row.
    pub fn set_highlight_from(&mut self, highlight: Highlight, start: usize, distance: usize)
        ensures
            final(self).text == old(self).text,
            final(self).rendered == old(self).rendered,
            final(self).highlight@ == set_from_spec(
                old(self).highlight@,
                highlight,
                start as int,
                distance as int,
            ),
    {
        let n = self.highlight.len();
        if start >= n {
            proof {
                assert(set_from_spec(self.highlight@, highlight, start as int, distance as int)
                    =~= self.highlight@);
            }
            return;
        }
        let m = if distance < n - start {
            distance
        } else {
            n - start
        };
        let mut c: usize = 0;
        while c < m
            invariant
                c <= m,
                start + m <= n,
                m <= distance,
                n == self.highlight@.len(),
                self.text == old(self).text,
                self.rendered == old(self).rendered,
                forall|j: int|
                    0 <= j < n ==> #[trigger] self.highlight@[j] == (if start <= j < start + c {
                        highlight
                    } else {
                        old(self).highlight@[j]
                    }),
            decreases m - c,
        {
            self.highlight.set(start + c, highlight);
            c = c + 1;
        }
        proof {
            assert(self.highlight@ =~= set_from_spec(
                old(self).highlight@,
                highlight,
                start as int,
                distance as int,
            ));
        }
    }

    /// A copy of the tags of the span `[start, start + distance)`, clamped
    /// to the row; `None` when `start` is beyond the tags.
    pub fn save_highlight(&self, start: usize, distance: usize) -> (r: Option<Vec<Highlight>>)
        ensures
            match r {
                None => start >= self.highlight@.len(),
                Some(v) => start < self.highlight@.len() && v@ == save_spec(
                    self.highlight@,
                    start as int,
                    distance as int,
                ),
            },
    {
        let n = self.highlight.len();
        if start >= n {
            return None;
        }
        let end = if distance < n - start {
            start + distance
        } else {
            n
        };
        let mut v: Vec<Highlight> = Vec::new();
        let mut i: usize = start;
        while i < end
            invariant
                start <= i <= end <= n,
                n == self.highlight@.len(),
                v@ == self.highlight@.subrange(start as int, i as int),
            decreases end - i,
        {
            v.push(self.highlight[i]);
            proof {
                assert(self.highlight@.subrange(start as int, i + 1) =~= self.highlight@.subrange(
                    start as int,
                    i as int,
                ).push(self.highlight@[i as int]));
            }
            i = i + 1;
        }
        Some(v)
    }

    /// Write a saved group of tags back, starting at `start`, clamped to
    /// the row.
    pub fn set_highlight_group(&mut self, start: usize, highlights: &Vec<Highlight>)
        ensures
            final(self).text == old(self).text,
            final(self).rendered == old(self).rendered,
            final(self).highlight@ == set_group_spec(
                old(self).highlight@,
                start as int,
                highlights@,
            ),
    {
        let n = self.highlight.len();
        if start >= n {
            proof {
                assert(set_group_spec(self.highlight@, start as int, highlights@)
                    =~= self.highlight@);
            }
            return;
        }
        let g = highlights.len();
        let m = if g < n - start {
            g
        } else {
            n - start
        };
        let mut c: usize = 0;
        while c < m
            invariant
                c <= m,
                start + m <= n,
                m <= g,
                g == highlights@.len(),
                n == self.highlight@.len(),
                self.text == old(self).text,
                self.rendered == old(self).rendered,
                forall|j: int|
                    0 <= j < n ==> #[trigger] self.highlight@[j] == (if start <= j < start + c {
                        highlights@[j - start]
                    } else {
                        old(self).highlight@[j]
                    }),
            decreases m - c,
        {
            self.highlight.set(start + c, highlights[c]);
            c = c + 1;
        }
        proof {
            assert(self.highlight@ =~= set_group_spec(
                old(self).highlight@,
                start as int,
                highlights@,
            ));
        }
    }

    /// The last occurrence of `query` strictly before position `index`.
    pub fn search_reverse_to(&self, index: usize, query: &Vec<u8>) -> (r: Option<usize>)
        requires
            query@.len() >= 1,
        ensures
            match r {
                Some(i) => i < index && match_at(self.text@, query@, i as int) && (forall|j: int|
                    i < j < index ==> !match_at(self.text@, query@, j)),
                None => forall|j: int| j < index ==> !match_at(self.text@, query@, j),
            },
    {
        let mut i: usize = index;
        while i > 0
            invariant
                i <= index,
                forall|j: int| i <= j < index ==> !match_at(self.text@, query@, j),
            decreases i,
        {
            i = i - 1;
            if bytes_eq_at(&self.text, i, query) {
                return Some(i);
            }
        }
        None
    }
}

} // verus!
