//! Highlight classes, the separator alphabet, and the per-file-type
//! syntax rules (comment marker, keyword table, feature flags).

use vstd::prelude::*;

verus! {

/// Number of columns a tab character advances to (the next multiple of this).
pub const TAB_STOP: usize = 4;

/// Flag bit: digits (and decimal points continuing a number) are highlighted.
pub const HIGHLIGHT_NUMBERS: u32 = 1;
/// Flag bit: double-quoted strings are highlighted.
pub const HIGHLIGHT_STRINGS: u32 = 2;
/// Flag bit: single-quoted strings are highlighted as strings too.
pub const ALLOW_SINGLE_QUOTE: u32 = 4;

/// Classification of one rendered character, driving its output color.
#[derive(Clone, Copy, PartialEq, Eq, Structural, Debug)]
pub enum Highlight {
    Normal,
    Number,
    Match,
    Str,
    Comment,
    Keyword1,
    Keyword2,
}

/// The separator alphabet: space, NUL and common punctuation/operators.
/// Separators delimit keywords and decide where a number may start.
pub open spec fn spec_is_separator(c: u8) -> bool {
    ||| c == 32u8
    ||| c == 0u8
    ||| c == 44u8
    ||| c == 46u8
    ||| c == 40u8
    ||| c == 41u8
    ||| c == 43u8
    ||| c == 45u8
    ||| c == 47u8
    ||| c == 42u8
    ||| c == 61u8
    ||| c == 126u8
    ||| c == 37u8
    ||| c == 60u8
    ||| c == 62u8
    ||| c == 91u8
    ||| c == 93u8
    ||| c == 59u8
}

pub fn is_separator(c: u8) -> (r: bool)
    ensures
        r == spec_is_separator(c),
{
    c == 32 || c == 0 || c == 44 || c == 46 || c == 40 || c == 41 || c == 43 || c == 45
        || c == 47 || c == 42 || c == 61 || c == 126 || c == 37 || c == 60 || c == 62 || c == 91
        || c == 93 || c == 59
}

pub open spec fn spec_is_separator_or_none(c: Option<u8>) -> bool {
    match c {
        Some(ch) => spec_is_separator(ch),
        None => true,
    }
}

pub fn is_separator_or_none(c: Option<u8>) -> (r: bool)
    ensures
        r == spec_is_separator_or_none(c),
{
    match c {
        Some(ch) => is_separator(ch),
        None => true,
    }
}

/// One keyword of the rules table, with the class its characters are tagged with.
pub struct Keyword {
    pub text: Vec<u8>,
    pub class: Highlight,
}

impl Keyword {
    /// A keyword is non-empty and tagged with one of the two keyword classes.
    pub open spec fn wf(&self) -> bool {
        &&& self.text@.len() >= 1
        &&& (self.class == Highlight::Keyword1 || self.class == Highlight::Keyword2)
    }
}

/// Immutable per-file-type highlighting rules, selected once per file name.
pub struct Syntax {
    pub file_type: Vec<u8>,
    pub file_match: Vec<Vec<u8>>,
    pub single_line_comment_start: Vec<u8>,
    pub flags: u32,
    pub in_string: Option<u8>,
    pub keywords: Vec<Keyword>,
}

pub open spec fn numbers_on(syn: Syntax) -> bool {
    syn.flags & HIGHLIGHT_NUMBERS != 0
}

pub open spec fn strings_on(syn: Syntax) -> bool {
    syn.flags & HIGHLIGHT_STRINGS != 0
}

pub open spec fn single_quote_on(syn: Syntax) -> bool {
    syn.flags & ALLOW_SINGLE_QUOTE != 0
}

impl Syntax {
    pub open spec fn wf(&self) -> bool {
        forall|i: int| 0 <= i < self.keywords@.len() ==> (#[trigger] self.keywords@[i]).wf()
    }

    /// The empty rule set: nothing is highlighted.
    pub fn new() -> (r: Syntax)
        ensures
            r.file_type@ == Seq::<u8>::empty(),
            r.file_match@.len() == 0,
            r.single_line_comment_start@ == Seq::<u8>::empty(),
            r.flags == 0,
            r.in_string is None,
            r.keywords@.len() == 0,
            r.wf(),
    {
        Syntax {
            file_type: Vec::new(),
            file_match: Vec::new(),
            single_line_comment_start: Vec::new(),
            flags: 0,
            in_string: None,
            keywords: Vec::new(),
        }
    }

    pub fn get_flags(&self) -> (r: u32)
        ensures
            r == self.flags,
    {
        self.flags
    }

    pub fn get_slcs(&self) -> (r: &Vec<u8>)
        ensures
            r == &self.single_line_comment_start,
    {
        &self.single_line_comment_start
    }

    pub fn slcs_len(&self) -> (r: usize)
        ensures
            r == self.single_line_comment_start@.len(),
    {
        self.single_line_comment_start.len()
    }

    pub fn in_string(&self) -> (r: Option<u8>)
        ensures
            r == self.in_string,
    {
        self.in_string
    }

    pub fn set_in_string(&mut self, c: Option<u8>)
        ensures
            final(self).in_string == c,
            final(self).file_type == old(self).file_type,
            final(self).file_match == old(self).file_match,
            final(self).single_line_comment_start == old(self).single_line_comment_start,
            final(self).flags == old(self).flags,
            final(self).keywords == old(self).keywords,
    {
        self.in_string = c;
    }

    pub fn get_keywords(&self) -> (r: &Vec<Keyword>)
        ensures
            r == &self.keywords,
    {
        &self.keywords
    }

    /// The file-match patterns of the C-like rules: the extensions that
    /// select them.
    pub fn c_hldb_extensions() -> (r: Vec<Vec<u8>>)
        ensures
            r@.len() == 3,
            r@[0]@ == seq![46u8, 99u8],
            r@[1]@ == seq![46u8, 104u8],
            r@[2]@ == seq![46u8, 99u8, 112u8, 112u8],
    {
        let mut r: Vec<Vec<u8>> = Vec::new();
        r.push(bytes_of([46u8, 99u8]));
        r.push(bytes_of([46u8, 104u8]));
        r.push(bytes_of([46u8, 99u8, 112u8, 112u8]));
        r
    }

    /// The rules database: one entry, the built-in C-like rules.
    pub fn hldb() -> (r: Vec<Syntax>)
        ensures
            r@.len() == 1,
            syntax_is_c(r@[0]),
    {
        let mut keywords: Vec<Keyword> = Vec::new();
        keywords.push(Keyword { text: bytes_of([115u8, 119u8, 105u8, 116u8, 99u8, 104u8]), class: Highlight::Keyword1 });
        keywords.push(Keyword { text: bytes_of([105u8, 102u8]), class: Highlight::Keyword1 });
        keywords.push(Keyword { text: bytes_of([119u8, 104u8, 105u8, 108u8, 101u8]), class: Highlight::Keyword1 });
        keywords.push(Keyword { text: bytes_of([102u8, 111u8, 114u8]), class: Highlight::Keyword1 });
        keywords.push(Keyword { text: bytes_of([98u8, 114u8, 101u8, 97u8, 107u8]), class: Highlight::Keyword1 });
        keywords.push(Keyword { text: bytes_of([99u8, 111u8, 110u8, 116u8, 105u8, 110u8, 117u8, 101u8]), class: Highlight::Keyword1 });
        keywords.push(Keyword { text: bytes_of([114u8, 101u8, 116u8, 117u8, 114u8, 110u8]), class: Highlight::Keyword1 });
        keywords.push(Keyword { text: bytes_of([101u8, 108u8, 115u8, 101u8]), class: Highlight::Keyword1 });
        keywords.push(Keyword { text: bytes_of([115u8, 116u8, 114u8, 117u8, 99u8, 116u8]), class: Highlight::Keyword1 });
        keywords.push(Keyword { text: bytes_of([117u8, 110u8, 105u8, 111u8, 110u8]), class: Highlight::Keyword1 });
        keywords.push(Keyword { text: bytes_of([116u8, 121u8, 112u8, 101u8, 100u8, 101u8, 102u8]), class: Highlight::Keyword1 });
        keywords.push(Keyword { text: bytes_of([115u8, 116u8, 97u8, 116u8, 105u8, 99u8]), class: Highlight::Keyword1 });
        keywords.push(Keyword { text: bytes_of([101u8, 110u8, 117u8, 109u8]), class: Highlight::Keyword1 });
        keywords.push(Keyword { text: bytes_of([99u8, 108u8, 97u8, 115u8, 115u8]), class: Highlight::Keyword1 });
        keywords.push(Keyword { text: bytes_of([99u8, 97u8, 115u8, 101u8]), class: Highlight::Keyword1 });
        keywords.push(Keyword { text: bytes_of([105u8, 110u8, 116u8]), class: Highlight::Keyword2 });
        keywords.push(Keyword { text: bytes_of([108u8, 111u8, 110u8, 103u8]), class: Highlight::Keyword2 });
        keywords.push(Keyword { text: bytes_of([100u8, 111u8, 117u8, 98u8, 108u8, 101u8]), class: Highlight::Keyword2 });
        keywords.push(Keyword { text: bytes_of([102u8, 108u8, 111u8, 97u8, 116u8]), class: Highlight::Keyword2 });
        keywords.push(Keyword { text: bytes_of([99u8, 104u8, 97u8, 114u8]), class: Highlight::Keyword2 });
        keywords.push(Keyword { text: bytes_of([117u8, 110u8, 115u8, 105u8, 103u8, 110u8, 101u8, 100u8]), class: Highlight::Keyword2 });
        keywords.push(Keyword { text: bytes_of([115u8, 105u8, 103u8, 110u8, 101u8, 100u8]), class: Highlight::Keyword2 });
        keywords.push(Keyword { text: bytes_of([118u8, 111u8, 105u8, 100u8]), class: Highlight::Keyword2 });
        let entry = Syntax {
            file_type: bytes_of([99u8]),
            file_match: Syntax::c_hldb_extensions(),
            single_line_comment_start: bytes_of([47u8, 47u8]),
            flags: HIGHLIGHT_NUMBERS | HIGHLIGHT_STRINGS | ALLOW_SINGLE_QUOTE,
            in_string: None,
            keywords,
        };
        proof {
            assert(entry.file_type@ =~= seq![99u8]);
            assert(entry.file_match@[0]@ =~= seq![46u8, 99u8]);
            assert(entry.file_match@[1]@ =~= seq![46u8, 104u8]);
            assert(entry.file_match@[2]@ =~= seq![46u8, 99u8, 112u8, 112u8]);
            assert(entry.single_line_comment_start@ =~= seq![47u8, 47u8]);
            assert(entry.keywords@[0].text@ =~= c_keywords_spec()[0].0);
            assert(entry.keywords@[1].text@ =~= c_keywords_spec()[1].0);
            assert(entry.keywords@[2].text@ =~= c_keywords_spec()[2].0);
            assert(entry.keywords@[3].text@ =~= c_keywords_spec()[3].0);
            assert(entry.keywords@[4].text@ =~= c_keywords_spec()[4].0);
            assert(entry.keywords@[5].text@ =~= c_keywords_spec()[5].0);
            assert(entry.keywords@[6].text@ =~= c_keywords_spec()[6].0);
            assert(entry.keywords@[7].text@ =~= c_keywords_spec()[7].0);
            assert(entry.keywords@[8].text@ =~= c_keywords_spec()[8].0);
            assert(entry.keywords@[9].text@ =~= c_keywords_spec()[9].0);
            assert(entry.keywords@[10].text@ =~= c_keywords_spec()[10].0);
            assert(entry.keywords@[11].text@ =~= c_keywords_spec()[11].0);
            assert(entry.keywords@[12].text@ =~= c_keywords_spec()[12].0);
            assert(entry.keywords@[13].text@ =~= c_keywords_spec()[13].0);
            assert(entry.keywords@[14].text@ =~= c_keywords_spec()[14].0);
            assert(entry.keywords@[15].text@ =~= c_keywords_spec()[15].0);
            assert(entry.keywords@[16].text@ =~= c_keywords_spec()[16].0);
            assert(entry.keywords@[17].text@ =~= c_keywords_spec()[17].0);
            assert(entry.keywords@[18].text@ =~= c_keywords_spec()[18].0);
            assert(entry.keywords@[19].text@ =~= c_keywords_spec()[19].0);
            assert(entry.keywords@[20].text@ =~= c_keywords_spec()[20].0);
            assert(entry.keywords@[21].text@ =~= c_keywords_spec()[21].0);
            assert(entry.keywords@[22].text@ =~= c_keywords_spec()[22].0);
            assert forall|k: int| 0 <= k < c_keywords_spec().len() implies (
            #[trigger] entry.keywords@[k]).text@ == c_keywords_spec()[k].0
                && entry.keywords@[k].class == c_keywords_spec()[k].1 by {
                assert(0 <= k < 23);
            }
            assert(entry.wf());
            assert(syntax_is_c(entry));
        }
        let mut r: Vec<Syntax> = Vec::new();
        r.push(entry);
        r
    }
}

/// The texts and classes of the C-like keyword table, in table order.
pub open spec fn c_keywords_spec() -> Seq<(Seq<u8>, Highlight)> {
    seq![
        (seq![115u8, 119u8, 105u8, 116u8, 99u8, 104u8], Highlight::Keyword1),
        (seq![105u8, 102u8], Highlight::Keyword1),
        (seq![119u8, 104u8, 105u8, 108u8, 101u8], Highlight::Keyword1),
        (seq![102u8, 111u8, 114u8], Highlight::Keyword1),
        (seq![98u8, 114u8, 101u8, 97u8, 107u8], Highlight::Keyword1),
        (seq![99u8, 111u8, 110u8, 116u8, 105u8, 110u8, 117u8, 101u8], Highlight::Keyword1),
        (seq![114u8, 101u8, 116u8, 117u8, 114u8, 110u8], Highlight::Keyword1),
        (seq![101u8, 108u8, 115u8, 101u8], Highlight::Keyword1),
        (seq![115u8, 116u8, 114u8, 117u8, 99u8, 116u8], Highlight::Keyword1),
        (seq![117u8, 110u8, 105u8, 111u8, 110u8], Highlight::Keyword1),
        (seq![116u8, 121u8, 112u8, 101u8, 100u8, 101u8, 102u8], Highlight::Keyword1),
        (seq![115u8, 116u8, 97u8, 116u8, 105u8, 99u8], Highlight::Keyword1),
        (seq![101u8, 110u8, 117u8, 109u8], Highlight::Keyword1),
        (seq![99u8, 108u8, 97u8, 115u8, 115u8], Highlight::Keyword1),
        (seq![99u8, 97u8, 115u8, 101u8], Highlight::Keyword1),
        (seq![105u8, 110u8, 116u8], Highlight::Keyword2),
        (seq![108u8, 111u8, 110u8, 103u8], Highlight::Keyword2),
        (seq![100u8, 111u8, 117u8, 98u8, 108u8, 101u8], Highlight::Keyword2),
        (seq![102u8, 108u8, 111u8, 97u8, 116u8], Highlight::Keyword2),
        (seq![99u8, 104u8, 97u8, 114u8], Highlight::Keyword2),
        (seq![117u8, 110u8, 115u8, 105u8, 103u8, 110u8, 101u8, 100u8], Highlight::Keyword2),
        (seq![115u8, 105u8, 103u8, 110u8, 101u8, 100u8], Highlight::Keyword2),
        (seq![118u8, 111u8, 105u8, 100u8], Highlight::Keyword2),
    ]
}

/// `s` is exactly the built-in C-like rule set.
pub open spec fn syntax_is_c(s: Syntax) -> bool {
    &&& s.file_type@ == seq![99u8]
    &&& s.file_match@.len() == 3
    &&& s.file_match@[0]@ == seq![46u8, 99u8]
    &&& s.file_match@[1]@ == seq![46u8, 104u8]
    &&& s.file_match@[2]@ == seq![46u8, 99u8, 112u8, 112u8]
    &&& s.single_line_comment_start@ == seq![47u8, 47u8]
    &&& s.flags == (HIGHLIGHT_NUMBERS | HIGHLIGHT_STRINGS | ALLOW_SINGLE_QUOTE)
    &&& s.in_string is None
    &&& s.keywords@.len() == c_keywords_spec().len()
    &&& forall|k: int|
        0 <= k < c_keywords_spec().len() ==> (#[trigger] s.keywords@[k]).text@
            == c_keywords_spec()[k].0 && s.keywords@[k].class == c_keywords_spec()[k].1
    &&& s.wf()
}

/// A vector holding the bytes of a fixed array; the building block for
/// fixed texts such as keywords and labels.
pub fn bytes_of<const N: usize>(a: [u8; N]) -> (r: Vec<u8>)
    ensures
        r@ == a@,
{
    let mut r: Vec<u8> = Vec::new();
    let mut i: usize = 0;
    while i < N
        invariant
            i <= N,
            a@.len() == N,
            r@ == a@.take(i as int),
        decreases N - i,
    {
        let c = a[i];
        r.push(c);
        proof {
            assert(a@.take(i + 1) =~= a@.take(i as int).push(a@[i as int]));
        }
        i = i + 1;
    }
    proof {
        assert(a@.take(N as int) =~= a@);
    }
    r
}

/// The comment marker occurs (whole) at position `i` of the rendered text.
pub open spec fn comment_at(r: Seq<u8>, slcs: Seq<u8>, i: int) -> bool {
    &&& slcs.len() > 0
    &&& 0 <= i
    &&& i + slcs.len() <= r.len()
    &&& r.subrange(i, i + slcs.len()) == slcs
}

/// The keyword occurs (whole) at position `i` and is followed by a separator
/// or the end of the row.
pub open spec fn kw_match_at(r: Seq<u8>, kw: Keyword, i: int) -> bool {
    &&& kw.text@.len() >= 1
    &&& 0 <= i
    &&& i + kw.text@.len() <= r.len()
    &&& r.subrange(i, i + kw.text@.len()) == kw.text@
    &&& (i + kw.text@.len() == r.len() || spec_is_separator(r[i + kw.text@.len()]))
}

/// The first keyword of the table (in table order) that matches at `i`.
pub open spec fn first_kw(r: Seq<u8>, kws: Seq<Keyword>, i: int) -> Option<Keyword>
    decreases kws.len(),
{
    if kws.len() == 0 {
        None
    } else if kw_match_at(r, kws[0], i) {
        Some(kws[0])
    } else {
        first_kw(r, kws.drop_first(), i)
    }
}

pub proof fn lemma_first_kw_match(r: Seq<u8>, kws: Seq<Keyword>, i: int)
    ensures
        first_kw(r, kws, i) matches Some(kw) ==> kw_match_at(r, kw, i),
    decreases kws.len(),
{
    if kws.len() > 0 && !kw_match_at(r, kws[0], i) {
        lemma_first_kw_match(r, kws.drop_first(), i);
    }
}

/// The digits as bytes.
pub open spec fn spec_is_digit(c: u8) -> bool {
    48 <= c <= 57
}

/// The highlight tags of `r[i..]`, scanning left to right and carrying the
/// scanner state: whether the previous character was a separator, the open
/// string quote if any, and the previous character's tag.
///
/// The rules, in order of precedence at each position:
/// comment marker outside a string tags the rest of the row `Comment`;
/// inside a string every character is `Str`, a backslash also covers the
/// following character, and the opening quote closes the string;
/// a quote opens a string; a digit after a separator or a `Number`, or a
/// decimal point continuing a `Number`, is `Number`; after a separator a
/// keyword followed by a separator or end-of-row is tagged with its class;
/// everything else is `Normal`.
pub open spec fn hl_from(
    r: Seq<u8>,
    syn: Syntax,
    i: int,
    prev_sep: bool,
    in_str: Option<u8>,
    prev: Highlight,
) -> Seq<Highlight>
    decreases r.len() - i,
    via hl_from_dec
{
    if i < 0 || i >= r.len() {
        Seq::empty()
    } else {
        let c = r[i];
        if in_str is None && comment_at(r, syn.single_line_comment_start@, i) {
            Seq::new((r.len() - i) as nat, |j: int| Highlight::Comment)
        } else if strings_on(syn) && in_str is Some {
            let q = in_str->0;
            if c == 92 && i + 1 < r.len() {
                seq![Highlight::Str, Highlight::Str] + hl_from(
                    r,
                    syn,
                    i + 2,
                    prev_sep,
                    in_str,
                    Highlight::Str,
                )
            } else {
                let ns = if c == q {
                    None
                } else {
                    in_str
                };
                seq![Highlight::Str] + hl_from(r, syn, i + 1, true, ns, Highlight::Str)
            }
        } else if strings_on(syn) && (c == 34 || (single_quote_on(syn) && c == 39)) {
            seq![Highlight::Str] + hl_from(r, syn, i + 1, prev_sep, Some(c), Highlight::Str)
        } else if numbers_on(syn) && ((spec_is_digit(c) && (prev_sep || prev == Highlight::Number))
            || (c == 46 && prev == Highlight::Number)) {
            seq![Highlight::Number] + hl_from(r, syn, i + 1, prev_sep, in_str, Highlight::Number)
        } else {
            match (if prev_sep {
                first_kw(r, syn.keywords@, i)
            } else {
                None
            }) {
                Some(kw) => Seq::new(kw.text@.len(), |j: int| kw.class) + hl_from(
                    r,
                    syn,
                    i + kw.text@.len() as int,
                    false,
                    in_str,
                    kw.class,
                ),
                None => seq![Highlight::Normal] + hl_from(
                    r,
                    syn,
                    i + 1,
                    spec_is_separator(c),
                    in_str,
                    Highlight::Normal,
                ),
            }
        }
    }
}

#[via_fn]
proof fn hl_from_dec(
    r: Seq<u8>,
    syn: Syntax,
    i: int,
    prev_sep: bool,
    in_str: Option<u8>,
    prev: Highlight,
) {
    if 0 <= i < r.len() {
        lemma_first_kw_match(r, syn.keywords@, i);
    }
}

/// The highlight tags of a whole rendered row: the scan starts in separator
/// context, outside any string.
pub open spec fn highlight_spec(r: Seq<u8>, syn: Syntax) -> Seq<Highlight> {
    hl_from(r, syn, 0, true, None, Highlight::Normal)
}

/// One tag is produced for every rendered character.
pub proof fn lemma_hl_from_len(
    r: Seq<u8>,
    syn: Syntax,
    i: int,
    prev_sep: bool,
    in_str: Option<u8>,
    prev: Highlight,
)
    requires
        0 <= i <= r.len(),
    ensures
        hl_from(r, syn, i, prev_sep, in_str, prev).len() == r.len() - i,
    decreases r.len() - i,
{
    if i < r.len() {
        let c = r[i];
        if in_str is None && comment_at(r, syn.single_line_comment_start@, i) {
        } else if strings_on(syn) && in_str is Some {
            let q = in_str->0;
            if c == 92 && i + 1 < r.len() {
                lemma_hl_from_len(r, syn, i + 2, prev_sep, in_str, Highlight::Str);
            } else {
                let ns = if c == q {
                    None
                } else {
                    in_str
                };
                lemma_hl_from_len(r, syn, i + 1, true, ns, Highlight::Str);
            }
        } else if strings_on(syn) && (c == 34 || (single_quote_on(syn) && c == 39)) {
            lemma_hl_from_len(r, syn, i + 1, prev_sep, Some(c), Highlight::Str);
        } else if numbers_on(syn) && ((spec_is_digit(c) && (prev_sep || prev == Highlight::Number))
            || (c == 46 && prev == Highlight::Number)) {
            lemma_hl_from_len(r, syn, i + 1, prev_sep, in_str, Highlight::Number);
        } else {
            lemma_first_kw_match(r, syn.keywords@, i);
            match (if prev_sep {
                first_kw(r, syn.keywords@, i)
            } else {
                None
            }) {
                Some(kw) => {
                    lemma_hl_from_len(r, syn, i + kw.text@.len() as int, false, in_str, kw.class);
                },
                None => {
                    lemma_hl_from_len(
                        r,
                        syn,
                        i + 1,
                        spec_is_separator(c),
                        in_str,
                        Highlight::Normal,
                    );
                },
            }
        }
    }
}

/// `highlight_spec` produces exactly one tag per rendered character.
pub proof fn lemma_highlight_spec_len(r: Seq<u8>, syn: Syntax)
    ensures
        highlight_spec(r, syn).len() == r.len(),
{
    lemma_hl_from_len(r, syn, 0, true, None, Highlight::Normal);
}

} // verus!
