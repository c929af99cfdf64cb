//! The on-disk form of a document, the inverse split into rows, the lock
//! path naming convention, and the atomic save protocol.

use vstd::prelude::*;

use crate::row::Row;
use crate::row::copy_range;

verus! {

/// The serialized document: each row's raw text followed by one line
/// break, no carriage-return translation.
pub open spec fn serialize_spec(texts: Seq<Seq<u8>>) -> Seq<u8>
    decreases texts.len(),
{
    if texts.len() == 0 {
        Seq::empty()
    } else {
        (texts[0] + seq![10u8]) + serialize_spec(texts.drop_first())
    }
}

proof fn lemma_serialize_snoc(texts: Seq<Seq<u8>>, t: Seq<u8>)
    ensures
        serialize_spec(texts.push(t)) == serialize_spec(texts) + t + seq![10u8],
    decreases texts.len(),
{
    if texts.len() == 0 {
        assert(texts.push(t)[0] == t);
        assert(texts.push(t).drop_first() =~= Seq::<Seq<u8>>::empty());
        assert(serialize_spec(Seq::<Seq<u8>>::empty()) == Seq::<u8>::empty());
        assert(serialize_spec(texts.push(t)) == (t + seq![10u8]) + Seq::<u8>::empty());
        assert((t + seq![10u8]) + Seq::<u8>::empty() =~= serialize_spec(texts) + t + seq![10u8]);
    } else {
        assert(texts.push(t).drop_first() =~= texts.drop_first().push(t));
        lemma_serialize_snoc(texts.drop_first(), t);
        assert(texts.push(t)[0] == texts[0]);
        assert(serialize_spec(texts.push(t)) == (texts[0] + seq![10u8]) + serialize_spec(
            texts.drop_first().push(t),
        ));
        assert((texts[0] + seq![10u8]) + (serialize_spec(texts.drop_first()) + t + seq![10u8])
            =~= serialize_spec(texts) + t + seq![10u8]);
    }
}

/// The raw texts of a document's rows.
pub open spec fn texts_of(rows: Seq<Row>) -> Seq<Seq<u8>> {
    rows.map_values(|r: Row| r.text@)
}

/// Serialize the whole document.
pub fn rows_to_string(rows: &Vec<Row>) -> (r: Vec<u8>)
    ensures
        r@ == serialize_spec(texts_of(rows@)),
{
    let n = rows.len();
    let mut out: Vec<u8> = Vec::new();
    let mut i: usize = 0;
    proof {
        assert(texts_of(rows@.take(0)) =~= Seq::<Seq<u8>>::empty());
    }
    while i < n
        invariant
            i <= n,
            n == rows@.len(),
            out@ == serialize_spec(texts_of(rows@.take(i as int))),
        decreases n - i,
    {
        let text = &rows[i].text;
        let m = text.len();
        let ghost pre = out@;
        let mut j: usize = 0;
        while j < m
            invariant
                j <= m,
                m == rows@[i as int].text@.len(),
                i < n == rows@.len(),
                out@ == pre + rows@[i as int].text@.take(j as int),
            decreases m - j,
        {
            out.push(rows[i].text[j]);
            proof {
                assert(pre + rows@[i as int].text@.take(j + 1) =~= (pre + rows@[
                    i as int
                ].text@.take(j as int)).push(rows@[i as int].text@[j as int]));
            }
            j = j + 1;
        }
        out.push(10);
        proof {
            assert(rows@[i as int].text@.take(m as int) =~= rows@[i as int].text@);
            assert(texts_of(rows@.take(i + 1)) =~= texts_of(rows@.take(i as int)).push(
                rows@[i as int].text@,
            ));
            lemma_serialize_snoc(texts_of(rows@.take(i as int)), rows@[i as int].text@);
            assert(out@ =~= serialize_spec(texts_of(rows@.take(i as int))) + rows@[
                i as int
            ].text@ + seq![10u8]);
        }
        i = i + 1;
    }
    proof {
        assert(rows@.take(n as int) =~= rows@);
    }
    out
}

/// The sequence contains no line break.
pub open spec fn no_nl(t: Seq<u8>) -> bool {
    forall|j: int| 0 <= j < t.len() ==> t[j] != 10u8
}

/// The sequence contains a line break.
pub open spec fn has_nl(s: Seq<u8>) -> bool {
    exists|i: int| 0 <= i < s.len() && s[i] == 10u8
}

/// The position of the first line break; meaningful when `has_nl(s)`.
pub open spec fn first_nl(s: Seq<u8>) -> int
    decreases s.len(),
{
    if s.len() == 0 {
        0
    } else if s[0] == 10u8 {
        0
    } else {
        1 + first_nl(s.drop_first())
    }
}

proof fn lemma_first_nl(s: Seq<u8>)
    requires
        has_nl(s),
    ensures
        0 <= first_nl(s) < s.len(),
        s[first_nl(s)] == 10u8,
        forall|j: int| 0 <= j < first_nl(s) ==> s[j] != 10u8,
    decreases s.len(),
{
    if s.len() > 0 && s[0] != 10u8 {
        let i = choose|i: int| 0 <= i < s.len() && s[i] == 10u8;
        assert(s.drop_first()[i - 1] == 10u8);
        lemma_first_nl(s.drop_first());
        assert(s[first_nl(s)] == s.drop_first()[first_nl(s) - 1]);
        assert forall|j: int| 0 <= j < first_nl(s) implies s[j] != 10u8 by {
            if j >= 1 {
                assert(s[j] == s.drop_first()[j - 1]);
                assert(j - 1 < first_nl(s.drop_first()));
            }
        }
    }
}

/// The lines of a byte sequence: maximal break-free runs; a trailing run
/// without a final line break counts only when non-empty.
pub open spec fn split_lines_spec(s: Seq<u8>) -> Seq<Seq<u8>>
    decreases s.len(),
    via split_lines_dec
{
    if s.len() == 0 {
        Seq::empty()
    } else if !has_nl(s) {
        seq![s]
    } else {
        seq![s.take(first_nl(s))] + split_lines_spec(s.skip(first_nl(s) + 1))
    }
}

#[via_fn]
proof fn split_lines_dec(s: Seq<u8>) {
    if s.len() > 0 && has_nl(s) {
        lemma_first_nl(s);
    }
}

/// Splitting at the first break: a break-free head line is recovered
/// exactly.
proof fn lemma_split_head(a: Seq<u8>, b: Seq<u8>)
    requires
        no_nl(a),
    ensures
        split_lines_spec(a + seq![10u8] + b) == seq![a] + split_lines_spec(b),
{
    let s = a + seq![10u8] + b;
    assert(s[a.len() as int] == 10u8);
    assert(has_nl(s));
    lemma_first_nl(s);
    assert(forall|j: int| 0 <= j < a.len() ==> #[trigger] s[j] == a[j] && s[j] != 10u8);
    let f = first_nl(s);
    assert(f <= a.len()) by {
        if f > a.len() {
            assert(s[a.len() as int] == 10u8);
        }
    }
    assert(f >= a.len()) by {
        if f < a.len() {
            assert(s[f] != 10u8);
        }
    }
    assert(s.take(a.len() as int) =~= a);
    assert(s.skip(a.len() as int + 1) =~= b);
}

/// Saving and reopening recovers every row exactly: splitting the
/// serialized document yields the rows' raw texts, provided no row text
/// contains a line break.
pub proof fn lemma_save_round_trip(texts: Seq<Seq<u8>>)
    requires
        forall|i: int| 0 <= i < texts.len() ==> no_nl(#[trigger] texts[i]),
    ensures
        split_lines_spec(serialize_spec(texts)) == texts,
    decreases texts.len(),
{
    if texts.len() == 0 {
    } else {
        let rest = serialize_spec(texts.drop_first());
        assert(serialize_spec(texts) =~= texts[0] + seq![10u8] + rest);
        lemma_split_head(texts[0], rest);
        lemma_save_round_trip(texts.drop_first());
        assert(seq![texts[0]] + texts.drop_first() =~= texts);
    }
}

/// Split a file's bytes into its lines.
pub fn split_lines(bytes: &Vec<u8>) -> (r: Vec<Vec<u8>>)
    ensures
        r@.map_values(|v: Vec<u8>| v@) == split_lines_spec(bytes@),
        forall|k: int| 0 <= k < r@.len() ==> (#[trigger] r@[k])@.len() <= bytes@.len(),
        r@.len() <= bytes@.len(),
{
    let n = bytes.len();
    let mut acc: Vec<Vec<u8>> = Vec::new();
    let mut st: usize = 0;
    let mut i: usize = 0;
    proof {
        assert(bytes@.skip(0) =~= bytes@);
    }
    while i < n
        invariant
            st <= i <= n,
            n == bytes@.len(),
            split_lines_spec(bytes@) == acc@.map_values(|v: Vec<u8>| v@) + split_lines_spec(
                bytes@.skip(st as int),
            ),
            forall|j: int| st <= j < i ==> bytes@[j] != 10u8,
            forall|k: int| 0 <= k < acc@.len() ==> (#[trigger] acc@[k])@.len() <= bytes@.len(),
            acc@.len() <= st,
        decreases n - i,
    {
        if bytes[i] == 10 {
            let line = copy_range(bytes, st, i);
            proof {
                let tail = bytes@.skip(st as int);
                assert(tail =~= line@ + seq![10u8] + bytes@.skip(i + 1));
                assert(no_nl(line@));
                lemma_split_head(line@, bytes@.skip(i + 1));
            }
            let ghost accv = acc@;
            acc.push(line);
            proof {
                assert(acc@.map_values(|v: Vec<u8>| v@) =~= accv.map_values(|v: Vec<u8>| v@)
                    + seq![line@]);
                assert(accv.map_values(|v: Vec<u8>| v@) + (seq![line@] + split_lines_spec(
                    bytes@.skip(i + 1),
                )) =~= acc@.map_values(|v: Vec<u8>| v@) + split_lines_spec(bytes@.skip(i + 1)));
            }
            st = i + 1;
        }
        i = i + 1;
    }
    if st < n {
        let line = copy_range(bytes, st, n);
        proof {
            let tail = bytes@.skip(st as int);
            assert(tail =~= line@);
            assert(tail.len() > 0);
            assert(!has_nl(tail));
            assert(split_lines_spec(tail) =~= seq![tail]);
        }
        let ghost accv = acc@;
        acc.push(line);
        proof {
            assert(acc@.map_values(|v: Vec<u8>| v@) =~= accv.map_values(|v: Vec<u8>| v@)
                + seq![line@]);
        }
    } else {
        proof {
            assert(bytes@.skip(st as int).len() == 0);
        }
    }
    proof {
        assert(acc@.map_values(|v: Vec<u8>| v@) =~= split_lines_spec(bytes@));
    }
    acc
}

/// A dot at position `j` marks a file-name extension: it is not the first
/// character of the path's final component, and no directory separator
/// follows it.
pub open spec fn ext_dot_at(name: Seq<u8>, j: int) -> bool {
    &&& 1 <= j < name.len()
    &&& name[j] == 46u8
    &&& name[j - 1] != 47u8
    &&& forall|k: int| j < k < name.len() ==> name[k] != 47u8
}

pub open spec fn has_extension(name: Seq<u8>) -> bool {
    exists|j: int| ext_dot_at(name, j)
}

/// The bytes of ".lock".
pub open spec fn lock_suffix() -> Seq<u8> {
    seq![46u8, 108u8, 111u8, 99u8, 107u8]
}

/// The lock path beside a target path: substituting the extension with
/// "<ext>.lock" appends ".lock"; a name without an extension gains an
/// empty extension first.
pub open spec fn lock_path_spec(name: Seq<u8>) -> Seq<u8> {
    if has_extension(name) {
        name + lock_suffix()
    } else {
        name + seq![46u8] + lock_suffix()
    }
}

/// The lock path never names the target itself: writing or removing the
/// lock file can therefore never touch the target file.
pub proof fn lemma_lock_path_differs(name: Seq<u8>)
    ensures
        lock_path_spec(name) != name,
        lock_path_spec(name).len() > name.len(),
{
}

/// Whether the path's final component carries an extension.
pub fn has_ext(name: &Vec<u8>) -> (r: bool)
    ensures
        r == has_extension(name@),
{
    let n = name.len();
    let mut k: usize = n;
    while k > 0
        invariant
            k <= n,
            n == name@.len(),
            forall|m: int| k <= m < n ==> name@[m] != 46u8 && name@[m] != 47u8,
        decreases k,
    {
        let c = name[k - 1];
        if c == 47 {
            proof {
                assert forall|j: int| !ext_dot_at(name@, j) by {
                    if 1 <= j < n && name@[j] == 46u8 {
                        assert(j < k - 1);
                        assert(name@[k - 1] == 47u8);
                    }
                }
            }
            return false;
        }
        if c == 46 {
            if k >= 2 && name[k - 2] != 47 {
                proof {
                    assert(ext_dot_at(name@, k - 1));
                }
                return true;
            } else {
                proof {
                    assert forall|j: int| !ext_dot_at(name@, j) by {
                        if 1 <= j < n && name@[j] == 46u8 {
                            assert(j <= k - 1);
                            if j == k - 1 {
                            } else {
                                assert(j < k - 1);
                                if k >= 2 {
                                    assert(name@[k - 2] == 47u8);
                                    assert(j <= k - 2);
                                    if j == k - 2 {
                                        assert(name@[j] == 47u8);
                                    } else {
                                        assert(j < k - 2 < n);
                                    }
                                }
                            }
                        }
                    }
                }
                return false;
            }
        }
        k = k - 1;
    }
    proof {
        assert forall|j: int| !ext_dot_at(name@, j) by {
            if 1 <= j < n {
                assert(name@[j] != 46u8);
            }
        }
    }
    false
}

/// The lock path beside a target path.
pub fn lock_path(name: &Vec<u8>) -> (r: Vec<u8>)
    ensures
        r@ == lock_path_spec(name@),
{
    let mut r = copy_range(name, 0, name.len());
    proof {
        assert(r@ =~= name@);
    }
    if !has_ext(name) {
        r.push(46);
    }
    let ghost base = r@;
    r.push(46);
    r.push(108);
    r.push(111);
    r.push(99);
    r.push(107);
    proof {
        assert(r@ =~= base + lock_suffix());
        if has_extension(name@) {
            assert(r@ =~= lock_path_spec(name@));
        } else {
            assert(base =~= name@ + seq![46u8]);
            assert(name@ + seq![46u8] + lock_suffix() =~= (name@ + seq![46u8]) + lock_suffix());
            assert(r@ =~= lock_path_spec(name@));
        }
    }
    r
}

/// The stage the atomic save protocol is in: writing the whole serialized
/// document to the lock file, renaming the lock file onto the target,
/// removing the lock file, or finished.
#[derive(Clone, Copy, PartialEq, Eq, Structural, Debug)]
pub enum SaveStage {
    WriteLock,
    Rename,
    Cleanup,
    Done,
}

/// The atomic save protocol. The surrounding binary performs one
/// file-system action per stage — create-and-write `lock` with `content`,
/// rename `lock` onto `target`, remove `lock` — and reports each outcome
/// through `advance`. The target path is only ever the destination of the
/// rename; a failure before the rename leaves it untouched.
pub struct SaveProtocol {
    pub target: Vec<u8>,
    pub lock: Vec<u8>,
    pub content: Vec<u8>,
    pub stage: SaveStage,
    pub succeeded: bool,
}

impl SaveProtocol {
    /// The lock path is derived from the target and never equals it.
    pub open spec fn wf(&self) -> bool {
        &&& self.lock@ == lock_path_spec(self.target@)
        &&& self.lock@ != self.target@
    }

    /// Open the protocol for one save of the document.
    pub fn begin(file_name: &Vec<u8>, rows: &Vec<Row>) -> (p: SaveProtocol)
        ensures
            p.target@ == file_name@,
            p.lock@ == lock_path_spec(file_name@),
            p.content@ == serialize_spec(texts_of(rows@)),
            p.stage == SaveStage::WriteLock,
            !p.succeeded,
            p.wf(),
    {
        let lock = lock_path(file_name);
        let target = copy_range(file_name, 0, file_name.len());
        proof {
            assert(target@ =~= file_name@);
            lemma_lock_path_differs(file_name@);
        }
        SaveProtocol {
            target,
            lock,
            content: rows_to_string(rows),
            stage: SaveStage::WriteLock,
            succeeded: false,
        }
    }

    /// Step the protocol: `ok` reports whether the file-system action of
    /// the current stage succeeded. A write failure skips the rename and
    /// goes straight to cleanup; only a successful rename marks the save
    /// as succeeded; the cleanup outcome is ignored, as removing an
    /// already-moved lock file fails harmlessly.
    pub fn advance(&mut self, ok: bool)
        requires
            old(self).wf(),
        ensures
            final(self).wf(),
            final(self).target == old(self).target,
            final(self).lock == old(self).lock,
            final(self).content == old(self).content,
            final(self).stage == (match old(self).stage {
                SaveStage::WriteLock => if ok {
                    SaveStage::Rename
                } else {
                    SaveStage::Cleanup
                },
                SaveStage::Rename => SaveStage::Cleanup,
                SaveStage::Cleanup => SaveStage::Done,
                SaveStage::Done => SaveStage::Done,
            }),
            final(self).succeeded == (old(self).succeeded || (old(self).stage
                == SaveStage::Rename && ok)),
    {
        match self.stage {
            SaveStage::WriteLock => {
                if ok {
                    self.stage = SaveStage::Rename;
                } else {
                    self.stage = SaveStage::Cleanup;
                }
            },
            SaveStage::Rename => {
                if ok {
                    self.succeeded = true;
                }
                self.stage = SaveStage::Cleanup;
            },
            SaveStage::Cleanup => {
                self.stage = SaveStage::Done;
            },
            SaveStage::Done => {
            },
        }
    }
}

} // verus!
