//! Checkpoint support for resumable log processing.
//!
//! Tracks the last successfully processed byte offset per file, allowing
//! processing to resume from where it left off. The checkpoint file is a
//! comment line followed by one `path<TAB>offset` line per file; reading and
//! writing it is left to the caller, which hands over or takes the text.

use vstd::prelude::*;
use crate::strmap::{self, StrMap};
use crate::text;
use crate::path_key::{path_key, path_key_of};

verus! {

/// The entries keyed by their files: each path taken by its key, so that
/// two spellings of one path find the same entry.
pub open spec fn keyed(entries: Seq<(Seq<char>, u64)>) -> Seq<(Seq<char>, u64)> {
    entries.map_values(|e: (Seq<char>, u64)| (path_key(e.0), e.1))
}

/// Each file has one entry.
pub open spec fn one_per_file(entries: Seq<(Seq<char>, u64)>) -> bool {
    strmap::unique_keys(keyed(entries))
}

/// The offset recorded for the file `path`, 0 when there is none.
pub open spec fn offset_of(entries: Seq<(Seq<char>, u64)>, path: Seq<char>) -> u64 {
    if strmap::has_key(keyed(entries), path_key(path)) {
        strmap::value_of(keyed(entries), path_key(path))
    } else {
        0
    }
}

/// `entries` after setting the offset of the file `path`: an entry for the
/// file keeps the path it was first set under and takes the new offset; a
/// file without one is appended.
pub open spec fn path_insert(entries: Seq<(Seq<char>, u64)>, path: Seq<char>, offset: u64) -> Seq<
    (Seq<char>, u64),
> {
    if strmap::has_key(keyed(entries), path_key(path)) {
        let i = strmap::key_index(keyed(entries), path_key(path));
        entries.update(i, (entries[i].0, offset))
    } else {
        entries.push((path, offset))
    }
}

/// Setting by path is setting by key.
pub proof fn lemma_keyed_insert(entries: Seq<(Seq<char>, u64)>, path: Seq<char>, offset: u64)
    ensures
        keyed(path_insert(entries, path, offset)) == strmap::pairs_insert(
            keyed(entries),
            path_key(path),
            offset,
        ),
{
    let k = keyed(entries);
    if strmap::has_key(k, path_key(path)) {
        let i = strmap::key_index(k, path_key(path));
        assert(k[i].0 == path_key(entries[i].0));
        assert(keyed(path_insert(entries, path, offset)) =~= k.update(i, (path_key(path), offset)));
    } else {
        assert(keyed(path_insert(entries, path, offset)) =~= k.push((path_key(path), offset)));
    }
}

/// An offset read back after it was set is the one set, under any spelling
/// of the path, and setting the offset of one file leaves the offsets of all
/// other files as they were.
pub proof fn lemma_set_then_read(
    entries: Seq<(Seq<char>, u64)>,
    path: Seq<char>,
    offset: u64,
    other: Seq<char>,
)
    requires
        one_per_file(entries),
    ensures
        one_per_file(path_insert(entries, path, offset)),
        offset_of(path_insert(entries, path, offset), path) == offset,
        path_key(other) == path_key(path) ==> offset_of(path_insert(entries, path, offset), other)
            == offset,
        path_key(other) != path_key(path) ==> offset_of(path_insert(entries, path, offset), other)
            == offset_of(entries, other),
{
    lemma_keyed_insert(entries, path, offset);
    let k = keyed(entries);
    let key = path_key(path);
    let ok = path_key(other);
    strmap::lemma_insert_unique(k, key, offset);
    let after = strmap::pairs_insert(k, key, offset);
    assert(strmap::pairs_map(after).dom().contains(ok) == strmap::has_key(after, ok));
    assert(strmap::pairs_map(k).dom().contains(ok) == strmap::has_key(k, ok));
    assert(strmap::pairs_map(after).dom().contains(key) == strmap::has_key(after, key));
    if ok != key && strmap::has_key(k, ok) {
        assert(strmap::pairs_map(after)[ok] == strmap::pairs_map(k)[ok]);
    }
}

/// The entries after setting the offsets `sets`, in order.
pub open spec fn set_all(entries: Seq<(Seq<char>, u64)>, sets: Seq<(Seq<char>, u64)>) -> Seq<(Seq<char>, u64)>
    decreases sets.len(),
{
    if sets.len() == 0 {
        entries
    } else {
        path_insert(set_all(entries, sets.drop_last()), sets.last().0, sets.last().1)
    }
}

/// The offset last set for the file `path` among `sets`, under any
/// spelling, if any.
pub open spec fn last_set(sets: Seq<(Seq<char>, u64)>, path: Seq<char>) -> Option<u64>
    decreases sets.len(),
{
    if sets.len() == 0 {
        None
    } else if path_key(sets.last().0) == path_key(path) {
        Some(sets.last().1)
    } else {
        last_set(sets.drop_last(), path)
    }
}

/// After any run of `set_offset` calls, the offset read for a file is the
/// one last set for it, or what it was before when it was not set.
pub proof fn lemma_run_then_read(entries: Seq<(Seq<char>, u64)>, sets: Seq<(Seq<char>, u64)>, path: Seq<char>)
    requires
        one_per_file(entries),
    ensures
        one_per_file(set_all(entries, sets)),
        offset_of(set_all(entries, sets), path) == match last_set(sets, path) {
            Some(o) => o,
            None => offset_of(entries, path),
        },
    decreases sets.len(),
{
    if sets.len() > 0 {
        lemma_run_then_read(entries, sets.drop_last(), path);
        let before = set_all(entries, sets.drop_last());
        lemma_set_then_read(before, sets.last().0, sets.last().1, path);
    }
}

/// Stores per-file byte offsets for resumable processing.
#[derive(Debug)]
pub struct Checkpoint {
    offsets: StrMap<u64>,
    names: Vec<String>,
    checkpoint_path: Option<String>,
}

/// The first line of a checkpoint file.
pub open spec fn header() -> Seq<char> {
    "# logshear checkpoint"@
}

/// The line written for one file.
pub open spec fn entry_line(path: Seq<char>, offset: u64) -> Seq<char> {
    path + seq!['\t'] + text::decimal(offset as nat)
}

/// The entry lines for `entries`, each followed by a newline.
pub open spec fn render_entries(entries: Seq<(Seq<char>, u64)>) -> Seq<char>
    decreases entries.len(),
{
    if entries.len() == 0 {
        Seq::empty()
    } else {
        entry_line(entries[0].0, entries[0].1) + seq!['\n'] + render_entries(entries.drop_first())
    }
}

/// The text `save` writes for `entries`.
pub open spec fn rendered(entries: Seq<(Seq<char>, u64)>) -> Seq<char> {
    header() + seq!['\n'] + render_entries(entries)
}

/// The entry a checkpoint line holds: blank lines, comments, lines without
/// a tab and offsets that do not parse are skipped.
pub open spec fn checkpoint_entry(line: Seq<char>) -> Option<(Seq<char>, u64)> {
    let l = text::trim(line);
    if l.len() == 0 || l[0] == '#' {
        None
    } else {
        match text::find(l, seq!['\t']) {
            None => None,
            Some(i) => match text::parse_u64(text::trim(l.subrange(i + 1, l.len() as int))) {
                Some(v) => Some((text::trim(l.subrange(0, i)), v)),
                None => None,
            },
        }
    }
}

/// The offsets after reading `ls` on top of `acc`, later lines replacing
/// earlier ones for the same path.
pub open spec fn entries_fold(acc: Seq<(Seq<char>, u64)>, ls: Seq<Seq<char>>) -> Seq<
    (Seq<char>, u64),
>
    decreases ls.len(),
{
    if ls.len() == 0 {
        acc
    } else {
        let next = match checkpoint_entry(ls[0]) {
            Some(e) => path_insert(acc, e.0, e.1),
            None => acc,
        };
        entries_fold(next, ls.drop_first())
    }
}

/// The offsets a checkpoint file's text holds.
pub open spec fn parsed_offsets(t: Seq<char>) -> Seq<(Seq<char>, u64)> {
    entries_fold(Seq::empty(), text::lines(t))
}

/// A path that survives a save and load unchanged: not empty, no white
/// space at either end, not a comment, and no tab or newline in it.
pub open spec fn clean_path(p: Seq<char>) -> bool {
    &&& p.len() > 0
    &&& !text::is_ws(p[0])
    &&& !text::is_ws(p.last())
    &&& p[0] != '#'
    &&& !p.contains('\t')
    &&& !p.contains('\n')
}

/// Parses one checkpoint line.
fn parse_entry(line: &[char]) -> (r: Option<(Vec<char>, u64)>)
    ensures
        match r {
            Some(e) => checkpoint_entry(line@) == Some((e.0@, e.1)),
            None => checkpoint_entry(line@) is None,
        },
{
    let (a, b) = text::trim_bounds(line);
    let l = text::slice_chars(line, a, b);
    if l.len() == 0 || l[0] == '#' {
        return None;
    }
    let tab: [char; 1] = ['\t'];
    assert(tab@ =~= seq!['\t']);
    proof {
        text::lemma_find_from(l@, seq!['\t'], 0);
    }
    match text::find_seq(l.as_slice(), &tab) {
        None => None,
        Some(i) => {
            assert(text::occurs_at(l@, seq!['\t'], i as int));
            let raw_offset = text::slice_chars(l.as_slice(), i + 1, l.len());
            let (oa, ob) = text::trim_bounds(raw_offset.as_slice());
            let off = text::slice_chars(raw_offset.as_slice(), oa, ob);
            match text::parse_u64_chars(off.as_slice()) {
                Some(v) => {
                    let raw_path = text::slice_chars(l.as_slice(), 0, i);
                    let (pa, pb) = text::trim_bounds(raw_path.as_slice());
                    Some((text::slice_chars(raw_path.as_slice(), pa, pb), v))
                },
                None => None,
            }
        },
    }
}

impl Checkpoint {
    /// The tracked files, each under the path it was first set under, and
    /// their offsets, in the order they were first set.
    pub closed spec fn entries(&self) -> Seq<(Seq<char>, u64)> {
        Seq::new(self.names@.len(), |i: int| (self.names@[i]@, self.offsets.pairs()[i].1))
    }

    /// The file the checkpoint is saved to, if any.
    pub closed spec fn path_view(&self) -> Option<Seq<char>> {
        match self.checkpoint_path {
            Some(p) => Some(p@),
            None => None,
        }
    }

    /// Well-formedness: each file is tracked once, under the key of the path
    /// kept for it.
    pub closed spec fn wf(&self) -> bool {
        &&& self.offsets.wf()
        &&& self.names@.len() == self.offsets.pairs().len()
        &&& self.offsets.pairs() == keyed(self.entries())
    }

    /// In a well-formed checkpoint each file has one entry.
    pub proof fn lemma_wf_one_per_file(&self)
        requires
            self.wf(),
        ensures
            one_per_file(self.entries()),
    {
    }

    /// Create an in-memory checkpoint (not persisted).
    pub fn new() -> (c: Self)
        ensures
            c.wf(),
            c.entries() == Seq::<(Seq<char>, u64)>::empty(),
            c.path_view() is None,
    {
        let c = Checkpoint { offsets: StrMap::new(), names: Vec::new(), checkpoint_path: None };
        assert(c.entries() =~= Seq::<(Seq<char>, u64)>::empty());
        assert(keyed(c.entries()) =~= c.offsets.pairs());
        c
    }

    /// Sets the offset of the file `path`, keeping the path an entry for it
    /// was first set under.
    fn set_entry(&mut self, path: String, offset: u64)
        requires
            old(self).wf(),
        ensures
            final(self).wf(),
            final(self).entries() == path_insert(old(self).entries(), path@, offset),
            final(self).checkpoint_path == old(self).checkpoint_path,
    {
        let ghost es = self.entries();
        let key = path_key_of(path.as_str());
        match self.offsets.position(key.as_str()) {
            Some(i) => {
                self.offsets.set_value_at(i, offset);
                assert(self.entries() =~= es.update(i as int, (es[i as int].0, offset)));
                assert(keyed(self.entries()) =~= self.offsets.pairs());
            },
            None => {
                self.offsets.insert(key, offset);
                self.names.push(path);
                assert(self.entries() =~= es.push((path@, offset)));
                assert(keyed(self.entries()) =~= self.offsets.pairs());
            },
        }
    }

    /// A checkpoint backed by the file `path`, holding the offsets that the
    /// file's text `contents` records (empty text for a file that does not exist).
    pub fn from_text(contents: &str, path: String) -> (c: Self)
        ensures
            c.wf(),
            c.entries() == parsed_offsets(contents@),
            c.path_view() == Some(path@),
    {
        let cs = text::chars_of(contents);
        let ls = text::split_lines(cs.as_slice());
        let ghost lv = ls@.map_values(|l: Vec<char>| l@);
        let mut c = Checkpoint::new();
        let mut i: usize = 0;
        assert(lv.subrange(0, lv.len() as int) =~= lv);
        while i < ls.len()
            invariant
                i <= ls@.len(),
                lv == ls@.map_values(|l: Vec<char>| l@),
                lv == text::lines(contents@),
                c.wf(),
                entries_fold(c.entries(), lv.subrange(i as int, lv.len() as int))
                    == parsed_offsets(contents@),
            decreases ls@.len() - i,
        {
            let ghost rest = lv.subrange(i as int, lv.len() as int);
            assert(rest.drop_first() =~= lv.subrange(i + 1, lv.len() as int));
            assert(rest[0] == ls@[i as int]@);
            match parse_entry(ls[i].as_slice()) {
                Some((p, v)) => {
                    let name = text::string_from_chars(p.as_slice());
                    c.set_entry(name, v);
                },
                None => {},
            }
            i = i + 1;
        }
        c.checkpoint_path = Some(path);
        c
    }

    /// The text `save` writes: a comment line, then one `path<TAB>offset`
    /// line per tracked file.
    pub fn to_text(&self) -> (t: String)
        requires
            self.wf(),
        ensures
            t@ == rendered(self.entries()),
    {
        let mut out: Vec<char> = Vec::new();
        text::push_str(&mut out, "# logshear checkpoint");
        out.push('\n');
        let ghost es = self.entries();
        let mut i: usize = 0;
        assert(es.subrange(0, es.len() as int) =~= es);
        assert(out@ =~= header() + seq!['\n']);
        while i < self.names.len()
            invariant
                i <= es.len(),
                es == self.entries(),
                self.wf(),
                out@ + render_entries(es.subrange(i as int, es.len() as int)) == rendered(es),
            decreases es.len() - i,
        {
            let ghost before = out@;
            let ghost rest = es.subrange(i as int, es.len() as int);
            text::push_str(&mut out, self.names[i].as_str());
            out.push('\t');
            text::push_decimal(&mut out, *self.offsets.value_at(i));
            out.push('\n');
            assert(rest.drop_first() =~= es.subrange(i + 1, es.len() as int));
            assert(out@ =~= before + entry_line(rest[0].0, rest[0].1) + seq!['\n']);
            assert(before + render_entries(rest) =~= out@ + render_entries(rest.drop_first()));
            i = i + 1;
        }
        assert(render_entries(es.subrange(es.len() as int, es.len() as int)) =~= Seq::<char>::empty());
        assert(out@ =~= rendered(es));
        text::string_from_chars(out.as_slice())
    }

    /// The file the checkpoint is saved to; `None` for an in-memory checkpoint.
    pub fn checkpoint_path(&self) -> (p: Option<&String>)
        ensures
            match p {
                Some(s) => self.path_view() == Some(s@),
                None => self.path_view() is None,
            },
    {
        match &self.checkpoint_path {
            Some(s) => Some(s),
            None => None,
        }
    }

    /// Return the saved offset for a file, or 0 if none.
    pub fn offset_for(&self, path: &str) -> (o: u64)
        requires
            self.wf(),
        ensures
            o == offset_of(self.entries(), path@),
    {
        let key = path_key_of(path);
        match self.offsets.get(key.as_str()) {
            Some(v) => *v,
            None => 0,
        }
    }

    /// Update the offset for a file.
    pub fn set_offset(&mut self, path: &str, offset: u64)
        requires
            old(self).wf(),
        ensures
            final(self).wf(),
            final(self).entries() == path_insert(old(self).entries(), path@, offset),
            final(self).path_view() == old(self).path_view(),
    {
        self.set_entry(path.to_owned(), offset);
    }

    /// Number of tracked files.
    pub fn len(&self) -> (n: usize)
        ensures
            n == self.entries().len(),
    {
        self.names.len()
    }

    pub fn is_empty(&self) -> (b: bool)
        ensures
            b == (self.entries().len() == 0),
    {
        self.names.len() == 0
    }
}

impl Default for Checkpoint {
    fn default() -> (c: Self)
        ensures
            c.wf(),
            c.entries() == Seq::<(Seq<char>, u64)>::empty(),
            c.path_view() is None,
    {
        Checkpoint::new()
    }
}

/// The first occurrence of `c` in `a + [c] + b`, when `a` holds no `c`, ends `a`.
pub proof fn lemma_find_single(a: Seq<char>, c: char, b: Seq<char>)
    requires
        !a.contains(c),
    ensures
        text::find(a + seq![c] + b, seq![c]) == Some(a.len() as int),
{
    let t = a + seq![c] + b;
    text::lemma_find_from(t, seq![c], 0);
    assert(t.subrange(a.len() as int, a.len() + 1int) =~= seq![c]);
    assert(text::occurs_at(t, seq![c], a.len() as int));
    match text::find(t, seq![c]) {
        Some(i) => {
            if i < a.len() {
                assert(t.subrange(i, i + 1)[0] == c);
                assert(a[i] == c);
            }
        },
        None => {},
    }
}

/// A line without newline and without trailing carriage return, followed
/// by a newline, is the first of the lines.
pub proof fn lemma_lines_cons(a: Seq<char>, rest: Seq<char>)
    requires
        !a.contains('\n'),
        a.len() == 0 || a.last() != '\r',
    ensures
        text::lines(a + seq!['\n'] + rest) == seq![a] + text::lines(rest),
{
    let t = a + seq!['\n'] + rest;
    lemma_find_single(a, '\n', rest);
    assert(t.subrange(0, a.len() as int) =~= a);
    assert(t.subrange(a.len() + 1int, t.len() as int) =~= rest);
}

/// A non-empty text with no white space at either end is its own trim.
pub proof fn lemma_trim_identity(s: Seq<char>)
    requires
        s.len() > 0,
        !text::is_ws(s[0]),
        !text::is_ws(s.last()),
    ensures
        text::trim(s) == s,
{
}

/// Each entry line reads back as the entry it was written for.
pub proof fn lemma_entry_roundtrip(p: Seq<char>, o: u64)
    requires
        clean_path(p),
    ensures
        checkpoint_entry(entry_line(p, o)) == Some((p, o)),
{
    let d = text::decimal(o as nat);
    text::lemma_decimal_digits(o as nat);
    text::lemma_parse_decimal(o);
    let l = entry_line(p, o);
    assert(l[0] == p[0]);
    assert(l.last() == d.last());
    assert(text::is_digit(d[d.len() - 1]));
    lemma_trim_identity(l);
    lemma_find_single(p, '\t', d);
    assert(l.subrange(0, p.len() as int) =~= p);
    assert(l.subrange(p.len() + 1int, l.len() as int) =~= d);
    lemma_trim_identity(p);
    assert(text::is_digit(d[0]));
    lemma_trim_identity(d);
}

/// The lines of rendered entries are their entry lines.
pub proof fn lemma_lines_render(entries: Seq<(Seq<char>, u64)>)
    requires
        forall|i: int| 0 <= i < entries.len() ==> clean_path(#[trigger] entries[i].0),
    ensures
        text::lines(render_entries(entries)) == entries.map_values(
            |e: (Seq<char>, u64)| entry_line(e.0, e.1),
        ),
    decreases entries.len(),
{
    if entries.len() == 0 {
        assert(text::lines(Seq::<char>::empty()) =~= Seq::<Seq<char>>::empty());
        assert(entries.map_values(|e: (Seq<char>, u64)| entry_line(e.0, e.1)) =~= Seq::<Seq<char>>::empty());
    } else {
        let e = entries[0];
        assert(clean_path(e.0));
        let l = entry_line(e.0, e.1);
        let d = text::decimal(e.1 as nat);
        text::lemma_decimal_digits(e.1 as nat);
        assert(!l.contains('\n')) by {
            if l.contains('\n') {
                let i = choose|i: int| 0 <= i < l.len() && l[i] == '\n';
                if i < e.0.len() {
                    assert(e.0[i] == '\n');
                } else if i > e.0.len() {
                    assert(d[i - e.0.len() - 1] == '\n');
                    assert(text::is_digit(d[i - e.0.len() - 1]));
                }
            }
        }
        assert(l.last() == d.last());
        assert(text::is_digit(d[d.len() - 1]));
        lemma_lines_cons(l, render_entries(entries.drop_first()));
        assert forall|i: int| 0 <= i < entries.drop_first().len() implies clean_path(
            #[trigger] entries.drop_first()[i].0,
        ) by {
            assert(entries.drop_first()[i] == entries[i + 1]);
        }
        lemma_lines_render(entries.drop_first());
        assert(entries.map_values(|e: (Seq<char>, u64)| entry_line(e.0, e.1)) =~= seq![l]
            + entries.drop_first().map_values(|e: (Seq<char>, u64)| entry_line(e.0, e.1)));
    }
}

/// Reading the lines of fresh, distinct entries appends them in order.
pub proof fn lemma_fold_fresh(acc: Seq<(Seq<char>, u64)>, entries: Seq<(Seq<char>, u64)>)
    requires
        one_per_file(acc + entries),
        forall|i: int| 0 <= i < entries.len() ==> clean_path(#[trigger] entries[i].0),
    ensures
        entries_fold(acc, entries.map_values(|e: (Seq<char>, u64)| entry_line(e.0, e.1)))
            == acc + entries,
    decreases entries.len(),
{
    let ls = entries.map_values(|e: (Seq<char>, u64)| entry_line(e.0, e.1));
    if entries.len() == 0 {
        assert(acc + entries =~= acc);
    } else {
        let e = entries[0];
        assert(clean_path(e.0));
        lemma_entry_roundtrip(e.0, e.1);
        assert(ls[0] == entry_line(e.0, e.1));
        assert(!strmap::has_key(keyed(acc), path_key(e.0))) by {
            if strmap::has_key(keyed(acc), path_key(e.0)) {
                let j = strmap::key_index(keyed(acc), path_key(e.0));
                assert(keyed(acc + entries)[j].0 == keyed(acc + entries)[acc.len() as int].0);
            }
        }
        let acc2 = acc.push(e);
        assert(path_insert(acc, e.0, e.1) == acc2);
        assert(acc2 + entries.drop_first() =~= acc + entries);
        assert forall|i: int| 0 <= i < entries.drop_first().len() implies clean_path(
            #[trigger] entries.drop_first()[i].0,
        ) by {
            assert(entries.drop_first()[i] == entries[i + 1]);
        }
        lemma_fold_fresh(acc2, entries.drop_first());
        assert(ls.drop_first() =~= entries.drop_first().map_values(
            |e: (Seq<char>, u64)| entry_line(e.0, e.1),
        ));
    }
}

/// Saving and loading again gives back every tracked file with its offset,
/// in the same order, for paths that are clean (see `clean_path`).
pub proof fn lemma_save_load_roundtrip(entries: Seq<(Seq<char>, u64)>)
    requires
        one_per_file(entries),
        forall|i: int| 0 <= i < entries.len() ==> clean_path(#[trigger] entries[i].0),
    ensures
        parsed_offsets(rendered(entries)) == entries,
{
    reveal_strlit("# logshear checkpoint");
    let h = header();
    lemma_lines_cons(h, render_entries(entries));
    lemma_lines_render(entries);
    assert(text::lines(rendered(entries)) == seq![h] + entries.map_values(
        |e: (Seq<char>, u64)| entry_line(e.0, e.1),
    ));
    lemma_trim_identity(h);
    assert(checkpoint_entry(h) is None);
    assert((seq![h] + entries.map_values(|e: (Seq<char>, u64)| entry_line(e.0, e.1))).drop_first()
        =~= entries.map_values(|e: (Seq<char>, u64)| entry_line(e.0, e.1)));
    assert(Seq::<(Seq<char>, u64)>::empty() + entries =~= entries);
    lemma_fold_fresh(Seq::empty(), entries);
}

impl Checkpoint {
    /// What `to_text` writes, `from_text` reads back: the same files with the
    /// same offsets, provided every tracked path is clean.
    pub proof fn lemma_text_roundtrip(&self)
        requires
            self.wf(),
            forall|i: int| 0 <= i < self.entries().len() ==> clean_path(#[trigger] self.entries()[i].0),
        ensures
            parsed_offsets(rendered(self.entries())) == self.entries(),
    {
        lemma_save_load_roundtrip(self.entries());
    }
}

} // verus!
