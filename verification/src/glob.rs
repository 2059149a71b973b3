//! Expansion of file patterns with `*` and `?` wildcards.
//!
//! What the file system shows (whether a path exists, which files a
//! directory holds) is gathered by the caller; this module decides which of
//! those paths a pattern selects and in what order.

use vstd::prelude::*;
use vstd::relations::{sorted_by, total_ordering};
use crate::text;

verus! {

/// `pattern` matches all of `t`: `*` matches any run of characters, `?` any
/// one character, every other character itself.
pub open spec fn glob_matches(p: Seq<char>, t: Seq<char>) -> bool
    decreases p.len(), t.len(),
{
    if p.len() == 0 {
        t.len() == 0
    } else if p[0] == '*' {
        glob_matches(p.drop_first(), t) || (t.len() > 0 && glob_matches(p, t.drop_first()))
    } else if t.len() == 0 {
        false
    } else if p[0] == '?' || p[0] == t[0] {
        glob_matches(p.drop_first(), t.drop_first())
    } else {
        false
    }
}

/// `*` matches any run of characters: whatever `q` matches, `*` followed
/// by `q` matches with any text in front of it.
pub proof fn lemma_star_absorbs_prefix(q: Seq<char>, u: Seq<char>, v: Seq<char>)
    requires
        glob_matches(q, v),
    ensures
        glob_matches(seq!['*'] + q, u + v),
    decreases u.len(),
{
    let p = seq!['*'] + q;
    assert(p[0] == '*');
    assert(p.drop_first() =~= q);
    if u.len() == 0 {
        assert(u + v =~= v);
    } else {
        lemma_star_absorbs_prefix(q, u.drop_first(), v);
        assert((u + v).drop_first() =~= u.drop_first() + v);
    }
}

/// A lone `*` matches every text.
pub proof fn lemma_star_matches_all(t: Seq<char>)
    ensures
        glob_matches(seq!['*'], t),
{
    assert(glob_matches(Seq::<char>::empty(), Seq::<char>::empty()));
    assert(seq!['*'] =~= seq!['*'] + Seq::<char>::empty());
    assert(t =~= t + Seq::<char>::empty());
    lemma_star_absorbs_prefix(Seq::empty(), t, Seq::empty());
}

/// A pattern without wildcards matches exactly the text equal to it.
pub proof fn lemma_literal_matches_itself(p: Seq<char>, t: Seq<char>)
    requires
        !p.contains('*'),
        !p.contains('?'),
    ensures
        glob_matches(p, t) <==> t == p,
    decreases p.len(),
{
    if p.len() > 0 {
        assert(p[0] != '*' && p[0] != '?') by {
            assert(p.contains(p[0]));
        }
        assert(!p.drop_first().contains('*') && !p.drop_first().contains('?')) by {
            if p.drop_first().contains('*') {
                let k = choose|k: int| 0 <= k < p.drop_first().len() && p.drop_first()[k] == '*';
                assert(p[k + 1] == '*');
            }
            if p.drop_first().contains('?') {
                let k = choose|k: int| 0 <= k < p.drop_first().len() && p.drop_first()[k] == '?';
                assert(p[k + 1] == '?');
            }
        }
        if t.len() > 0 {
            lemma_literal_matches_itself(p.drop_first(), t.drop_first());
            if t == p {
                assert(t.drop_first() == p.drop_first());
            }
            if t.drop_first() == p.drop_first() && t[0] == p[0] {
                assert forall|i: int| 0 <= i < t.len() implies t[i] == p[i] by {
                    if i > 0 {
                        assert(t[i] == t.drop_first()[i - 1]);
                        assert(p[i] == p.drop_first()[i - 1]);
                    }
                }
                assert(t =~= p);
            }
        }
    } else {
        if t.len() == 0 {
            assert(t =~= p);
        }
    }
}

/// `?` matches exactly one character, whatever it is: `?` followed by `q`
/// matches `c` followed by `v` exactly when `q` matches `v`.
pub proof fn lemma_question_one_char(q: Seq<char>, c: char, v: Seq<char>)
    ensures
        glob_matches(seq!['?'] + q, seq![c] + v) == glob_matches(q, v),
        !glob_matches(seq!['?'] + q, Seq::<char>::empty()),
{
    let p = seq!['?'] + q;
    assert(p[0] == '?');
    assert(p.drop_first() =~= q);
    assert((seq![c] + v).drop_first() =~= v);
}

/// The text holds a wildcard character.
pub open spec fn has_wildcard(s: Seq<char>) -> bool {
    s.contains('*') || s.contains('?') || s.contains('[')
}

/// `a` does not come after `b` in the order of `str`.
pub open spec fn text_le(a: Seq<char>, b: Seq<char>) -> bool {
    !text::lex_lt(b, a)
}

/// The paths `pattern` matches, in their given order.
pub open spec fn glob_filter(pattern: Seq<char>, paths: Seq<Seq<char>>) -> Seq<Seq<char>>
    decreases paths.len(),
{
    if paths.len() == 0 {
        Seq::empty()
    } else if glob_matches(pattern, paths.last()) {
        glob_filter(pattern, paths.drop_last()).push(paths.last())
    } else {
        glob_filter(pattern, paths.drop_last())
    }
}

/// `text_le` orders texts totally.
pub proof fn lemma_text_le_total()
    ensures
        total_ordering(|a: Seq<char>, b: Seq<char>| text_le(a, b)),
{
    let le = |a: Seq<char>, b: Seq<char>| text_le(a, b);
    assert forall|x: Seq<char>| #[trigger] le(x, x) by {
        text::lemma_lex_asym(x, x);
    }
    assert forall|x: Seq<char>, y: Seq<char>| #[trigger] le(x, y) && #[trigger] le(y, x) implies x == y by {
        if x != y {
            text::lemma_lex_total(x, y);
        }
    }
    assert forall|x: Seq<char>, y: Seq<char>, z: Seq<char>| #[trigger] le(x, y) && #[trigger] le(y, z) implies le(x, z) by {
        if text::lex_lt(z, x) {
            if x == y {
            } else if y == z {
            } else {
                text::lemma_lex_total(x, y);
                text::lemma_lex_total(y, z);
                text::lemma_lex_trans(z, x, y);
            }
        }
    }
    assert forall|x: Seq<char>, y: Seq<char>| #[trigger] le(x, y) || #[trigger] le(y, x) by {
        text::lemma_lex_asym(x, y);
    }
}

/// Whether `s` holds a wildcard character, the test that makes a pattern a
/// glob rather than a plain path.
pub fn is_glob(s: &str) -> (r: bool)
    ensures
        r == has_wildcard(s@),
{
    let cs = text::chars_of(s);
    let mut i: usize = 0;
    while i < cs.len()
        invariant
            i <= cs@.len(),
            cs@ == s@,
            forall|j: int| 0 <= j < i ==> cs@[j] != '*' && cs@[j] != '?' && cs@[j] != '[',
        decreases cs@.len() - i,
    {
        if cs[i] == '*' || cs[i] == '?' || cs[i] == '[' {
            assert(s@[i as int] == cs@[i as int]);
            return true;
        }
        i = i + 1;
    }
    false
}

/// Whether `p[i..]` matches all of `t[j..]`.
fn glob_match_from(p: &[char], t: &[char], i: usize, j: usize) -> (r: bool)
    requires
        i <= p@.len(),
        j <= t@.len(),
    ensures
        r == glob_matches(p@.subrange(i as int, p@.len() as int), t@.subrange(j as int, t@.len() as int)),
    decreases p@.len() - i, t@.len() - j,
{
    let ghost ps = p@.subrange(i as int, p@.len() as int);
    let ghost ts = t@.subrange(j as int, t@.len() as int);
    if i == p.len() {
        return j == t.len();
    }
    assert(ps[0] == p@[i as int]);
    assert(ps.drop_first() =~= p@.subrange(i + 1, p@.len() as int));
    if j < t.len() {
        assert(ts[0] == t@[j as int]);
        assert(ts.drop_first() =~= t@.subrange(j + 1, t@.len() as int));
    }
    if p[i] == '*' {
        glob_match_from(p, t, i + 1, j) || (j < t.len() && glob_match_from(p, t, i, j + 1))
    } else if j == t.len() {
        false
    } else if p[i] == '?' || p[i] == t[j] {
        glob_match_from(p, t, i + 1, j + 1)
    } else {
        false
    }
}

/// Whether `pattern` matches all of `text`.
pub fn glob_match(pattern: &str, text: &str) -> (r: bool)
    ensures
        r == glob_matches(pattern@, text@),
{
    let p = text::chars_of(pattern);
    let t = text::chars_of(text);
    assert(p@.subrange(0, p@.len() as int) =~= p@);
    assert(t@.subrange(0, t@.len() as int) =~= t@);
    glob_match_from(p.as_slice(), t.as_slice(), 0, 0)
}

/// The texts of a list of paths.
pub open spec fn path_texts(v: Seq<String>) -> Seq<Seq<char>> {
    v.map_values(|s: String| s@)
}

/// The paths that `pattern` matches, sorted.
pub fn sorted_matches(pattern: &str, paths: Vec<String>) -> (r: Vec<String>)
    ensures
        path_texts(r@) == glob_filter(pattern@, path_texts(paths@)).sort_by(
            |a: Seq<char>, b: Seq<char>| text_le(a, b),
        ),
{
    let ghost le = |a: Seq<char>, b: Seq<char>| text_le(a, b);
    let ghost pv = path_texts(paths@);
    let mut out: Vec<String> = Vec::new();
    let mut outk: Vec<Vec<char>> = Vec::new();
    let n = paths.len();
    assert(pv.take(0) =~= Seq::<Seq<char>>::empty());
    assert(path_texts(out@) =~= glob_filter(pattern@, pv.take(0)));
    for i in 0..n
        invariant
            n == paths@.len(),
            pv == path_texts(paths@),
            le == (|a: Seq<char>, b: Seq<char>| text_le(a, b)),
            outk@.len() == out@.len(),
            forall|j: int| 0 <= j < out@.len() ==> (#[trigger] outk@[j])@ == out@[j]@,
            sorted_by(path_texts(out@), le),
            path_texts(out@).to_multiset() == glob_filter(pattern@, pv.take(i as int)).to_multiset(),
    {
        assert(pv.take(i + 1).drop_last() =~= pv.take(i as int));
        assert(pv[i as int] == paths@[i as int]@);
        if glob_match(pattern, paths[i].as_str()) {
            let kc = text::chars_of(paths[i].as_str());
            let ghost ov = path_texts(out@);
            let mut pos: usize = 0;
            while pos < out.len() && !text::chars_lt(kc.as_slice(), outk[pos].as_slice())
                invariant
                    pos <= out@.len(),
                    outk@.len() == out@.len(),
                    ov == path_texts(out@),
                    i < pv.len(),
                    kc@ == pv[i as int],
                    forall|j: int| 0 <= j < out@.len() ==> (#[trigger] outk@[j])@ == out@[j]@,
                    forall|j: int| 0 <= j < pos ==> text_le(#[trigger] ov[j], kc@),
                decreases out@.len() - pos,
            {
                assert(ov[pos as int] == out@[pos as int]@);
                pos = pos + 1;
            }
            proof {
                lemma_text_le_total();
                if pos < out@.len() {
                    assert(ov[pos as int] == out@[pos as int]@);
                    text::lemma_lex_asym(kc@, ov[pos as int]);
                }
                let nv = ov.insert(pos as int, kc@);
                assert forall|a: int, b: int| 0 <= a < b < nv.len() implies #[trigger] le(nv[a], nv[b]) by {
                    if b < pos {
                        assert(le(ov[a], ov[b]));
                    } else if b == pos {
                    } else if a < pos {
                        assert(le(ov[a], kc@));
                        assert(le(kc@, ov[pos as int]));
                        assert(le(ov[pos as int], ov[b - 1]) || pos == b - 1);
                    } else if a == pos {
                        assert(le(kc@, ov[pos as int]));
                        assert(le(ov[pos as int], ov[b - 1]) || pos == b - 1);
                    } else {
                        assert(le(ov[a - 1], ov[b - 1]));
                    }
                }
                vstd::seq_lib::to_multiset_insert(ov, pos as int, kc@);
                vstd::seq_lib::to_multiset_build(glob_filter(pattern@, pv.take(i as int)), pv[i as int]);
            }
            let ghost oo = outk@;
            out.insert(pos, paths[i].clone());
            outk.insert(pos, kc);
            proof {
                assert(path_texts(out@) =~= ov.insert(pos as int, kc@));
                assert forall|j: int| 0 <= j < out@.len() implies (#[trigger] outk@[j])@ == out@[j]@ by {
                    if j > pos {
                        assert(outk@[j] == oo[j - 1]);
                    }
                }
            }
        }
    }
    proof {
        assert(pv.take(n as int) =~= pv);
        lemma_text_le_total();
        let f = glob_filter(pattern@, pv);
        f.lemma_sort_by_ensures(le);
        vstd::seq_lib::lemma_sorted_unique(path_texts(out@), f.sort_by(le), le);
    }
    out
}

/// Why a pattern could not be expanded.
#[derive(Debug)]
pub enum GlobError {
    NotFound(String),
    InvalidPattern(String),
    Io(String),
}

impl GlobError {
    /// The error message.
    pub open spec fn message_spec(&self) -> Seq<char> {
        match self {
            GlobError::NotFound(p) => "path not found: "@ + p@,
            GlobError::InvalidPattern(p) => "invalid glob pattern: "@ + p@,
            GlobError::Io(e) => "io error: "@ + e@,
        }
    }

    /// The error message.
    pub fn message(&self) -> (s: String)
        ensures
            s@ == self.message_spec(),
    {
        let (prefix, detail) = match self {
            GlobError::NotFound(p) => ("path not found: ", p),
            GlobError::InvalidPattern(p) => ("invalid glob pattern: ", p),
            GlobError::Io(e) => ("io error: ", e),
        };
        let mut v = text::chars_of(prefix);
        text::push_str(&mut v, detail.as_str());
        text::string_from_chars(v.as_slice())
    }
}

/// `path` appended to `base` as `PathBuf::push` does on Unix: an absolute
/// `path` replaces `base`, otherwise a `/` is put between them unless `base`
/// is empty or already ends with one.
pub open spec fn joined(base: Seq<char>, path: Seq<char>) -> Seq<char> {
    if path.len() > 0 && path[0] == '/' {
        path
    } else if base.len() == 0 || base.last() == '/' {
        base + path
    } else {
        base + seq!['/'] + path
    }
}

/// Expands patterns relative to a base directory.
pub struct GlobExpander {
    base_dir: String,
}

impl GlobExpander {
    /// The base directory.
    pub closed spec fn base_view(&self) -> Seq<char> {
        self.base_dir@
    }

    /// An expander for patterns under `base_dir`.
    pub fn new(base_dir: &str) -> (g: Self)
        ensures
            g.base_view() == base_dir@,
    {
        GlobExpander { base_dir: base_dir.to_owned() }
    }

    /// The base directory.
    pub fn base_dir(&self) -> (s: &str)
        ensures
            s@ == self.base_view(),
    {
        self.base_dir.as_str()
    }

    /// The path a pattern names under the base directory.
    pub fn target(&self, pattern: &str) -> (s: String)
        ensures
            s@ == joined(self.base_view(), pattern@),
    {
        let pv = text::chars_of(pattern);
        if pv.len() > 0 && pv[0] == '/' {
            return pattern.to_owned();
        }
        let mut v = text::chars_of(self.base_dir.as_str());
        if v.len() > 0 && v[v.len() - 1] != '/' {
            v.push('/');
        }
        text::push_str(&mut v, pattern);
        text::string_from_chars(v.as_slice())
    }

    /// Expands a pattern, given what the file system shows: for a plain
    /// path, whether `target(pattern)` exists; for a glob, the files of the
    /// base directory (full paths) or the error reading it. A glob gives the
    /// files it matches, sorted; a plain path gives itself.
    pub fn expand(&self, pattern: &str, target_exists: bool, listing: Result<Vec<String>, String>) -> (r: Result<Vec<String>, GlobError>)
        ensures
            has_wildcard(pattern@) ==> match listing {
                Ok(files) => r matches Ok(v) && path_texts(v@) == glob_filter(
                    joined(self.base_view(), pattern@),
                    path_texts(files@),
                ).sort_by(|a: Seq<char>, b: Seq<char>| text_le(a, b)),
                Err(e) => r matches Err(GlobError::Io(m)) && m@ == e@,
            },
            !has_wildcard(pattern@) ==> if target_exists {
                r matches Ok(v) && path_texts(v@) == seq![joined(self.base_view(), pattern@)]
            } else {
                r matches Err(GlobError::NotFound(p)) && p@ == pattern@
            },
    {
        if is_glob(pattern) {
            match listing {
                Ok(files) => {
                    let full = self.target(pattern);
                    Ok(sorted_matches(full.as_str(), files))
                },
                Err(e) => Err(GlobError::Io(e)),
            }
        } else if target_exists {
            let mut v: Vec<String> = Vec::new();
            v.push(self.target(pattern));
            assert(path_texts(v@) =~= seq![joined(self.base_view(), pattern@)]);
            Ok(v)
        } else {
            Err(GlobError::NotFound(pattern.to_owned()))
        }
    }
}

} // verus!
