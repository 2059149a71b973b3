//! Filtering and projection of extracted fields for output.

use vstd::prelude::*;
use crate::text;
use crate::strmap;
use crate::field_extractor::ExtractedFields;

verus! {

/// The texts of a list of names.
pub open spec fn names(v: Seq<String>) -> Seq<Seq<char>> {
    v.map_values(|s: String| s@)
}

/// A list of `(key, value)` string pairs by their characters.
pub open spec fn pair_views(r: Seq<(&str, &str)>) -> Seq<(Seq<char>, Seq<char>)> {
    r.map_values(|p: (&str, &str)| (p.0@, p.1@))
}

/// The first occurrence of `a` in `s` comes before any occurrence of `b`.
pub open spec fn comes_first(s: Seq<Seq<char>>, a: Seq<char>, b: Seq<char>) -> bool {
    exists|p: int| 0 <= p < s.len() && s[p] == a && !s.take(p).contains(b)
}

/// Keys in strictly increasing order.
pub open spec fn sorted_keys(r: Seq<(Seq<char>, Seq<char>)>) -> bool {
    forall|a: int, b: int| 0 <= a < b < r.len() ==> text::lex_lt(r[a].0, r[b].0)
}

/// `key=value` for one field.
pub open spec fn pair_text(p: (Seq<char>, Seq<char>)) -> Seq<char> {
    p.0 + seq!['='] + p.1
}

/// Shown fields as `key=value` separated by spaces; the raw line when none
/// is shown.
pub open spec fn formatted(raw: Seq<char>, r: Seq<(Seq<char>, Seq<char>)>) -> Seq<char> {
    if r.len() == 0 {
        raw
    } else {
        text::join(r.map_values(|p: (Seq<char>, Seq<char>)| pair_text(p)), seq![' '])
    }
}

/// Which fields to show, and in what order.
#[derive(Debug)]
pub struct FieldFilter {
    /// If non-empty, only these fields, in this order.
    pub included: Vec<String>,
    /// Fields never shown.
    pub exclude: Vec<String>,
}

impl Default for FieldFilter {
    fn default() -> (f: Self)
        ensures
            f.included@.len() == 0,
            f.exclude@.len() == 0,
    {
        FieldFilter { included: Vec::new(), exclude: Vec::new() }
    }
}

/// Whether `k` is one of the names in `v`.
fn contains_name(v: &Vec<String>, k: &str) -> (b: bool)
    ensures
        b == names(v@).contains(k@),
{
    let mut i: usize = 0;
    while i < v.len()
        invariant
            i <= v@.len(),
            forall|j: int| 0 <= j < i ==> v@[j]@ != k@,
        decreases v@.len() - i,
    {
        if text::str_eq(v[i].as_str(), k) {
            assert(names(v@)[i as int] == k@);
            return true;
        }
        i = i + 1;
    }
    proof {
        if names(v@).contains(k@) {
            let j = choose|j: int| 0 <= j < names(v@).len() && names(v@)[j] == k@;
            assert(v@[j]@ == k@);
        }
    }
    false
}

/// Whether `k` is one of the first `n` names in `v`.
fn contains_name_before(v: &Vec<String>, n: usize, k: &str) -> (b: bool)
    requires
        n <= v@.len(),
    ensures
        b == names(v@).take(n as int).contains(k@),
{
    let mut i: usize = 0;
    while i < n
        invariant
            i <= n <= v@.len(),
            forall|j: int| 0 <= j < i ==> v@[j]@ != k@,
        decreases n - i,
    {
        if text::str_eq(v[i].as_str(), k) {
            assert(names(v@).take(n as int)[i as int] == k@);
            return true;
        }
        i = i + 1;
    }
    proof {
        if names(v@).take(n as int).contains(k@) {
            let j = choose|j: int|
                0 <= j < names(v@).take(n as int).len() && names(v@).take(n as int)[j] == k@;
            assert(v@[j]@ == k@);
        }
    }
    false
}

/// Inserting a key at its place keeps the keys sorted.
proof fn lemma_insert_sorted(r: Seq<(Seq<char>, Seq<char>)>, pos: int, e: (Seq<char>, Seq<char>))
    requires
        sorted_keys(r),
        0 <= pos <= r.len(),
        forall|j: int| 0 <= j < pos ==> text::lex_lt(#[trigger] r[j].0, e.0),
        pos < r.len() ==> text::lex_lt(e.0, r[pos].0),
    ensures
        sorted_keys(r.insert(pos, e)),
{
    let s = r.insert(pos, e);
    assert forall|a: int, b: int| 0 <= a < b < s.len() implies text::lex_lt(s[a].0, s[b].0) by {
        if b < pos {
        } else if b == pos {
        } else if a < pos {
            text::lemma_lex_trans(r[a].0, e.0, r[pos].0);
            if b - 1 > pos {
                text::lemma_lex_trans(r[a].0, r[pos].0, r[b - 1].0);
            }
        } else if a == pos {
            if b - 1 > pos {
                text::lemma_lex_trans(e.0, r[pos].0, r[b - 1].0);
            }
        } else {
        }
    }
}

impl FieldFilter {
    /// A filter with the given lists of shown and hidden fields.
    pub fn new(included: Vec<String>, exclude: Vec<String>) -> (f: Self)
        ensures
            f.included == included,
            f.exclude == exclude,
    {
        FieldFilter { included, exclude }
    }

    /// Whether field `k` is shown.
    pub open spec fn keeps(&self, k: Seq<char>) -> bool {
        (self.included@.len() == 0 || names(self.included@).contains(k)) && !names(
            self.exclude@,
        ).contains(k)
    }

    /// Whether a shown field `a` comes before a shown field `b`: in the order
    /// of `included` when it is not empty, else by name.
    pub open spec fn before(&self, a: Seq<char>, b: Seq<char>) -> bool {
        if self.included@.len() == 0 {
            text::lex_lt(a, b)
        } else {
            a != b && comes_first(names(self.included@), a, b)
        }
    }

    /// `r` is the projection of the fields `tp`: exactly the shown fields,
    /// each once, in order.
    pub open spec fn projects(&self, tp: Seq<(Seq<char>, Seq<char>)>, r: Seq<(Seq<char>, Seq<char>)>) -> bool {
        &&& forall|i: int| 0 <= i < r.len() ==> tp.contains(#[trigger] r[i]) && self.keeps(r[i].0)
        &&& forall|j: int| 0 <= j < tp.len() && self.keeps(tp[j].0) ==> r.contains(#[trigger] tp[j])
        &&& forall|a: int, b: int| 0 <= a < b < r.len() ==> self.before(#[trigger] r[a].0, #[trigger] r[b].0)
    }

    /// `before` never holds both ways, nor of a field and itself.
    proof fn lemma_before_strict(&self, a: Seq<char>, b: Seq<char>)
        ensures
            !(self.before(a, b) && self.before(b, a)),
            !self.before(a, a),
    {
        text::lemma_lex_asym(a, b);
        text::lemma_lex_asym(a, a);
        if self.included@.len() > 0 && self.before(a, b) && self.before(b, a) {
            let s = names(self.included@);
            let p = choose|p: int| 0 <= p < s.len() && s[p] == a && !s.take(p).contains(b);
            let q = choose|q: int| 0 <= q < s.len() && s[q] == b && !s.take(q).contains(a);
            if p < q {
                assert(s.take(q)[p] == a);
            } else if q < p {
                assert(s.take(p)[q] == b);
            }
        }
    }

    /// Two lists, each in `before` order, with the same members, are equal.
    proof fn lemma_ordered_unique(&self, r1: Seq<(Seq<char>, Seq<char>)>, r2: Seq<(Seq<char>, Seq<char>)>)
        requires
            forall|e: (Seq<char>, Seq<char>)| r1.contains(e) <==> r2.contains(e),
            forall|a: int, b: int| 0 <= a < b < r1.len() ==> self.before(#[trigger] r1[a].0, #[trigger] r1[b].0),
            forall|a: int, b: int| 0 <= a < b < r2.len() ==> self.before(#[trigger] r2[a].0, #[trigger] r2[b].0),
        ensures
            r1 == r2,
        decreases r1.len(),
    {
        if r1.len() == 0 {
            if r2.len() > 0 {
                assert(r2.contains(r2[0]));
            }
            assert(r1 =~= r2);
        } else if r2.len() == 0 {
            assert(r1.contains(r1[0]));
        } else {
            let x = r1[0];
            let y = r2[0];
            assert(r1.contains(x));
            assert(r2.contains(y));
            let j = choose|j: int| 0 <= j < r2.len() && r2[j] == x;
            let i = choose|i: int| 0 <= i < r1.len() && r1[i] == y;
            self.lemma_before_strict(x.0, y.0);
            if x != y {
                assert(i > 0 && j > 0);
                assert(self.before(r1[0].0, r1[i].0));
                assert(self.before(r2[0].0, r2[j].0));
            }
            let t1 = r1.drop_first();
            let t2 = r2.drop_first();
            assert forall|e: (Seq<char>, Seq<char>)| t1.contains(e) <==> t2.contains(e) by {
                if t1.contains(e) {
                    let k = choose|k: int| 0 <= k < t1.len() && t1[k] == e;
                    assert(r1[k + 1] == e);
                    self.lemma_before_strict(x.0, e.0);
                    assert(self.before(r1[0].0, r1[k + 1].0));
                    assert(e != x);
                    assert(r2.contains(e));
                    let m = choose|m: int| 0 <= m < r2.len() && r2[m] == e;
                    assert(m > 0);
                    assert(t2[m - 1] == e);
                }
                if t2.contains(e) {
                    let k = choose|k: int| 0 <= k < t2.len() && t2[k] == e;
                    assert(r2[k + 1] == e);
                    self.lemma_before_strict(y.0, e.0);
                    assert(self.before(r2[0].0, r2[k + 1].0));
                    assert(e != y);
                    assert(r1.contains(e));
                    let m = choose|m: int| 0 <= m < r1.len() && r1[m] == e;
                    assert(m > 0);
                    assert(t1[m - 1] == e);
                }
            }
            assert forall|a: int, b: int| 0 <= a < b < t1.len() implies self.before(#[trigger] t1[a].0, #[trigger] t1[b].0) by {
                assert(self.before(r1[a + 1].0, r1[b + 1].0));
            }
            assert forall|a: int, b: int| 0 <= a < b < t2.len() implies self.before(#[trigger] t2[a].0, #[trigger] t2[b].0) by {
                assert(self.before(r2[a + 1].0, r2[b + 1].0));
            }
            self.lemma_ordered_unique(t1, t2);
            assert(r1 =~= seq![x] + t1);
            assert(r2 =~= seq![y] + t2);
        }
    }

    /// The projection of a set of fields is determined: `apply` has one
    /// possible result, so `format_fields` has one too.
    pub proof fn lemma_projection_unique(
        &self,
        tp: Seq<(Seq<char>, Seq<char>)>,
        r1: Seq<(Seq<char>, Seq<char>)>,
        r2: Seq<(Seq<char>, Seq<char>)>,
    )
        requires
            self.projects(tp, r1),
            self.projects(tp, r2),
        ensures
            r1 == r2,
    {
        assert forall|e: (Seq<char>, Seq<char>)| r1.contains(e) <==> r2.contains(e) by {
            if r1.contains(e) {
                let k = choose|k: int| 0 <= k < r1.len() && r1[k] == e;
                assert(tp.contains(r1[k]) && self.keeps(r1[k].0));
                let m = choose|m: int| 0 <= m < tp.len() && tp[m] == e;
                assert(r2.contains(tp[m]));
            }
            if r2.contains(e) {
                let k = choose|k: int| 0 <= k < r2.len() && r2[k] == e;
                assert(tp.contains(r2[k]) && self.keeps(r2[k].0));
                let m = choose|m: int| 0 <= m < tp.len() && tp[m] == e;
                assert(r1.contains(tp[m]));
            }
        }
        self.lemma_ordered_unique(r1, r2);
    }

    /// True when no filtering is configured.
    pub fn is_passthrough(&self) -> (b: bool)
        ensures
            b == (self.included@.len() == 0 && self.exclude@.len() == 0),
    {
        self.included.len() == 0 && self.exclude.len() == 0
    }

    /// The shown fields as `(key, value)` pairs, in order.
    pub fn apply<'a>(&self, extracted: &'a ExtractedFields) -> (r: Vec<(&'a str, &'a str)>)
        requires
            extracted.fields.wf(),
        ensures
            self.projects(strmap::text_pairs(extracted.fields.pairs()), pair_views(r@)),
    {
        if self.included.len() == 0 {
            self.apply_by_name(extracted)
        } else {
            self.apply_in_listed_order(extracted)
        }
    }

    /// The shown fields as `key=value` separated by spaces, or the raw line
    /// when no field is shown.
    pub fn format_fields(&self, extracted: &ExtractedFields) -> (s: String)
        requires
            extracted.fields.wf(),
        ensures
            exists|r: Seq<(Seq<char>, Seq<char>)>|
                self.projects(strmap::text_pairs(extracted.fields.pairs()), r) && s@ == formatted(
                    extracted.raw@,
                    r,
                ),
    {
        let pairs = self.apply(extracted);
        let ghost rv = pair_views(pairs@);
        if self.is_passthrough() && extracted.fields.is_empty() {
            assert(rv.len() == 0) by {
                if rv.len() > 0 {
                    assert(strmap::text_pairs(extracted.fields.pairs()).contains(rv[0]));
                }
            }
            let r = extracted.raw.clone();
            assert(self.projects(strmap::text_pairs(extracted.fields.pairs()), rv) && r@ == formatted(extracted.raw@, rv));
            return r;
        }
        if pairs.len() == 0 {
            let r = extracted.raw.clone();
            assert(self.projects(strmap::text_pairs(extracted.fields.pairs()), rv) && r@ == formatted(extracted.raw@, rv));
            return r;
        }
        let mut parts: Vec<Vec<char>> = Vec::new();
        for i in 0..pairs.len()
            invariant
                rv == pair_views(pairs@),
                parts@.len() == i,
                forall|j: int| 0 <= j < i ==> (#[trigger] parts@[j])@ == pair_text(rv[j]),
        {
            let mut part = text::chars_of(pairs[i].0);
            part.push('=');
            text::push_str(&mut part, pairs[i].1);
            parts.push(part);
        }
        let mut sep: Vec<char> = Vec::new();
        sep.push(' ');
        assert(sep@ =~= seq![' ']);
        let out = text::join_chars(&parts, sep.as_slice());
        assert(parts@.map_values(|p: Vec<char>| p@) =~= rv.map_values(
            |p: (Seq<char>, Seq<char>)| pair_text(p),
        ));
        let r = text::string_from_chars(out.as_slice());
        assert(self.projects(strmap::text_pairs(extracted.fields.pairs()), rv) && r@ == formatted(extracted.raw@, rv));
        r
    }

    fn apply_by_name<'a>(&self, extracted: &'a ExtractedFields) -> (r: Vec<(&'a str, &'a str)>)
        requires
            extracted.fields.wf(),
            self.included@.len() == 0,
        ensures
            self.projects(strmap::text_pairs(extracted.fields.pairs()), pair_views(r@)),
    {
        let fields = &extracted.fields;
        let ghost tp = strmap::text_pairs(fields.pairs());
        proof {
            strmap::lemma_text_pairs_keys(fields.pairs(), Seq::empty());
        }
        let mut out: Vec<(&'a str, &'a str)> = Vec::new();
        let mut outk: Vec<Vec<char>> = Vec::new();
        let n = fields.len();
        for i in 0..n
            invariant
                n == fields.pairs().len(),
                fields == &extracted.fields,
                tp == strmap::text_pairs(fields.pairs()),
                tp.len() == fields.pairs().len(),
                strmap::unique_keys(tp),
                self.included@.len() == 0,
                outk@.len() == out@.len(),
                forall|j: int| 0 <= j < out@.len() ==> (#[trigger] outk@[j])@ == pair_views(out@)[j].0,
                sorted_keys(pair_views(out@)),
                forall|j: int|
                    0 <= j < out@.len() ==> tp.take(i as int).contains(#[trigger] pair_views(out@)[j])
                        && self.keeps(pair_views(out@)[j].0),
                forall|j: int|
                    0 <= j < i && self.keeps(tp[j].0) ==> pair_views(out@).contains(#[trigger] tp[j]),
        {
            let key = fields.key_at(i);
            let value = fields.value_at(i);
            let ghost e = (key@, value@);
            assert(tp[i as int] == e);
            if !contains_name(&self.exclude, key.as_str()) {
                let kc = text::chars_of(key.as_str());
                let ghost rv = pair_views(out@);
                let mut pos: usize = 0;
                while pos < out.len() && !text::chars_lt(kc.as_slice(), outk[pos].as_slice())
                    invariant
                        pos <= out@.len(),
                        outk@.len() == out@.len(),
                        rv == pair_views(out@),
                        kc@ == e.0,
                        forall|j: int| 0 <= j < out@.len() ==> (#[trigger] outk@[j])@ == rv[j].0,
                        forall|j: int| 0 <= j < pos ==> !text::lex_lt(e.0, #[trigger] rv[j].0),
                    decreases out@.len() - pos,
                {
                    pos = pos + 1;
                }
                proof {
                    assert forall|j: int| 0 <= j < pos implies text::lex_lt(#[trigger] rv[j].0, e.0) by {
                        assert(tp.take(i as int).contains(rv[j]));
                        let idx = choose|idx: int|
                            0 <= idx < tp.take(i as int).len() && tp.take(i as int)[idx] == rv[j];
                        assert(tp[idx] == rv[j]);
                        assert(rv[j].0 != e.0);
                        text::lemma_lex_total(rv[j].0, e.0);
                    }
                    lemma_insert_sorted(rv, pos as int, e);
                }
                let ghost ok = outk@;
                out.insert(pos, (key.as_str(), value.as_str()));
                outk.insert(pos, kc);
                proof {
                    let nv = pair_views(out@);
                    assert(nv =~= rv.insert(pos as int, e));
                    assert forall|j: int| 0 <= j < out@.len() implies (#[trigger] outk@[j])@ == nv[j].0 by {
                        if j < pos {
                        } else if j > pos {
                            assert(outk@[j] == ok[j - 1]);
                        }
                    }
                    assert forall|j: int|
                        0 <= j < out@.len() implies tp.take(i + 1).contains(#[trigger] nv[j]) && self.keeps(
                            nv[j].0,
                        ) by {
                        if j == pos {
                            assert(tp.take(i + 1)[i as int] == e);
                        } else {
                            let jj = if j < pos { j } else { j - 1 };
                            assert(nv[j] == rv[jj]);
                            let idx = choose|idx: int|
                                0 <= idx < tp.take(i as int).len() && tp.take(i as int)[idx] == rv[jj];
                            assert(tp.take(i + 1)[idx] == rv[jj]);
                        }
                    }
                    assert forall|j: int| 0 <= j < i + 1 && self.keeps(tp[j].0) implies nv.contains(
                        #[trigger] tp[j],
                    ) by {
                        if j == i {
                            assert(nv[pos as int] == e);
                        } else {
                            let w = choose|w: int| 0 <= w < rv.len() && rv[w] == tp[j];
                            if w < pos {
                                assert(nv[w] == tp[j]);
                            } else {
                                assert(nv[w + 1] == tp[j]);
                            }
                        }
                    }
                }
            } else {
                proof {
                    let rv = pair_views(out@);
                    assert forall|j: int|
                        0 <= j < out@.len() implies tp.take(i + 1).contains(#[trigger] rv[j]) by {
                        let idx = choose|idx: int|
                            0 <= idx < tp.take(i as int).len() && tp.take(i as int)[idx] == rv[j];
                        assert(tp.take(i + 1)[idx] == rv[j]);
                    }
                }
            }
        }
        proof {
            let rv = pair_views(out@);
            assert(tp.take(tp.len() as int) =~= tp);
            assert forall|a: int, b: int| 0 <= a < b < rv.len() implies self.before(
                #[trigger] rv[a].0,
                #[trigger] rv[b].0,
            ) by {}
        }
        out
    }

    /// A step over the list of shown fields that adds no field keeps the invariant.
    proof fn lemma_listed_step(
        &self,
        tp: Seq<(Seq<char>, Seq<char>)>,
        rv: Seq<(Seq<char>, Seq<char>)>,
        p: int,
        name: Seq<char>,
    )
        requires
            0 <= p < self.included@.len(),
            names(self.included@)[p] == name,
            names(self.included@).take(p).contains(name) || !strmap::has_key(tp, name) || names(
                self.exclude@,
            ).contains(name),
            forall|j: int|
                0 <= j < rv.len() ==> tp.contains(#[trigger] rv[j]) && self.keeps(rv[j].0)
                    && names(self.included@).take(p).contains(rv[j].0),
            forall|j: int|
                0 <= j < tp.len() && self.keeps(tp[j].0) && names(self.included@).take(p).contains(
                    tp[j].0,
                ) ==> rv.contains(#[trigger] tp[j]),
        ensures
            forall|j: int|
                0 <= j < rv.len() ==> tp.contains(#[trigger] rv[j]) && self.keeps(rv[j].0)
                    && names(self.included@).take(p + 1).contains(rv[j].0),
            forall|j: int|
                0 <= j < tp.len() && self.keeps(tp[j].0) && names(self.included@).take(p + 1).contains(
                    tp[j].0,
                ) ==> rv.contains(#[trigger] tp[j]),
    {
        let inc = names(self.included@);
        assert forall|j: int| 0 <= j < rv.len() implies inc.take(p + 1).contains(#[trigger] rv[j].0) by {
            let q = choose|q: int| 0 <= q < inc.take(p).len() && inc.take(p)[q] == rv[j].0;
            assert(inc.take(p + 1)[q] == rv[j].0);
        }
        assert forall|j: int|
            0 <= j < tp.len() && self.keeps(tp[j].0) && inc.take(p + 1).contains(
                tp[j].0,
            ) implies rv.contains(#[trigger] tp[j]) by {
            let t1 = inc.take(p + 1);
            let q = choose|q: int| 0 <= q < t1.len() && t1[q] == tp[j].0;
            if q < p {
                assert(inc.take(p)[q] == tp[j].0);
            } else {
                assert(tp[j].0 == name);
                if inc.take(p).contains(name) {
                } else if !strmap::has_key(tp, name) {
                    assert(tp[j].0 == name);
                }
            }
        }
    }

    fn apply_in_listed_order<'a>(&self, extracted: &'a ExtractedFields) -> (r: Vec<(&'a str, &'a str)>)
        requires
            extracted.fields.wf(),
            self.included@.len() > 0,
        ensures
            self.projects(strmap::text_pairs(extracted.fields.pairs()), pair_views(r@)),
    {
        let fields = &extracted.fields;
        let ghost tp = strmap::text_pairs(fields.pairs());
        let ghost inc = names(self.included@);
        let mut out: Vec<(&'a str, &'a str)> = Vec::new();
        for p in 0..self.included.len()
            invariant
                fields == &extracted.fields,
                fields.wf(),
                tp == strmap::text_pairs(fields.pairs()),
                tp.len() == fields.pairs().len(),
                inc == names(self.included@),
                inc.len() == self.included@.len(),
                self.included@.len() > 0,
                forall|j: int|
                    0 <= j < out@.len() ==> tp.contains(#[trigger] pair_views(out@)[j]) && self.keeps(
                        pair_views(out@)[j].0,
                    ) && inc.take(p as int).contains(pair_views(out@)[j].0),
                forall|j: int|
                    0 <= j < tp.len() && self.keeps(tp[j].0) && inc.take(p as int).contains(tp[j].0)
                        ==> pair_views(out@).contains(#[trigger] tp[j]),
                forall|a: int, b: int|
                    0 <= a < b < out@.len() ==> pair_views(out@)[a].0 != pair_views(out@)[b].0
                        && comes_first(
                        inc,
                        #[trigger] pair_views(out@)[a].0,
                        #[trigger] pair_views(out@)[b].0,
                    ),
        {
            let name = &self.included[p];
            assert(inc[p as int] == name@);
            let ghost rv = pair_views(out@);
            if !contains_name_before(&self.included, p, name.as_str()) {
                match fields.position(name.as_str()) {
                    Some(i) => {
                        if !contains_name(&self.exclude, name.as_str()) {
                            let key = fields.key_at(i);
                            let value = fields.value_at(i);
                            let ghost e = (key@, value@);
                            proof {
                                strmap::lemma_text_pairs_keys(fields.pairs(), name@);
                                assert(tp[i as int] == e);
                                assert(inc.contains(e.0));
                            }
                            out.push((key.as_str(), value.as_str()));
                            proof {
                                let nv = pair_views(out@);
                                assert(nv =~= rv.push(e));
                                assert(inc.take(p + 1)[p as int] == e.0);
                                assert forall|j: int| 0 <= j < out@.len() implies tp.contains(
                                    #[trigger] nv[j],
                                ) && self.keeps(nv[j].0) && inc.take(p + 1).contains(nv[j].0) by {
                                    if j < rv.len() {
                                        let q = choose|q: int|
                                            0 <= q < inc.take(p as int).len() && inc.take(p as int)[q]
                                                == rv[j].0;
                                        assert(inc.take(p + 1)[q] == rv[j].0);
                                    } else {
                                        assert(tp[i as int] == nv[j]);
                                    }
                                }
                                assert forall|j: int|
                                    0 <= j < tp.len() && self.keeps(tp[j].0) && inc.take(
                                        p + 1,
                                    ).contains(tp[j].0) implies nv.contains(#[trigger] tp[j]) by {
                                    if inc.take(p as int).contains(tp[j].0) {
                                        let w = choose|w: int| 0 <= w < rv.len() && rv[w] == tp[j];
                                        assert(nv[w] == tp[j]);
                                    } else {
                                        let t1 = inc.take(p + 1);
                                        let q = choose|q: int| 0 <= q < t1.len() && t1[q] == tp[j].0;
                                        if q < p {
                                            assert(inc.take(p as int)[q] == tp[j].0);
                                        }
                                        assert(tp[j].0 == e.0);
                                        strmap::lemma_key_index(tp, j);
                                        strmap::lemma_key_index(tp, i as int);
                                        assert(nv[rv.len() as int] == tp[j]);
                                    }
                                }
                                assert forall|a: int, b: int| 0 <= a < b < out@.len() implies nv[a].0 != nv[b].0
                                    && comes_first(
                                    inc,
                                    #[trigger] nv[a].0,
                                    #[trigger] nv[b].0,
                                ) by {
                                    if b < rv.len() {
                                        assert(nv[a] == rv[a] && nv[b] == rv[b]);
                                    } else {
                                        let q = choose|q: int|
                                            0 <= q < inc.take(p as int).len() && inc.take(p as int)[q]
                                                == rv[a].0;
                                        assert(inc[q] == nv[a].0);
                                        assert(inc.take(p as int)[q] == nv[a].0);
                                        assert(!inc.take(q).contains(nv[b].0)) by {
                                            if inc.take(q).contains(nv[b].0) {
                                                let z = choose|z: int|
                                                    0 <= z < inc.take(q).len() && inc.take(q)[z]
                                                        == nv[b].0;
                                                assert(inc.take(p as int)[z] == nv[b].0);
                                            }
                                        }
                                    }
                                }
                            }
                        } else {
                            proof {
                                self.lemma_listed_step(tp, rv, p as int, name@);
                            }
                        }
                    },
                    None => {
                        proof {
                            strmap::lemma_text_pairs_keys(fields.pairs(), name@);
                            self.lemma_listed_step(tp, rv, p as int, name@);
                        }
                    },
                }
            } else {
                proof {
                    self.lemma_listed_step(tp, rv, p as int, name@);
                }
            }
        }
        proof {
            let rv = pair_views(out@);
            assert(inc.take(inc.len() as int) =~= inc);
            assert forall|a: int, b: int| 0 <= a < b < rv.len() implies self.before(
                #[trigger] rv[a].0,
                #[trigger] rv[b].0,
            ) by {}
        }
        out
    }
}

} // verus!
