//! Field masking: partially obscure field values (e.g. show only first/last N chars).
//!
//! Lengths are counted in characters: a rule keeps `n` characters and puts
//! one `*` in place of each other character.

use vstd::prelude::*;
use crate::strmap::{self, StrMap};
use crate::text;

verus! {

/// How a field value is masked.
#[derive(Debug, Clone)]
pub enum MaskRule {
    /// Keep the first `n` characters, replace the rest with `*`.
    Prefix(usize),
    /// Keep the last `n` characters, replace the leading portion with `*`.
    Suffix(usize),
    /// Replace the entire value with a fixed placeholder.
    Full(String),
}

/// Field name to mask rule.
pub struct MaskConfig {
    /// Map of field name -> mask rule.
    pub fields: StrMap<MaskRule>,
}

/// `n` asterisks.
pub open spec fn stars(n: int) -> Seq<char> {
    Seq::new(n as nat, |i: int| '*')
}

/// How many characters a rule keeps of a value of `len` characters.
pub open spec fn kept(n: usize, len: int) -> int {
    if n < len {
        n as int
    } else {
        len
    }
}

/// The masked value.
pub open spec fn masked_value(value: Seq<char>, rule: MaskRule) -> Seq<char> {
    match rule {
        MaskRule::Prefix(n) => value.take(kept(n, value.len() as int)) + stars(
            value.len() - kept(n, value.len() as int),
        ),
        MaskRule::Suffix(n) => stars(value.len() - kept(n, value.len() as int)) + value.subrange(
            value.len() - kept(n, value.len() as int),
            value.len() as int,
        ),
        MaskRule::Full(p) => p@,
    }
}

/// Appends `n` asterisks.
fn push_stars(v: &mut Vec<char>, n: usize)
    ensures
        final(v)@ == old(v)@ + stars(n as int),
{
    let ghost start = v@;
    let mut i: usize = 0;
    while i < n
        invariant
            i <= n,
            v@ == start + stars(i as int),
        decreases n - i,
    {
        v.push('*');
        i = i + 1;
        assert(v@ =~= start + stars(i as int));
    }
}

/// Applies one rule to one value.
pub fn apply_rule(value: &str, rule: &MaskRule) -> (r: String)
    ensures
        r@ == masked_value(value@, *rule),
{
    let cs = text::chars_of(value);
    let total = cs.len();
    match rule {
        MaskRule::Prefix(n) => {
            let keep = if *n < total { *n } else { total };
            let mut out = text::slice_chars(cs.as_slice(), 0, keep);
            push_stars(&mut out, total - keep);
            assert(out@ =~= masked_value(value@, *rule));
            text::string_from_chars(out.as_slice())
        },
        MaskRule::Suffix(n) => {
            let keep = if *n < total { *n } else { total };
            let mut out: Vec<char> = Vec::new();
            push_stars(&mut out, total - keep);
            let tail = text::slice_chars(cs.as_slice(), total - keep, total);
            text::push_seq(&mut out, tail.as_slice());
            assert(out@ =~= masked_value(value@, *rule));
            text::string_from_chars(out.as_slice())
        },
        MaskRule::Full(placeholder) => placeholder.clone(),
    }
}

/// A character that ends an unquoted value in a line.
pub open spec fn ends_value(c: char) -> bool {
    c == ' ' || c == ',' || c == '}'
}

/// The index of the first value-ending character of `s` (its length if none).
pub open spec fn value_end(s: Seq<char>) -> int
    decreases s.len(),
{
    if s.len() == 0 {
        0
    } else if ends_value(s[0]) {
        0
    } else {
        1 + value_end(s.drop_first())
    }
}

/// `value_end` lies within the text.
pub proof fn lemma_value_end(s: Seq<char>)
    ensures
        0 <= value_end(s) <= s.len(),
    decreases s.len(),
{
    if s.len() > 0 && !ends_value(s[0]) {
        lemma_value_end(s.drop_first());
    }
}

/// The index of the first `"` of `s` (its length if none).
pub open spec fn quote_end(s: Seq<char>) -> int
    decreases s.len(),
{
    if s.len() == 0 {
        0
    } else if s[0] == '"' {
        0
    } else {
        1 + quote_end(s.drop_first())
    }
}

/// `quote_end` lies within the text.
pub proof fn lemma_quote_end(s: Seq<char>)
    ensures
        0 <= quote_end(s) <= s.len(),
    decreases s.len(),
{
    if s.len() > 0 && s[0] != '"' {
        lemma_quote_end(s.drop_first());
    }
}

/// The JSON opening of a string member: `"field":"`.
pub open spec fn json_key(field: Seq<char>) -> Seq<char> {
    seq!['"'] + field + seq!['"', ':', '"']
}

/// Where the value of `field` lies in `line`: after the first `field=`, up
/// to the next space, comma or closing brace; or else, after the first
/// `"field":"`, up to the next `"`.
pub open spec fn value_span(line: Seq<char>, field: Seq<char>) -> Option<(int, int)> {
    match text::find(line, field + seq!['=']) {
        Some(start) => {
            let vs = start + field.len() + 1;
            Some((vs, vs + value_end(line.subrange(vs, line.len() as int))))
        },
        None => match text::find(line, json_key(field)) {
            None => None,
            Some(start) => {
                let vs = start + field.len() + 4;
                Some((vs, vs + quote_end(line.subrange(vs, line.len() as int))))
            },
        },
    }
}

/// `line` with the value of `field` masked.
pub open spec fn mask_line_field(line: Seq<char>, field: Seq<char>, rule: MaskRule) -> Seq<char> {
    match value_span(line, field) {
        None => line,
        Some((vs, ve)) => line.subrange(0, vs) + masked_value(line.subrange(vs, ve), rule)
            + line.subrange(ve, line.len() as int),
    }
}

/// `line` after masking the fields of `rules` in order.
pub open spec fn mask_line(line: Seq<char>, rules: Seq<(Seq<char>, MaskRule)>) -> Seq<char>
    decreases rules.len(),
{
    if rules.len() == 0 {
        line
    } else {
        mask_line_field(mask_line(line, rules.drop_last()), rules.last().0, rules.last().1)
    }
}

/// Masking with the rules `a` and then `b` is masking with `a` and then
/// masking that result with `b`: each rule works on the line as the rules
/// before it left it.
pub proof fn lemma_mask_line_in_steps(
    line: Seq<char>,
    a: Seq<(Seq<char>, MaskRule)>,
    b: Seq<(Seq<char>, MaskRule)>,
)
    ensures
        mask_line(line, a + b) == mask_line(mask_line(line, a), b),
    decreases b.len(),
{
    if b.len() == 0 {
        assert(a + b =~= a);
    } else {
        lemma_mask_line_in_steps(line, a, b.drop_last());
        assert((a + b).drop_last() =~= a + b.drop_last());
        assert((a + b).last() == b.last());
    }
}

/// A rule whose field occurs nowhere in the line, neither as `field=` nor
/// as `"field":"`, leaves the line as it is.
pub proof fn lemma_absent_field_unchanged(line: Seq<char>, field: Seq<char>, rule: MaskRule)
    requires
        forall|i: int| !text::occurs_at(line, field + seq!['='], i),
        forall|i: int| !text::occurs_at(line, json_key(field), i),
    ensures
        mask_line_field(line, field, rule) == line,
{
    text::lemma_find_from(line, field + seq!['='], 0);
    text::lemma_find_from(line, json_key(field), 0);
}

/// Where `field=` first occurs at `i`, the masked line keeps everything up
/// to and including that `field=`, then the value (up to the next space,
/// comma or closing brace) masked by the rule, then the rest of the line.
pub proof fn lemma_present_field_masked(line: Seq<char>, field: Seq<char>, rule: MaskRule, i: int, e: int)
    requires
        text::occurs_at(line, field + seq!['='], i),
        forall|j: int| 0 <= j < i ==> !text::occurs_at(line, field + seq!['='], j),
        i + field.len() + 1 <= e <= line.len(),
        forall|k: int| i + field.len() + 1 <= k < e ==> !ends_value(#[trigger] line[k]),
        e == line.len() || ends_value(line[e]),
    ensures
        mask_line_field(line, field, rule) == line.subrange(0, i + field.len() + 1) + masked_value(
            line.subrange(i + field.len() + 1, e),
            rule,
        ) + line.subrange(e, line.len() as int),
{
    text::lemma_find_from(line, field + seq!['='], 0);
    let vs = i + field.len() + 1;
    assert(text::find(line, field + seq!['=']) == Some(i));
    lemma_value_end_at(line.subrange(vs, line.len() as int), e - vs);
}

/// `value_end` is the first value-ending position.
proof fn lemma_value_end_at(s: Seq<char>, n: int)
    requires
        0 <= n <= s.len(),
        forall|k: int| 0 <= k < n ==> !ends_value(#[trigger] s[k]),
        n == s.len() || ends_value(s[n]),
    ensures
        value_end(s) == n,
    decreases s.len(),
{
    if s.len() > 0 && n > 0 {
        assert(!ends_value(s[0]));
        assert forall|k: int| 0 <= k < n - 1 implies !ends_value(#[trigger] s.drop_first()[k]) by {
            assert(s.drop_first()[k] == s[k + 1]);
        }
        if n < s.len() {
            assert(s.drop_first()[n - 1] == s[n]);
        }
        lemma_value_end_at(s.drop_first(), n - 1);
    }
}

/// A record after masking: each field with a rule has its value masked.
pub open spec fn mask_record(
    record: Seq<(Seq<char>, Seq<char>)>,
    rules: Seq<(Seq<char>, MaskRule)>,
) -> Seq<(Seq<char>, Seq<char>)> {
    record.map_values(
        |e: (Seq<char>, Seq<char>)|
            if strmap::has_key(rules, e.0) {
                (e.0, masked_value(e.1, strmap::value_of(rules, e.0)))
            } else {
                e
            },
    )
}

/// The index of the first value-ending character of `v` from `from` on.
fn find_value_end(v: &[char], from: usize) -> (e: usize)
    requires
        from <= v@.len(),
    ensures
        e == from + value_end(v@.subrange(from as int, v@.len() as int)),
        from <= e <= v@.len(),
{
    let mut i = from;
    proof {
        lemma_value_end(v@.subrange(from as int, v@.len() as int));
    }
    while i < v.len() && !(v[i] == ' ' || v[i] == ',' || v[i] == '}')
        invariant
            from <= i <= v@.len(),
            from + value_end(v@.subrange(from as int, v@.len() as int)) == i + value_end(
                v@.subrange(i as int, v@.len() as int),
            ),
        decreases v@.len() - i,
    {
        assert(v@.subrange(i as int, v@.len() as int).drop_first() =~= v@.subrange(
            i + 1,
            v@.len() as int,
        ));
        i = i + 1;
    }
    i
}

/// The index of the first `"` of `v` from `from` on.
fn find_quote_end(v: &[char], from: usize) -> (e: usize)
    requires
        from <= v@.len(),
    ensures
        e == from + quote_end(v@.subrange(from as int, v@.len() as int)),
        from <= e <= v@.len(),
{
    let mut i = from;
    proof {
        lemma_quote_end(v@.subrange(from as int, v@.len() as int));
    }
    while i < v.len() && v[i] != '"'
        invariant
            from <= i <= v@.len(),
            from + quote_end(v@.subrange(from as int, v@.len() as int)) == i + quote_end(
                v@.subrange(i as int, v@.len() as int),
            ),
        decreases v@.len() - i,
    {
        assert(v@.subrange(i as int, v@.len() as int).drop_first() =~= v@.subrange(
            i + 1,
            v@.len() as int,
        ));
        i = i + 1;
    }
    i
}

/// `line` with the characters from `vs` up to `ve` masked by `rule`.
fn mask_span(line: &[char], vs: usize, ve: usize, rule: &MaskRule) -> (r: Vec<char>)
    requires
        vs <= ve <= line@.len(),
    ensures
        r@ == line@.subrange(0, vs as int) + masked_value(line@.subrange(vs as int, ve as int), *rule)
            + line@.subrange(ve as int, line@.len() as int),
{
    let value_chars = text::slice_chars(line, vs, ve);
    let current = text::string_from_chars(value_chars.as_slice());
    let masked = apply_rule(current.as_str(), rule);
    let mut out = text::slice_chars(line, 0, vs);
    text::push_str(&mut out, masked.as_str());
    let tail = text::slice_chars(line, ve, line.len());
    text::push_seq(&mut out, tail.as_slice());
    out
}

/// `line` with the value of `field` masked.
fn mask_in_line(line: &[char], field: &str, rule: &MaskRule) -> (r: Vec<char>)
    ensures
        r@ == mask_line_field(line@, field@, *rule),
{
    let mut prefix = text::chars_of(field);
    prefix.push('=');
    assert(prefix@ =~= field@ + seq!['=']);
    proof {
        text::lemma_find_from(line@, field@ + seq!['='], 0);
    }
    match text::find_seq(line, prefix.as_slice()) {
        Some(start) => {
            assert(text::occurs_at(line@, field@ + seq!['='], start as int));
            let line_len = line.len();
            assert(start + prefix@.len() <= line_len);
            let val_start = start + prefix.len();
            let val_end = find_value_end(line, val_start);
            mask_span(line, val_start, val_end, rule)
        },
        None => {
            let mut key: Vec<char> = Vec::new();
            key.push('"');
            text::push_str(&mut key, field);
            key.push('"');
            key.push(':');
            key.push('"');
            assert(key@ =~= json_key(field@));
            proof {
                text::lemma_find_from(line@, json_key(field@), 0);
            }
            match text::find_seq(line, key.as_slice()) {
                Some(start) => {
                    assert(text::occurs_at(line@, json_key(field@), start as int));
                    let line_len = line.len();
                    assert(start + key@.len() <= line_len);
                    let val_start = start + key.len();
                    let val_end = find_quote_end(line, val_start);
                    mask_span(line, val_start, val_end, rule)
                },
                None => {
                    let mut out: Vec<char> = Vec::new();
                    text::push_seq(&mut out, line);
                    assert(out@ =~= line@);
                    out
                },
            }
        },
    }
}

impl MaskConfig {
    /// The rules in order, fields by their characters.
    pub open spec fn rules(&self) -> Seq<(Seq<char>, MaskRule)> {
        self.fields.pairs()
    }

    pub fn new(fields: StrMap<MaskRule>) -> (c: Self)
        ensures
            c.fields == fields,
    {
        MaskConfig { fields }
    }

    /// Apply masking rules to a mutable map of fields extracted from a log line.
    pub fn apply(&self, record: &mut StrMap<String>)
        requires
            self.fields.wf(),
            old(record).wf(),
        ensures
            final(record).wf(),
            strmap::text_pairs(final(record).pairs()) == mask_record(
                strmap::text_pairs(old(record).pairs()),
                self.rules(),
            ),
    {
        let ghost orig = strmap::text_pairs(record.pairs());
        let ghost rules = self.rules();
        let mut i: usize = 0;
        while i < self.fields.len()
            invariant
                i <= rules.len(),
                rules == self.rules(),
                strmap::unique_keys(rules),
                record.wf(),
                strmap::text_pairs(record.pairs()).len() == orig.len(),
                forall|j: int|
                    0 <= j < orig.len() ==> (#[trigger] strmap::text_pairs(record.pairs())[j]) == (
                    if strmap::has_key(rules, orig[j].0) && strmap::key_index(rules, orig[j].0)
                        < i {
                        (orig[j].0, masked_value(orig[j].1, strmap::value_of(rules, orig[j].0)))
                    } else {
                        orig[j]
                    }),
            decreases rules.len() - i,
        {
            let field = self.fields.key_at(i);
            let rule = self.fields.value_at(i);
            proof {
                strmap::lemma_key_index(rules, i as int);
            }
            match record.position(field.as_str()) {
                Some(j) => {
                    let ghost cur = strmap::text_pairs(record.pairs());
                    proof {
                        strmap::lemma_text_pairs_keys(record.pairs(), field@);
                        assert(cur[j as int].0 == field@);
                        assert(orig[j as int].0 == field@);
                        assert(strmap::key_index(rules, orig[j as int].0) == i);
                        assert(cur[j as int] == orig[j as int]);
                        assert(strmap::has_key(rules, orig[j as int].0));
                    }
                    let masked = apply_rule(record.value_at(j).as_str(), rule);
                    record.set_value_at(j, masked);
                    proof {
                        let now = strmap::text_pairs(record.pairs());
                        assert forall|k: int| 0 <= k < orig.len() implies (#[trigger] now[k]) == (
                        if strmap::has_key(rules, orig[k].0) && strmap::key_index(rules, orig[k].0)
                            < i + 1 {
                            (orig[k].0, masked_value(orig[k].1, strmap::value_of(rules, orig[k].0)))
                        } else {
                            orig[k]
                        }) by {
                            if k != j {
                                assert(now[k] == cur[k]);
                                if strmap::has_key(rules, orig[k].0) && strmap::key_index(rules, orig[k].0) == i {
                                    assert(orig[k].0 == field@);
                                    assert(cur[k].0 == field@);
                                    assert(cur[k].0 != cur[j as int].0);
                                }
                            }
                        }
                    }
                },
                None => {
                    proof {
                        strmap::lemma_text_pairs_keys(record.pairs(), field@);
                        let cur = strmap::text_pairs(record.pairs());
                        assert forall|k: int| 0 <= k < orig.len() implies (#[trigger] cur[k]) == (
                        if strmap::has_key(rules, orig[k].0) && strmap::key_index(rules, orig[k].0)
                            < i + 1 {
                            (orig[k].0, masked_value(orig[k].1, strmap::value_of(rules, orig[k].0)))
                        } else {
                            orig[k]
                        }) by {
                            if strmap::has_key(rules, orig[k].0) && strmap::key_index(rules, orig[k].0) == i {
                                assert(orig[k].0 == field@);
                                assert(cur[k].0 == field@);
                            }
                        }
                    }
                },
            }
            i = i + 1;
        }
        proof {
            let fin = strmap::text_pairs(record.pairs());
            assert forall|k: int| 0 <= k < orig.len() && strmap::has_key(rules, orig[k].0)
                implies strmap::key_index(rules, orig[k].0) < rules.len() by {
                let w = strmap::key_index(rules, orig[k].0);
                assert(0 <= w < rules.len());
            }
            assert(fin =~= mask_record(orig, rules));
        }
    }

    /// Apply masking to a raw line by scanning for `key=value` or
    /// `"key":"value"` patterns, field by field in rule order. Returns the
    /// modified line.
    pub fn apply_to_line(&self, line: &str) -> (r: String)
        ensures
            r@ == mask_line(line@, self.rules()),
    {
        let ghost rules = self.rules();
        let mut result = text::chars_of(line);
        let mut i: usize = 0;
        assert(rules.take(0) =~= Seq::<(Seq<char>, MaskRule)>::empty());
        while i < self.fields.len()
            invariant
                i <= rules.len(),
                rules == self.rules(),
                result@ == mask_line(line@, rules.take(i as int)),
            decreases rules.len() - i,
        {
            proof {
                assert(rules.take(i + 1).drop_last() =~= rules.take(i as int));
            }
            result = mask_in_line(result.as_slice(), self.fields.key_at(i).as_str(), self.fields.value_at(i));
            i = i + 1;
        }
        assert(rules.take(rules.len() as int) =~= rules);
        text::string_from_chars(result.as_slice())
    }
}

} // verus!
